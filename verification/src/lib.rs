//! Streaming prettifier for JSON log lines: grouping, parsing, classification,
//! rendering and the state of the interactive table view.

pub mod classifier;
pub mod config;
pub mod json;
pub mod keyed;
pub mod kmp;
pub mod highlight;
pub mod parser;
pub mod pipeline;
pub mod reader;
pub mod renderer;
pub mod screen;
pub mod search;
pub mod table;
pub mod text;
