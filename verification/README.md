# pretty-log

A streaming prettifier for JSON logs: each JSON line becomes one readable line
(time of day, level, message, trace id, caller, extra fields), stack traces stay with
the entry they belong to, and `-t` opens an interactive table with search.

The library in `src/` holds the logic and is verified with Verus; `app/` is the
command around it (arguments, reading stdin, writing stdout, the settings file and
the terminal user interface).

## Library modules

| Module | What it holds |
|--------|---------------|
| `text` | character-level helpers: trimming, searching, UTF-8 widths, decimal digits |
| `json` | the JSON values of a log line, parsed with `serde_json` |
| `config` | settings, their defaults, and the command-line switches |
| `reader` | grouping of input lines into logical entries (continuation lines) |
| `parser` | recognising lines that hold one JSON object |
| `keyed` | lists of `(key, value)` pairs kept in key order |
| `classifier` | the role of each field: level, timestamp, message, trace id, caller, extras |
| `renderer` | one entry as one line of text, with optional ANSI colours (`owo-colors`) |
| `pipeline` | from a logical line to the printed text |
| `kmp`, `search` | case-insensitive substring search with a prepared pattern |
| `highlight` | wrapped message lines with the search highlighted |
| `table` | the table view's state: columns, rows, scrolling, search, key handling |
| `screen` | what the table view draws: visible rows, cells, status bar |

Each public function states its result in its `ensures` clause; the laws that tie
several functions together (grouping keeps every line in order, every entry starts
where it should, a row's lines fill its height, search-previous undoes search-next,
packed detail lines hold every pair, highlighted segments join back into the text
and mark the leftmost non-overlapping occurrences) are public proof functions.
