# vischat

A terminal browser for AI agent chat histories stored as JSON lines, with its
logic verified by Verus.

## Layout

- `src/` — the verified library.
  - `text.rs`: trimming, first lines, joining, decimals and UTF-8 byte prefixes,
    specified over `Seq<char>`.
  - `json.rs`: JSON values and their model; reading and pretty-printing go
    through `serde_json`.
  - `message.rs`: records, content blocks, logical messages and the rows that
    the list shows.
  - `parser.rs`: reading a history line by line and grouping assistant blocks
    by message id into turns.
  - `app.rs`: the browser state (selection, scrolling, folding of thinking rows).
  - `navigation.rs`: key bindings and what each key does to the state.
  - `ui.rs`: the texts of the panes.
- `app/` — the program: command line, file reading, terminal and drawing.
- `tests/` — tests of the library.

Each public function states its result in its `ensures` clause over the models
above; the proof functions named `law_*` state properties that span several
functions (grouping keeps every block, keys keep the selection in range, and so on).
