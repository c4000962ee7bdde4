# oxidoc

A command-line reader for Rust documentation: it indexes the documentation of crates by
module path, finds items by fuzzy or path queries, and draws Markdown documentation on a
terminal.

The library under `src/` is written in Verus and verified:

- `document`, `doc_types`, `paths`, `related`, `visitor`: module paths, document records,
  where they are stored, and which items of a crate's source get one;
- `store`, `assoc`, `version`: the store of crate versions and documents, keyword search,
  newest-version selection;
- `score`, `matcher`, `choice_stack`, `driver`: fuzzy matching and the interactive search
  state;
- `dombox`, `box_view`, `layout`, `render`, `markdown`: the box tree built from Markdown
  events (and its plain values), its layout on a terminal of a given width, and drawing it
  as styled runs;
- `io_support`, `text`, `markup`, `toml_util`: characters, strings, formatting helpers, and
  TOML values.

`app/` holds the program around it: argument handling, files, the terminal, reading Rust
syntax trees into plain items, turning HTML into text, serialisation.
