# extract_beasts

Reads the stat blocks of beasts (adversaries) from the text of rule-book
pages and writes them out as YAML or as Obsidian notes.

The library under `src/` is verified with Verus:

- `grammar` states the stat-block format as spec functions over the page
  text; `text` holds the parser, proved to follow it, and `parse_page`.
- `structure` holds the data types, their models and the name lookups of
  roles, sizes and action kinds.
- `page_ranges` and `pages` read page lists such as `12-13,15` and the
  predefined ranges; `website`, `form` and `editor` hold what the web page
  decides from its fields.
- `obsidian` rewrites a beast for an Obsidian note.
- `icons` reads the table of icons drawn as shapes.
- `token_tree` folds a parser's start/end tokens into a tree of values.
- `chars` holds the character-level helpers they share.

`app/` is the command-line tool around it: PDF text extraction, YAML output,
files and threads.
