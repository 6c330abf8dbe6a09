# dead_poets

Finds gettext PO keys that no source file uses any more, across PHP,
JavaScript/TypeScript and Twig code.

Layout:

- `src/` — the library, verified with Verus: string decoding, guard
  extraction, per-language extraction over syntax-tree node tables, the PO key
  universe, liveness classification, the optional audit of the Dead bucket,
  file selection and ordering, and the text report. Calls into tree-sitter,
  regex, aho-corasick and globset go through small trusted wrappers whose
  contracts name what those crates compute.
- `app/` — the command-line program: argument parsing, configuration files,
  walking the roots, reading catalogs and sources, parallel extraction, colour
  and JSON output.
- `tests/` — tests of the library's public functions.
