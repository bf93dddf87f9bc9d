# deja_vu

A code duplication detector whose detection logic is verified with Verus.

- `src/` is the verified library: tokens and their normalization, the
  rolling hash, the token-based detector (windows, grouping by hash,
  extension into clone groups), the generic AST, subtree hashing and
  pairing for the AST-based detector, the Python tokenizer (which calls
  the RustPython lexer itself), the Python parse (which calls Ruff's
  parser and converts its tree into the generic AST), the file filters,
  and the pieces of the JSON/SARIF reports that are computed rather than
  serialized. Calls into `rustc-hash`, `dashmap`, `rustpython-parser` and
  `ruff_python_parser` stand behind trusted items whose contracts say
  what those crates do.
- `app/` is the command-line program: argument handling, reading files,
  floating-point similarity scores and the tree edit distance, and
  serialization of the reports.
- `tests/` exercises the library.
