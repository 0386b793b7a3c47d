# gn_language_server

A language server for [GN](https://gn.googlesource.com/gn/), the build
configuration language of Chromium and Fuchsia, whose core is verified with
Verus.

- `src/` is the verified library: the lexer and parser, the line index, the
  document storage, workspace discovery and the `.gn` file, the shallow
  analysis of imported files and the full analysis of the file being edited,
  and what the editor asks of it (hover help, completion, definitions, links,
  references, the outline, workspace symbols, diagnostics). Every function has
  a contract; the laws of the library are public proof functions. The GN
  grammar is written out as spec functions over the token sequence
  (`src/grammar.rs`), and the parser is proved to build exactly the tree that
  the grammar describes.
- `app/` is the server around it: the Language Server Protocol plumbing, file
  system walks, the `gn format` process, and conversions between protocol
  values and the library's.
- `tests/` runs the library on concrete inputs.
