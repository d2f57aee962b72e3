# mincaml

The front end of a compiler for a small ML dialect, written in Verus.

- `src/grammar.rs` states the grammar as functions on bytes; `src/parser.rs`
  parses source bytes into syntax trees and is proved to follow the grammar.
  It also removes comments and gives binders fresh type variables.
- `src/syntax.rs` defines the syntax trees and their mathematical views;
  `src/id.rs` hands out fresh names and type variables.
- `src/k_normal.rs` converts syntax trees into K-normal form, where every
  intermediate value is named, and computes free variables.
- `app/` reads the value of float literals, which the library keeps as text.
- `tests/` runs the library on concrete programs.
