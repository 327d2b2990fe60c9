# nixdrv

A verified parser for the textual format of Nix derivations (`.drv` files),
written in Verus.

Parsing goes in two steps. The bytes are read as a tree of atoms (identifiers,
string literals, tuples, lists, and atoms written one after the other), and
the tree is then read as a `Derive` record with its seven fields.

- `src/grammar.rs` states the syntax as spec functions from bytes and an
  offset to an outcome (a value and the next offset, an error, or
  "incomplete" when the input ends before the parser can decide).
- `src/parser.rs` holds the parsers, each proved to compute its spec function.
- `src/laws.rs` proves properties of the syntax for all inputs: every atom
  reads at least one byte, a decided outcome does not change when bytes are
  appended, and parsing at an offset is parsing the rest of the input.
- `src/de.rs` holds the cursor that reads values out of atoms, and
  `src/derivation.rs` the derivation record and how it is read.
- `app/` holds a `serde::Deserializer` over atoms, serde-enabled copies of the
  records, and a function that reads a derivation file and prints it.
