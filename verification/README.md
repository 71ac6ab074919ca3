# stimcircuit

Reading, building, unrolling and printing quantum circuits written in the `.stim`
text format, verified with Verus.

## Layout

- `src/gate.rs`: a table of gates (names, alternative spellings, argument and target
  kinds, inverses and flags), Pauli operators, and the laws on names and positions.
- `src/circuit.rs`: targets, arguments, instructions and circuits, their mathematical
  views, `REPEAT` unrolling with its laws, and the `.stim` text of every value.
- `src/stim_parser.rs`: the reader. Its module documentation gives the grammar; the
  specification `spec_parse` says what a text reads as (a circuit, an error on a given
  line, or a number too large for `usize`), and `parse_bytes` / `parse_string` are
  proved to compute it.
- `src/roundtrip.rs`: the proof that the text a circuit prints reads back as the same
  circuit, for every circuit whose arguments and targets suit their gates, and so for
  every circuit that reading gives.
- `src/text.rs`: decimal numerals, line splitting and indentation.
- `app/`: reading a circuit from a file, error display, and floating-point values of
  argument literals.

Arguments that are probabilities or coordinates keep the decimal literal as it was
written; `app/` turns a literal into an `f64` where a number is needed.
