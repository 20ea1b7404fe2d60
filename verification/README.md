# Garbled circuits with verified cut-and-choose

A library for garbling boolean circuits, evaluating them, and agreeing on a garbled
circuit by cut-and-choose. Its behaviour is stated in contracts and proved with Verus.

- `src/s.rs`, `src/gate.rs`, `src/hashers.rs`, `src/halfgates.rs`: labels, gates, hashes
  of labels, and half-gates garbling with Free-XOR.
- `src/storage.rs`, `src/component.rs`, `src/streaming.rs`, `src/gate_component.rs`,
  `src/modes/`: circuits that are run as a stream, with storage that is freed at the last
  read of a wire.
- `src/anchoring/`: garbling whose labels can be derived again from a seed and the
  wiring, with its costs and the verdicts on published leaves.
- `src/cut_and_choose/`, `src/soldering_data.rs`, `src/soldering_format.rs`: commitments,
  opening, checking and evaluation of instances, and the soldering of their inputs.
- `src/vsss/`: labels of bytes as shares of polynomials, commitments to them, tables from
  bytes to bits, and the recovery of all inputs from those of one instance.
- `src/primitives.rs` and the wrappers beside their callers: what is taken from outside
  crates, with what is believed of it.
- `tests/`: tests of the library. `app/`: files, threads, random draws and messages.
