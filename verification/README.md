# zkm_pcs

Verified building blocks of a shard-level polynomial commitment scheme over the
KoalaBear field and its quartic extension.

- `src/` is the library, written in Verus. `felt`, `ext`, `ring`, `mle` and `multilinear`
  hold the algebra; `transcript`, `merkle` and `dft` reach the outside crates; `whir`
  holds the provers and verifiers of multilinear openings; `jagged` the layout of columns
  in one long polynomial; `shard` the lookup and constraint arguments of a shard proof;
  `septic` the curve that lookups between shards are summed on, over a field whose norm and
  inverses are proved, as is that the order of the base field is `prime` and that the
  `quartic` extension is a field; `air` and `machine` the chips, keys and verification of a
  whole machine.
- `tests/` runs the library with the outside crates linked.
- `app/` is ordinary Rust around it: wire formats, error traits, timing, process-wide
  numbers, and parallel verification.

Contracts are stated over views: field elements as integers below the field's order,
extension elements as `E4`, transcripts as `Sponge`, proofs as their contents. What the
outside crates compute is named (`duplex_observe`, `merkle_root`, ...) and not restated.
