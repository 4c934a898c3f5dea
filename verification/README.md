# kannaka_crystal

Kannaka Crystal is a platform for informational materials and resonant
memory systems: a wave field is driven by pulses, stable structures are
detected in it, and the structures that survive are registered as
primitives that climb an evidence ladder through recorded procedures.

## Layout

- `src/` — the verified library, written in Verus. It holds the discrete
  logic of the platform: the Crystal Registry (identity, lineage,
  duplicate rule, growth caps, search), the evidence ladder, behavioral
  capability contracts and seed bookkeeping, the Crystal Language front
  end, the flood fill that finds regions, request routing, and the text
  and identifier encodings these rely on. Every public function carries a
  `requires`/`ensures` contract, and the laws that span several functions
  are public proof functions (their names start with `lemma_`).
- `tests/` — ordinary Rust tests of the library on concrete values.
- `app/` — the command-line program around the library: the
  floating-point wave simulation, structure classification, capability
  trials, file storage, the HTTP server, the swarm loop over NATS and
  publishing. It hands the library plain values and takes plain values
  back.

Calls into outside crates made by the library (blake3, uuid, chrono, and a
few `std` string functions) go through small trusted wrappers; each one's
doc comment says what its contract claims of the outside function.
