# mesh

Mesh Protocol 1.0 for delay-tolerant, device-to-device messaging, written in
Verus: the library's public functions carry contracts, and Verus proves
the code against them, together with the laws stated as public lemmas
(round trips, trailing-byte refusal, what a skip consumes, tombstones).

Layout of `src/`:

- `types`, `error` — identifiers, bundle types and priorities, wire errors.
- `cbor`, `fields` — the canonical CBOR subset: a writer that always emits
  the shortest form, a bounded reader, and field maps keyed by small
  integers, with proofs that what is written reads back.
- `bundle`, `control`, `direct_message`, `sealed`, `frame` — the wire
  formats, each with a decoding spec and a round-trip lemma.
- `routing` — the controlled-epidemic routing rule and transfer ranks.
- `crypto` — identities, sealed direct messages, session key agreement and
  per-frame encryption, over named results of the primitive crates.
- `store` — bundle storage in SQLite; tombstones block reinsertion.
- `assoc`, `mesh_core` — the event/action core and its transfer planning.
- `session` — the link handshake state machine and chunk reassembly.
- `bindings` — the records and conversions of the native boundary.

`app/` holds the UniFFI engine around the library; `tests/` exercises the
library on concrete values.
