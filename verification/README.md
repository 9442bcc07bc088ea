# kona_altda

Alternative data availability (alt-DA) for a rollup derivation pipeline, written in
Verus.

- `src/` is the verified library: commitments and their encodings (`commitment`), the
  challenge contract's events and resolving calldata (`events`), the challenge state and
  its expiry rules (`state`), the input fetcher's decisions (`provider`), the data source's
  decisions (`source`, `calldata`), the DA server client's URLs and replies (`da_client`),
  the oracle keys of the fault-proof client (`oracle`), and byte helpers (`primitives`).
  Hashing and hex encoding come from `alloy-primitives` behind trusted wrappers in
  `primitives`.
- `app/` is ordinary asynchronous Rust: HTTP access to the DA server, the L1 chain
  interface, and the loops that run the library's decisions around network calls.
- `tests/` exercises the library on concrete values.
