# wormhole_transit

Transit for Magic Wormhole, verified with Verus: two sides that share a key find a way to
connect to each other, recognise each other by a handshake, and exchange sealed records.

- `src/` is the library. Every function in it is verified against its contract, but for the
  calls of other crates that are named below. Nothing in it touches the network: handshakes, records and the race between connection attempts are state
  machines that say what to send or read next.
- `app/` drives them over TCP, lists the network interfaces, and reads and writes the hints
  with `serde`.
- `tests/` runs the library with the crates that it calls.

What is believed without proof is marked `#[verifier::external_body]`: the calls of
`hex::encode`, of HKDF with SHA-256 (`hkdf`, `sha2`), of `sodiumoxide`'s secretbox, and of
`rand::random`. The doc comment above each says what is claimed of it.
