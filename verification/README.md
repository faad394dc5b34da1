# alter_rsps

The verified core of a small game-server toolkit, written in Verus.

- `src/world.rs` — the world the server starts with and the game-tick timing.
- `src/config.rs` — the server configuration.
- `src/handshake.rs` — the first exchange on a client connection (service
  selection, login greeting, cache revision check) as a state machine.
- `src/pe.rs` — the parts of a 64-bit PE image the patcher reads, with the
  reads that the `object` crate performs.
- `src/patch.rs` — finding sections and strings in a client executable and
  redirecting the code that loads a string.
- `src/pe_writer.rs` — the bookkeeping of `object`'s PE writer, and each of
  its methods that the rebuild calls: the bytes it writes, and the conditions
  that keep it from panicking.
- `src/rebuild.rs` — rebuilding the executable with a `.rsps` section that
  holds the replacement strings (the image it writes, and when it succeeds),
  and the whole patch (`patch_rsps`, and its checked form `try_patch_rsps`).
- `src/patch_laws.rs` — what the patcher promises, proved.
- `src/reloc_laws.rs` — the rebuilt relocation table holds the relocations of
  the input image, proved.
- `src/bytes.rs` — little-endian integers in byte buffers.

`app/` is the server program around the library: the game loop, the Tokio
network thread that drives the handshake over TCP, and the configuration
types with serde's derive.
