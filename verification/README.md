# cells_server

The verified core of a small multiplayer tile-mining world server, and the
Tokio program around it.

`src/` (verified with Verus):

- `tile`, `zone`, `world`: tile positions and types, world ids (with their
  `name:instance` text) and transfer errors.
- `grid`: the one-to-one coding of `i32` coordinate pairs as `u64` keys.
- `framing`: the length header of the wire protocol (little-endian, at most
  1 MiB), with the round-trip laws.
- `tiles`: the mining layer of an instance (registered tiles, mined tiles and
  their respawn ticks).
- `spatial`: the spatial grid of player ids over integer cells.
- `player`, `instance`: players and world instances; admission up to
  capacity, departure, movement, mining and the server tick.
- `gateway`, `transfer`: the registry of instances and the routing of
  transfers.
- `session`: per-connection handling of client requests (input rate limit).

`app/` (ordinary Rust): `main`, sockets, locks and channels, the serde and
bincode wire types, and everything computed with floats (movement, the
position-to-cell mapping, mining progress).
