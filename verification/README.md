# rustclear

The verified core of a Minecraft dungeon server, written in Verus.

- `src/direction.rs`: the six block faces and quarter-turn rotation.
- `src/block_pos.rs`: block positions, their moves and rotations, and the
  packed 64-bit form in which the protocol sends them (with reading it from a
  `bytes::BytesMut`).
- `src/wire.rs`: big-endian fields, VarInts, strings and packet framing.
- `src/blocks.rs`, `src/world.rs`: block states and the edits a room makes to
  the world.
- `src/room.rs`: dungeon rooms: sorting their grid cells, finding their
  rotation and corner, placing their crushers and loading their blocks.
- `src/packets.rs`: the login success and entity attach packets.

`app/` holds the program around the library: floating-point positions, the
asynchronous packet writers and `main`.
