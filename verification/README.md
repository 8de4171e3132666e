# biorite

The rules of a multiplayer voxel game, written in Verus and proved against
their contracts.

- `src/` is the verified library: block kinds and textures, chunk and region
  coordinates, the world save, block edits on the server and their echo on
  the clients, chunk requests and unloading, the network messages and their
  framing, the hotbar, and the login challenge.
- `tests/` exercises the library on concrete values.
- `app/` is the plain Rust around it: `serde` copies of the messages and
  chunks, region files, terrain noise, meshing with `block-mesh`, `renet`
  sockets and the input and output of the login endpoints.
