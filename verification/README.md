# mc_status_probe

A status probe for Minecraft Java servers (Server List Ping).

- `src/` is the library, verified with Verus: VarInt and string encoding
  (`varint`), packet building and Status Response reading (`protocol`), the
  interpretation of a server's status reply (`status`) and the error types
  (`error`). Round-trip laws for VarInts, strings, Status Response packets and
  Handshake fields, and the law that bytes appended after what was read change
  nothing, are stated and proved there as proof functions.
- `app/` holds the async `ping` over TCP (tokio), the serde model of the
  status JSON and the error messages.
- `tests/` exercises the library on concrete values.
