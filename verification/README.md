# mcserver

A small server for the Minecraft status protocol (handshake, status request,
ping), with its protocol logic verified by Verus.

- `src/` is the verified library: the read buffer (`buffer`), the wire data
  types and their round-trip laws (`data_types`), two packet representations
  (`packets`, `packet`), framing and handshake reading (`protocol`), the
  per-connection decisions (`connection`, `net`), the messages between
  connections and the server core (`messages`) and the core's connection
  table (`server`).
- `app/` is the program around it: sockets, tasks and channels (tokio), the
  server description read from `server_info.toml` (toml, serde, serde_json),
  logging and configuration.
- `tests/` exercises the library on concrete values.
