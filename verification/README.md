# ws_echo

A WebSocket echo server whose protocol logic is verified with Verus.

- `src/request.rs`: collects the HTTP upgrade request header up to its first
  blank line, within a size limit.
- `src/handshake.rs`: finds the `Sec-WebSocket-Key`, derives the
  `Sec-WebSocket-Accept` value (SHA-1 and base64 through `sha1_smol` and
  `base64`) and writes the upgrade response.
- `src/frame.rs`, `src/big_endian.rs`: the frame header codec.
- `src/payload.rs`: payload masking.
- `src/session.rs`: what the server answers to each frame, including
  messages in fragments.
- `app/main.rs`: sockets, threads and logging.
