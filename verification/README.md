# codex_web_client

The browser-side core of the Litter web client for the Codex app server, and
the per-thread mode store of the mobile client, written in Verus.

- `src/` is the verified library. `web` is the client's state machine: each
  event from the page or the connection gives the next state and the effects
  the page carries out, and `dispatch` is proved to follow the `step`
  function exactly. `protocol` reads the app server's JSON-RPC documents,
  `config` checks server URLs and Alleycat pair payloads, `websocket` and
  `alleycat` build and read the bytes of WebSocket frames, of the opening
  handshake and of the Alleycat connect exchange, and `thread_modes` decides
  what the mode store file holds. The laws of the library (request ids,
  pending requests, one transport at a time, frame round trips, what a read
  of the mode store gives back after a write) are public proof functions
  beside the code they speak of.
- `app/` is ordinary Rust around it: the serde forms the page reads and
  writes, the mode store's file, and the wasm entry points that drive the
  Alleycat transport over iroh.
- `tests/` runs the library on concrete values.
