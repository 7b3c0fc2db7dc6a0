# rapid_net

A TLV-over-socket client/server networking library whose decisions are
verified with Verus.

- `src/` — the verified library:
  - `config.rs` — server and client configuration;
  - `frame.rs` — the length-prefixed framing of the incoming byte stream,
    with the proof that fragmentation of the stream never changes the frames
    delivered;
  - `writer.rs` — batching and chunking of outgoing writes, with the proof
    that bytes go out in the order messages were handed over, nothing lost,
    no write longer than 64 KiB;
  - `chunks.rs` — cutting a sequence into consecutive bounded pieces;
  - `message.rs` — connection and server events, and how a server forwards
    what a connection reports;
  - `server.rs` — recipients and outcomes of sends and broadcasts;
  - `backoff.rs` — the reconnect delay.
- `app/` — the sockets, tasks, channels and timers (tokio), the client map
  (dashmap), the TLV codec calls and the serde/thiserror derives, driving the
  verified functions above.
- `tests/` — tests of the library.
