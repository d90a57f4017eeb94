# v_connect_im

An instant-messaging server node: WebSocket clients, rooms and private
messages, per-uid blocking and rate limits, acknowledged delivery with offline
fallback, leader-based replication of message records, and plugins (in-process
hooks, local plugin processes over a Unix socket, remote plugins over HTTP).

Layout:

- `src/` is the library, written and proved with Verus. It holds the server's
  state and the decisions it takes, including the per-step rules of the loops
  that app/ drives: how an inbound message is answered, how a
  group message is planned, which plugin an event goes to, how the event bus
  matches patterns, how remote plugins register and acknowledge events, how a
  replicated write reaches a quorum, how frames are laid out on the plugin
  socket.
- `app/` is the executable around it: configuration and command line, the
  WebSocket and HTTP listeners, plugin processes and sockets, and the outside
  calls (HTTP requests, JSON) whose results it hands to the library.
- `tests/` runs the library on concrete values.
