# websockit

A websocket hub: it keeps track of open connections, of the subscriptions each
connection holds (with a count per subscription), and forwards binary payloads
between peers and a payload listener.

- `src/` is the library, verified with Verus. It holds the connection table,
  the subscription table and its laws, the error type with its messages, and
  the decisions taken while listening to a connection, while delivering a
  payload to a list of connections, and while reading as a client.
- `app/` is the asynchronous shell (axum, tokio, tokio-tungstenite): it owns
  the sockets, the locks and the payload channel, converts socket messages into
  the library's `IncomingMessage`, and performs what the library decides.
- `tests/` runs the library on concrete values.
