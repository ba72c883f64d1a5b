# Stargrid

Stargrid is a data availability layer for Cosmos chains: it listens to a node's
WebSocket feed of new blocks and transactions and repeats them to clients, each
of which subscribes to blocks or to the transactions that pass its event filters.

## Layout

- `src/` is the verified library (Verus):
  - `json.rs`: JSON documents and their mathematical values; member lookup and paths.
  - `data.rs`: blocks, transactions, events; reading them from the node's
    JSON-RPC notifications, with the outside computations they need (256-bit
    decimal heights, ISO-8601 times, base64, SHA-256).
  - `msg.rs`: client requests, event and attribute filters, glob patterns
    (`*` and `?` wildcards, a backslash makes the next character literal).
  - `repeater.rs`: per-client subscriptions and the rules for client frames and broadcasts.
  - `listener.rs`: subscription requests to the node, their acknowledgements,
    reconnect delays and the listener's decisions.
  - `publisher.rs`: a publisher that hands events to subscribers in order.
  - `render.rs`: the debug text and the compact JSON text of a document, as
    serde_json writes them.
  - `error.rs`, `text.rs`: errors with their display texts, decimal text.
- `app/` is the server around it: WebSocket I/O with tokio and tungstenite, JSON
  reading and writing with serde, logging.
- `tests/` exercises the library on concrete values.
