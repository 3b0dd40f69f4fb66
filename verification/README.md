# pjson_rs — verified infrastructure of Priority JSON Streaming

The HTTP, WebSocket and storage infrastructure of PJS, with its decisions
written in Verus and proved against their contracts.

- `src/` — the verified library: request validation and error mapping
  (`http_api`, `errors`), CORS policy (`cors`), API-key authentication (`auth`),
  client addressing and connection limits (`net`, `middleware`), the route plan
  (`routes`), streaming wire formats and the priority reorder buffer
  (`streaming`, `priority`), the framework-neutral adapter layer (`framework`,
  `adapter`, `json`), the WebSocket protocol, server decisions and client
  bookkeeping and stream sessions (`ws_protocol`, `ws_server`, `ws_client`,
  `ws_sessions`), the dictionary store
  (`dictionary`), the schema repository (`schema_repo`), the object pool
  (`pool`), arenas (`arena`), and text and map helpers (`text`, `string_map`,
  `keyed`, `ids`).
- `tests/` — tests of the library on concrete values.
- `app/` — runtime glue: axum layers and services, serde forms of the wire
  types, the Prometheus endpoint, the accept loop, the WebSocket loops, and
  content negotiation with `q` weights.
