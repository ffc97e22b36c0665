# lanquetta

The core of a graphical gRPC client, written in Verus: the state of its window
and tabs, the decisions taken while connecting, sending and receiving, and the
decoding of protobuf messages into JSON, each with a contract that Verus proves.

## Layout

- `src/` — the verified library.
  - Protobuf decoding: `wire` (reads of the wire format, through prost),
    `decode_buf` (a buffer with a stack of read limits), `ty` (the type map),
    `descriptor` (building the type map from descriptor files), `decode`
    (messages, lists, maps and enums to JSON), `decode_laws` (a message
    read in two parts is the parts merged), `well_known` (timestamps,
    durations, structs, wrappers and the other well-known messages), `json`,
    `format`, `file_set` (services and methods of a descriptor set), `pool`
    (descriptor sets loaded with prost-reflect, as the window loads them).
  - The window: `body` (the tabs and the selection), `tab`, `request`,
    `method_kind`, `uri`, `address`, `channel`, `connection`, `sidebar`,
    `app_state` (what each command does), `config` (the saved form of the
    window and its restoration), `stream` (the request history of a tab),
    `stream_item` (what an entry of the history shows),
    `metadata`, `auth` (the authorization hook), `compile` (include paths),
    `reflection` (server reflection replies), `address_bar`, `tabs_data`
    (how the tab strip follows the tabs).
  - Connections and calls: `client`, `session`, `grpc`, `error`.
- `tests/` — tests run against the compiled library with the real outside
  crates.
- `app/` — a command-line program around the library: it reads a descriptor
  set and a message from files and prints the message as JSON.
