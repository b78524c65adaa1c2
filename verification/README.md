# SSE plugin for Pact

A Pact plugin for creating, matching and generating Server-Sent Events payloads, with its logic
verified by Verus.

- `src/` is the library. `parser` reads field definitions such as `data[count]`, `definition` reads
  matching rule definitions such as `matching(number, 100)`, `rules` and `generators` hold what
  fields are held to and drawn with, `regex` and `formats` tell which expressions and formats
  they can bear, `sse_content` reads, writes, sets up, compares and generates
  event streams, `plugin` answers the requests of the host and `logging` decides what is forwarded to
  it. The modules whose names end in `_laws` state what holds of the functions together.
- `app/` is the gRPC server around the library. Where a rule or a generator could give up with a
  panic, the library asks for its outcome, and the server tries it.
- `tests/` runs the library with the crates that it calls.

## Field definitions

- `event` and `retry` are the event type and the reconnection time.
- `data[type]` or `data.type.*`, and `id[type]` or `id.type.*`, are fields of the events of a type.
- `data[*]` or `data.*`, and `id[*]` or `id.*`, are fields of the events without a type.

Each is given a matching rule definition. Every field but `event` and `retry` gives one event of the
stream, and every field is held to its rule when streams are compared.
