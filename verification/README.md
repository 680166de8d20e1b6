# tdh_decoder

A verified decoder of self-describing Windows trace events.

An event record refers to a schema by a key and carries raw payload bytes. The
system describes the schema in a block of bytes, the event information: a header,
a table of properties, which may nest structs, and texts. The library

- reads that block and flattens its property table (`info`, `intype`, `flatten`,
  `nesting`, `extract`),
- keeps the schemas by key and pointer width (`schema`, `cache`),
- lays each payload out as fields with absolute offsets (`scan`, `layout`), and
- ties this together for whole records (`record`, `query`, `decoder`).

`src/` is verified with Verus. `app/` reads raw records and makes the system
calls. `tests/` runs the library on fixed inputs.

Two kinds of event information cannot be decoded: one in which a struct contains
itself, and one whose field offsets pass the range of a `usize`.
`TdhDecoder::can_decode` tells them apart.
