# merde

A serialization library built around a stream of events (`Event`): a
deserializer produces events from a document, a serializer turns events into a
document, and `Value` holds any document in memory. Formats: JSON (reading and
writing) and MessagePack (reading).

The library in `src/` is written in Verus and verified: each public function
has a contract over a mathematical model of its types, and the laws that tie
functions together are public proof functions, among them:

- `value::law_events_rebuild_value`: feeding a value's events to a
  `ValueBuilder` gives back the value.
- `json::roundtrip::law_written_value_reads_back`: what the JSON serializer
  writes for a value reads back, event by event, through the JSON
  deserializer.
- `json::serializer::law_written_string_reads_back` and
  `json::roundtrip::law_written_integer_reads_back`: strings and integers read
  back as written.
- `msgpack::law_put_back_then_next` and `json::deserializer::law_put_back_then_next`:
  an event put back is the next one read.

Layout of `src/`:

- `cowstr`, `cowbytes`: borrowed-or-owned strings and bytes.
- `event`, `error`, `message`: events, errors, and error messages.
- `value`, `builder`: values, and building a value from events.
- `scalars`, `deserialize`, `lifetimes`, `time`, `metastack`: reading scalars
  from events, field slots and deserialization opinions, lifetime helpers,
  date-time wrapper, stack bookkeeping.
- `msgpack`: the MessagePack deserializer.
- `json`: the JSON tokenizer (`parse`, `number`, `string`, `jiter`), the
  deserializers, the serializer, and the round-trip laws.

`app/` holds what the verified library does not: reading and writing through
`std::io` and `tokio`, floating-point parsing and formatting, the stack probe
and futures of the metastack, and serde support.
