# subxt_events

Decodes the SCALE encoded events of a Substrate block, in Verus.

- `src/events.rs`: event records and the decoder of a block's events.
- `src/segmenter.rs`: the table of known types, and cutting out the argument bytes of an event.
- `src/segment.rs`: types whose values can be cut out, and the types that a runtime names.
- `src/metadata.rs`, `src/error.rs`: what a chain tells of its modules; errors.
- `src/bytes.rs`, `src/codec.rs`, `src/text.rs`: numbers, the codec's functions and texts. The
  functions of `parity_scale_codec`, `sp_runtime`, `frame_support`, `hex` and of std's formatting
  are called through the small functions in the last two files, whose contracts are trusted.
- `src/run.rs`, `src/missing.rs`: what decoding and checking come to, as mathematical functions.
- `src/laws.rs`, `src/value_laws.rs`, `src/registry_laws.rs`, `src/event_laws.rs`: what holds of all
  of it.
- `app/`: the same decoder for any type that implements the codec's traits, with logging and
  standard debugging output.
