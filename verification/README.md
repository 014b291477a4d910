# ctxp

Encoding and decoding of processor traces in the CTXP trace exchange format,
verified with Verus. A trace is a set of declared sources and a stream of
events; it has two wire forms, a line-oriented text format and a binary format
of 26-byte records.

## Layout

- `src/` — the library. Every function is verified against its contract,
  but for three small wrappers of std (`str::from_utf8`, `String::push`,
  `Path::file_name`) whose contracts are trusted:
  - `event.rs`: sources, events, event kinds; packing of counter words.
  - `error.rs`: the error type and the stream faults it reports.
  - `bytes.rs`, `utf8.rs`, `text_num.rs`: little-endian words, UTF-8, decimal
    and hexadecimal numerals.
  - `text_meta.rs`, `text_event.rs`, `text_stream.rs`: the text format's
    header and metadata lines, its event lines, and whole text streams.
  - `binary_format.rs`: the binary header, metadata section and records.
  - `codec.rs`: the encoders (`BinaryEncoder`, `TextEncoder`, `Encoder`), the
    `Encode` trait and per-source handles. Encoders gather their output in
    memory and hand it out on `flush`.
  - `decoding.rs`: the decoders over an input held in memory (which can be
    fed more input as a live stream arrives), file name detection, and the push-based demultiplexer.
  - `roundtrip.rs`: what a decoder reads back of what an encoder wrote.
- `tests/` — tests of the library on concrete values.
- `app/` — the program: files and writers around the library, and an error
  type with `Display` for it.
