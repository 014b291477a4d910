//! Encoding and decoding of processor traces in the CTXP trace exchange
//! format, in its two wire representations: a line-oriented text format and
//! a packed binary format of fixed-size records.

pub mod error;
pub mod event;
pub mod bytes;
pub mod utf8;
pub mod text_num;
pub mod text_meta;
pub mod text_event;
pub mod text_stream;
pub mod codec;
pub mod decoding;
pub mod binary_format;
pub mod roundtrip;

pub use error::{Error, IoError, IoErrorKind, Result};
pub use event::{
    Source, Event, EventKind, AccessWidth, InfoKind, CounterKind, pack_counter, unpack_counter,
};
pub use codec::{
    Format, Encode, BinaryEncoder, TextEncoder, Encoder, SourceHandle, BinaryEncoderTag,
    TextEncoderTag, EncoderTag,
};
pub use decoding::{BinaryDecoder, TextDecoder, Decoder, Demux, Route, format_of_file_name};
