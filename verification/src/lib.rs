//! Parsing, building and relaying HTTP/1.x messages.
//!
//! The readers and relays are state machines that never touch a stream: they
//! say what they want read or written and take what came of it (see
//! [`stream`]). The functions that take a slice of bytes run them over a
//! stream held in memory, which ends where the slice ends.
//!
//! - [`head`], [`header_block`], [`lines`]: the start line, the header block
//!   read pair by pair, and the head as raw lines.
//! - [`chunked`], [`sized`]: a body in chunks and a body of known length,
//!   read into memory.
//! - [`forward`]: the same bodies relayed from one stream to another.
//! - [`body`], [`relay`], [`request`], [`response`]: the messages and their
//!   bodies, with their limits.
//! - [`headers`], [`message`], [`framing`], [`limit`], [`sequence`],
//!   [`text`], [`utils`]: what these share.
//! - [`round_trip`]: a head that is written and read again is the same head.

pub mod body;
pub mod chunked;
pub mod errors;
pub mod forward;
pub mod framing;
pub mod head;
pub mod header_block;
pub mod headers;
pub mod limit;
pub mod lines;
pub mod message;
pub mod relay;
pub mod request;
pub mod response;
pub mod round_trip;
pub mod sequence;
pub mod sized;
pub mod stream;
pub mod text;
pub mod utils;

pub use body::Body;
pub use chunked::read_chunked_stream;
pub use errors::Error;
pub use forward::{relay_chunked_stream, relay_sized_stream};
pub use head::read_head;
pub use header_block::read_headers;
pub use headers::Headers;
pub use relay::Relay;
pub use request::Request;
pub use response::Response;
pub use sequence::has_sequence;
pub use sized::read_sized_stream;
pub use stream::{flush_stream, write_to_stream};
pub use utils::validate_size_constraint;
