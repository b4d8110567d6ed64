//! The mozLz4 container: a twelve-byte header, made of a magic tag and the
//! length of the data, in front of one LZ4 block.
//!
//! `header` reads and writes the header. `block` has the `mozlz4` crate code
//! and decode single blocks. `codec` puts the two together into `compress`
//! and `decompress`, and states what holds of them.

pub mod block;
pub mod codec;
pub mod error;
pub mod header;

pub use codec::{compress, decompress};
pub use error::{CodecError, FormatError};
