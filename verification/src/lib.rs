//! Encoding and decoding of Unix `ar` archives in the Common, BSD and GNU
//! dialects, as a verified codec on bytes.

pub mod archive;
pub mod bytes;
pub mod codec;
pub mod error;
pub mod header;
pub mod laws;
pub mod name;
pub mod numeric;
pub mod reader;
pub mod symbols;
pub mod writer;

pub use archive::{read_archive, Archive, Entry};
pub use error::ArError;
pub use header::{Header, HeaderView, Variant};
pub use reader::{Demand, Phase, Reader, Step};
pub use symbols::{ByteOrder, Symbol};
pub use writer::{Builder, GnuBuilder};
