//! The byte cursor contract shared by every encoder and decoder.

pub mod endian;
pub mod format;
pub mod reader;
pub mod writer;

pub use reader::Reader;
pub use reader::ReaderError;
pub use writer::Writer;
