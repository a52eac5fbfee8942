//! The write-ahead log: record format, writer, reader and torn-write protection.

pub mod align;
pub mod crc32c;
pub mod double_write;
pub mod error;
pub mod le;
pub mod log_laws;
pub mod mmap_reader;
pub mod preamble;
pub mod record;
pub mod record_laws;
pub mod recovery;
pub mod replay;
pub mod replay_laws;
pub mod ring_laws;
pub mod slot_laws;
pub mod writer;
