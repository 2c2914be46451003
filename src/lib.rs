//! A durable, single-producer / single-consumer on-disk record buffer: the
//! record codec, the file-scoped record reader and the decision logic of the
//! log-scoped buffer reader.
pub mod checksum;
pub mod config;
pub mod endian;
pub mod events;
pub mod reader;
pub mod record;
