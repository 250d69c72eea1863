//! Storage backends.
pub mod faster;
pub mod in_memory;
pub mod rocksdb;
