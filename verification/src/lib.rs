//! The decisions of an I/O backend for Unix files: which system call comes next, what its answer
//! means, and which request is completed with what.
//!
//! The library makes no system call. Its operations say what is to be done next, as values, and
//! are given the answers.

pub mod error;
pub mod file;
pub mod iovec;
pub mod shared_wal;
pub mod step_laws;
pub mod sync_laws;
pub mod sync_queue;
pub mod text;
pub mod unix_io;
pub mod write;
pub mod write_laws;
