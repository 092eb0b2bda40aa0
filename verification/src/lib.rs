//! Core of a binary-data analysis engine: a shared attribute tree filled by
//! scheduled analysis units, with task-state tracking and path queries. The
//! modules hold the engine's data model, its tree of attribute-bearing
//! nodes, the task map behind the scheduler, the task-record codec and the
//! byte-stream helpers; the threads and the I/O that drive them live outside
//! the verified crate.

pub mod attribute;
pub mod codec;
pub mod datetime;
pub mod dummy;
pub mod error;
pub mod mappedvfile;
pub mod memoryvfile;
pub mod node;
pub mod scheduler;
pub mod text;
pub mod tree;
pub mod value;
pub mod vfile;
pub mod zerovfile;
