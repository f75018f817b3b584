//! Logical acquisition: files and folders into a container.

pub mod acquire;
pub mod contents;
pub mod names;
pub mod read_back;
pub mod record;
pub mod stamps;
pub mod stated;
pub mod storage;
pub mod terms;
pub mod tree;
