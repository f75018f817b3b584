//! Recomputing a container's digests and comparing them with the recorded ones.
//!
//! Nothing here stops at the first failure: a report that hid checks after a
//! mismatch would be worse than no report. A mismatch is a result, not an error.

pub mod accounted;
pub mod attested;
pub mod blocks;
pub mod composed;
pub mod container;
pub mod estimate;
pub mod forecast;
pub mod images;
pub mod maps;
pub mod passes;
pub mod report;
pub mod run;
pub mod sets;
pub mod sound;
pub mod streams;
pub mod stripes;
