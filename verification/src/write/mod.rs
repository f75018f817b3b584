//! Writing containers.

pub mod acquire;
pub mod aff4_source;
pub mod attested;
pub mod bevy;
pub mod container_writer;
pub mod dedupe;
pub mod device;
pub mod guard;
pub mod logical;
pub mod map_writer;
pub mod pictured;
pub mod round_trip;
pub mod scan;
pub mod segment_compression;
pub mod stream_writer;
