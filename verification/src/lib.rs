//! Reading, verifying and writing AFF4 forensic containers.

pub mod arn;
pub mod bytes;
pub mod chunk_reader;
pub mod codec;
pub mod error;
pub mod hash;
pub mod lexicon;
pub mod model;
pub mod naming;
pub mod order;
pub mod rdf;
pub mod rules;
pub mod split_set;
pub mod storage_form;
pub mod stream;
pub mod text;
pub mod verify;
pub mod version;
pub mod volume;
pub mod write;
