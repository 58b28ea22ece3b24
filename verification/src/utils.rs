//! Data shared by the indexer and the request handlers.

pub mod domain;
pub mod filename;
pub mod index_laws;
pub mod indexed_images;
pub(crate) mod random;
pub mod response;
pub mod scan;
