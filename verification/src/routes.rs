//! What the service answers to each request.

pub mod catchers;
pub mod find;
pub mod index;
