//! Image lookup for a small asset service.
//!
//! At start-up the service scans a directory of categorised images and builds an
//! [`utils::indexed_images::AssetIndex`] from what it saw. Afterwards every request
//! names a category and is answered with the address of one of its images, drawn at
//! random. The functions here hold the rules of both steps; reading the file system
//! and serving HTTP are left to the program around them.

pub mod downloader;
pub mod logger;
pub mod routes;
pub mod utils;
