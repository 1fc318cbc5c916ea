//! A file transfer service: a framed protocol for writing files in chunks, the plain
//! upload/removal connection with its header, and the values of its web service.
pub mod channel;
pub mod file_info;
pub mod file_manager;
pub mod laws;
pub mod model;
pub mod parser;
pub mod protocol;
pub mod stream;
pub mod text;
pub mod transfer;
pub mod web;
pub mod wire;

pub use file_info::FileInfo;
