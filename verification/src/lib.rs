//! A photo collection kept in ordinary directories: nested directories are
//! listed as albums of decodable images, and single images are resized on
//! demand.
//!
//! The library never touches the file system itself. Whatever has to be read
//! is either handed in as plain values or asked for, one request at a time, by
//! the walker and the album builder.

pub mod error;
pub mod explorer;
pub mod filter;
pub mod listing;
pub mod media;
pub mod path;
pub mod resolver;
pub mod tree;
pub mod walked;
pub mod walker;
