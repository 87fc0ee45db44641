//! Mail filter that takes the attachments out of a message, packs them into a
//! password-protected archive and offers them behind a download link.
//!
//! This crate is the logic of the filter: the milter protocol, the configuration
//! format, the reading of messages and the files and records that a message leaves
//! behind. Sockets, files and databases are left to the program around it.
pub mod bytes;
pub mod client;
pub mod clock;
pub mod codec;
pub mod db;
pub mod delivery;
pub mod download;
pub mod fields;
pub mod filename;
pub mod init;
pub mod json;
pub mod logging;
pub mod mail;
pub mod mailinfo;
pub mod milter;
pub mod milter_command;
pub mod names;
pub mod page;
pub mod parse;
pub mod store;
pub mod text;
pub mod zipper;
