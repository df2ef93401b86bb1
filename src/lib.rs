//! Lists the entries of a directory tree, newest first.
//!
//! The walk itself (reading directories, ignore files, timestamps) happens
//! outside this library; what is decided here is which entries are kept,
//! in what order they come, and how each is shown.

pub mod path_text;
pub mod entry;
pub mod order;
pub mod config;
pub mod listing;
pub mod render;
pub mod laws;
