//! A store of shell commands under paths, a fuzzy search over them, and the
//! state of the picker that shows, adds, edits and deletes them.

pub mod cli;
pub mod command;
pub mod config;
pub mod error;
pub mod keys;
pub mod layout;
pub mod lookup;
pub mod path;
pub mod picker;
pub mod picker_laws;
pub mod rank;
pub mod store;
pub mod store_laws;
pub mod text;
pub mod transfer;
pub mod tree;
