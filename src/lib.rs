//! A persistent clipboard history: named containers of text values, each
//! reachable by recency position or by a user-chosen alias.
pub mod cli;
pub mod clipboard;
pub mod clipd_fs;
pub mod container;
pub mod util;
