//! A disk cleaner: what is scanned, what can be cleaned, how it is deleted, and how
//! cold files are archived. Everything that touches the file system, the network or
//! the terminal is left to the caller, who hands in what was found and is told what
//! to do.

pub mod archive;
pub mod archive_run;
pub mod clean;
pub mod cleanup;
pub mod config;
pub mod delete;
pub mod delete_laws;
pub mod docker;
pub mod order;
pub mod outside;
pub mod path;
pub mod remote;
pub mod report;
pub mod scan;
pub mod scan_laws;
pub mod select;
pub mod table;
pub mod target;
pub mod text;
pub mod time;
