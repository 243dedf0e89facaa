//! A small build tool for SQL projects: it discovers a project's
//! configuration file by walking up the directory tree, reads and writes the
//! configuration in its TOML-style file format, and resolves template input
//! files to the output paths where their compiled SQL belongs.
//!
//! Rendering itself, the command line, and all file I/O live outside this
//! library; every function here is pure and carries a verified contract.

pub mod cli;
pub mod config;
pub mod errors;
pub mod init;
pub mod paths;
pub mod search;
pub mod strutil;
pub mod template;
