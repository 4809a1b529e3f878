//! Hosts resolution and installation engine for a system-wide adblocker.
//!
//! The engine turns a set of remotely sourced block-lists plus user
//! allow/redirect overrides into a single effective entry set, renders it
//! in the operating system's hosts-file format, and plans an atomic,
//! reversible installation of that file.

pub mod digest;
pub mod engine;
pub mod fetch;
pub mod host;
pub mod install;
pub mod merge;
pub mod overrides;
pub mod parse;
pub mod render;
pub mod scan;
pub mod timefmt;
