//! Discovery and normalization of locally stored conversation logs written by
//! several independent AI coding-assistant command-line tools.
//!
//! Five provider adapters each know one tool's directory layout, file naming
//! and JSON shape, and expose the same two operations: a cheap scan that turns
//! walked file lists into session records, and a loader that turns raw file
//! contents into one uniform message timeline. A registry concatenates scans
//! and dispatches loads by provider tag.
//!
//! The crate itself never touches the filesystem: callers walk directories and
//! read files, and hand paths, metadata and file contents in as plain values.

pub mod model;
pub mod strutil;
pub mod json;
pub mod content;
pub mod timestamp;

pub mod scribe;
pub mod codex;
pub mod gemini;
pub mod openclaw;
pub mod opencode;

pub mod registry;
