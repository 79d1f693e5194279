//! Keeps locally installed filter files in step with what their sources
//! publish: descriptors are parsed, the latest published version is resolved,
//! compared against the stored watermark and, when it changed, the matching
//! entries of its archive are handed out for installation.

pub mod archive;
pub mod cli;
pub mod descriptor;
pub mod error;
pub mod github;
pub mod guarantees;
pub mod paths;
pub mod store;
pub mod sync;
pub mod text;
