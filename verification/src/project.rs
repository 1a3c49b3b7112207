//! The `.chikn` project format and the operations on a loaded project.
pub mod format;
pub mod doc_paths;
pub mod reader;
pub mod fidelity;
pub mod deletion;
pub mod safe_path;
pub mod writer;
pub mod metadata;
pub mod targets;
pub mod walk;
