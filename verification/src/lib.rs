pub mod error;
pub mod text;
pub mod hierarchy;
pub mod models;
pub mod hierarchy_laws;
pub mod slug;
pub mod paths;
pub mod project;
pub mod scrivener;
pub mod ids;
pub mod revisions;
pub mod compile;
pub mod process;
pub mod snapshots;
pub mod markdown;
pub mod tui;
pub mod editing;
pub mod session;
