//! Project observability: the data model and rules behind STATUS.md.
pub mod commands;
pub mod config;
pub mod context_check;
pub mod frontmatter_law;
pub mod git;
pub mod order;
pub mod registry;
pub mod status_model;
pub mod status_view;
pub mod tally;
pub mod text;
pub mod timestamp;
pub mod workflow;
