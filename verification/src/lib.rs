//! Candidate items for a launcher: recently used workspaces and project
//! directories, filtered by a search string.

pub mod filter;
pub mod history;
pub mod item;
pub mod json;
pub mod listing;
pub mod response;
pub mod roots;
pub mod text;
