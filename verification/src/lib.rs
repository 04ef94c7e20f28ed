//! Decisions of a small GitHub webhook bridge that resumes a Codex session
//! when CI fails on a linked pull request or CodeRabbit leaves inline comments.

pub mod delivery;
pub mod json;
pub mod link;
pub mod paths;
pub mod relay;
pub mod signature;
pub mod state;
pub mod text;
