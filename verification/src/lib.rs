pub mod text;
pub mod search;
pub mod time;
pub mod config;
pub mod git;
pub mod github;
pub mod events;
pub mod sync;
