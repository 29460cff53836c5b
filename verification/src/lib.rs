//! Account rotation and stream resolution for an episodic video catalog.

pub mod catalog;
pub mod download;
pub mod generate;
pub mod identity;
pub mod mailbox;
pub mod options;
pub mod random;
pub mod resolve;
pub mod store;
pub mod text;
