//! The pages that list torrents: what they ask for, and what they show.
pub mod types;
pub mod filter;
pub mod torrents;
pub mod error;
pub mod page;
pub mod query;
pub mod selected;
pub mod components;
pub mod action;
