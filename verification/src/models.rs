//! Plain data models shared with the store.

pub mod agent;
pub mod rules;
