//! An in-memory user directory: a store that hands out identifiers and keeps
//! its records in creation order, and the request handlers built on it.

pub mod handlers;
pub mod laws;
pub mod store;
pub mod text;
pub mod user;
