//! A verified mod-management library: a durable registry of content
//! packages ("mods"), a tracker of which mod owns which destination file,
//! and the decision logic for adding, activating, deactivating and
//! deleting mods, built on an embedded ordered key-value store.
pub mod archive;
pub mod codec;
pub mod config;
pub mod errors;
pub mod filetree;
pub mod injection;
pub mod laws;
pub mod manager;
pub mod registry;
pub mod store;
pub mod version;
