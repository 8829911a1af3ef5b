//! A configuration service core: a versioned config store with content
//! fingerprints, the watch-list wire codec, long-poll deadline arithmetic, and
//! the listener registry that wakes watchers when a watched key changes.

pub mod key;
pub mod params;
pub mod codec;
pub mod deadline;
pub mod store;
pub mod registry;
pub mod service;
pub mod media;
