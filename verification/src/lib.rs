//! A verified model of an image journal: uploaded images are classified,
//! stored as browsable entries, soft-deleted with a bounded restore window,
//! optionally shared by token, and garbage-collected once the window elapses.

pub mod classifier;
pub mod entry;
pub mod images;
pub mod journal;
pub mod store;
