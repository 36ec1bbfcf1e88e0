//! A checkpoint-publishing store over an object-storage backend.
//!
//! Signed checkpoints, agent metadata, announcements and reorg signals are
//! kept as single objects in a bucket, namespaced by an optional folder.
//! This crate holds the verified core: key naming, index encoding, error
//! classification, the monotonic latest-index rule, and an in-memory
//! backend that realizes the store semantics end to end.

pub mod codec;
pub mod errors;
pub mod keys;
pub mod laws;
pub mod store;
pub mod sync;

pub use errors::{Classification, StoreError, TransportFault};
pub use errors::classify_fault;
pub use keys::StoreIdentity;
pub use store::{Checkpoint, MemStorageClient};
pub use sync::{interpret_get, interpret_latest_index, should_write_latest};
