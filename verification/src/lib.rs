//! A small ownership registry.
//!
//! The registry mints uniquely identified records ("entities") and transfers
//! their ownership.  It keeps two synchronized views of the same data: a
//! canonical lookup by identifier and a secondary index grouping entities by
//! their current owner.  The registry orchestrates the create and transfer
//! operations and is the only place that mutates the two structures; its
//! invariant states that they never diverge.
//!
//! How operations reach the registry — authentication of the caller,
//! persistence, and delivery of the emitted notifications — is the host's
//! concern.  The registry trusts the caller identity it is handed and records
//! every notification in an event journal for the host to drain.

pub mod allocator;
pub mod entity;
pub mod error;
pub mod event;
pub mod gender;
pub mod owner_index;
pub mod registry;
pub mod store;

pub use allocator::IdAllocator;
pub use entity::Entity;
pub use entity::EntityView;
pub use entity::Identity;
pub use error::Error;
pub use event::Event;
pub use gender::derive_gender;
pub use gender::Gender;
pub use registry::Registry;
