//! File-locker core: sandboxed path resolution, entry classification and
//! ordering, the selection/clipboard state machine, fail-fast batch runs,
//! the shared-secret gate and the coalescing refresh coordinator.
pub mod access;
pub mod batch;
pub mod error;
pub mod refresh;
pub mod sandbox;
pub mod selection;
pub mod unit;
