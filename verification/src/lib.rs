//! Synchronization of a hierarchical UI scene graph with a GPU-resident
//! instance buffer.
//!
//! A scene snapshot (entities with drawable state and parent links) is walked
//! depth first, one packed instance record is produced per visited drawable
//! node, the records are serialized to the byte layout the rendering pipeline
//! consumes, and the resulting device buffer is tracked and published under a
//! well-known resource name.  Scalar channels (positions, sizes, colors,
//! depth) are carried as 32-bit IEEE-754 bit patterns: the logic here orders,
//! packs and routes them, it never does arithmetic on them.

pub mod assoc;
pub mod device;
pub mod encode;
pub mod laws;
pub mod provider;
pub mod registry;
pub mod scene;
pub mod walk;
pub mod wire;
