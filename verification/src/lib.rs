//! Shell and surface-lifecycle core of a Wayland compositor.
//!
//! The compositor toolkit (wire protocol, rendering, input) is an external
//! collaborator: this crate holds the decision logic that sits between its
//! notifications — when a surface may become visible, where a freshly mapped
//! window goes, and how per-surface bookkeeping (cursor image, drag icon,
//! resize handshakes) stays consistent across commits.

pub mod config;
pub mod geometry;
pub mod pipeline;
pub mod placement;
pub mod space;
pub mod surface;
