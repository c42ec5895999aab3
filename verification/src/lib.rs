//! Metrics acquisition and session state for a terminal resource dashboard.
//!
//! The crate turns the loosely structured text that operating-system tools
//! print (block-device counters, listening sockets) into typed readings,
//! converts cumulative counters into per-interval rates, and keeps the
//! state of an interactive session: the port list, the selection and the
//! confirmation dialog that guards process termination.

pub mod app;
pub mod counters;
pub mod disk;
pub mod format;
pub mod ports;
pub mod system;
pub mod text;
