//! Per-frame clear resolution for a render pipeline.
//!
//! Every render destination that will be presented this frame must receive
//! exactly one clear operation before any draw commands run: multiple views
//! that share a destination must not clear it twice, and a destination with
//! no view at all (an idle window surface) must still be cleared once.
//! This crate computes that plan of clear operations and proves the
//! exactly-once guarantee; recording the operations on a GPU command encoder
//! is left to the engine around it.

pub mod assoc;
pub mod config;
pub mod laws;
pub mod model;
pub mod passes;
pub mod resolve;
pub mod touched;
