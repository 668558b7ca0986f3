//! Hot-path primitives for a high-traffic chat service: a sliding-window
//! activity tracker (spam detection and randomized conversational
//! engagement) and an ordered write-offload queue, plus the small text
//! utilities that sit beside them.

pub mod duration;
pub mod store;
pub mod text;
pub mod tracker;
pub mod writer;
