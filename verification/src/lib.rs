//! Verified core of a system monitor: navigation and drawer state, graph axis
//! scaling, the sliding window of graph samples, and the bookkeeping that turns
//! raw platform samples into per-process figures.

pub mod nav;
pub mod ui;
pub mod graph;
pub mod history;
pub mod network;
pub mod gpu;
pub mod engines;
pub mod fdinfo;
pub mod processes;
pub mod sampling;
pub mod platform;
pub mod size;
