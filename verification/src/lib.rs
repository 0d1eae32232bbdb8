//! A cooperative, tick-driven multitasking core: a registry of suspendable
//! computations that a host frame loop advances exactly once per frame.
//!
//! Application logic is written as straight-line resumable computations that
//! suspend across frame boundaries (yield one frame, or wait a wall-clock
//! duration) and resume later, all on a single thread, without OS threads.

pub mod experimental;
