//! Experimental building blocks; currently the cooperative multitasking core.

pub mod coroutines;
