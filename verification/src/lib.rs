//! A small cooperative task runtime with a timed leaf computation, together
//! with a few self-contained utilities (bit flags, line search, counters).

pub mod bitwise;
pub mod closure;
pub mod executor;
pub mod iter;
pub mod laws;
pub mod mingrep;
pub mod model;
pub mod timer;
