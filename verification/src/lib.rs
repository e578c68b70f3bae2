//! Core of a sampling profiler: address-to-line resolution over decoded
//! debug data, and the bookkeeping that tracks a profiled task's threads
//! and loaded modules over time.

pub mod addr2line;
pub mod line_search;
pub mod profile;
pub mod task_profiler;
pub mod text;
