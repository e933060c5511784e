//! Verified core of a cgroup resource-control benchmark driver.
//!
//! The crate holds the logic that decides what the benchmark driver does:
//! the job-specification grammar, the store of job contexts and their
//! results, the device-calibration guard, and the argument plans handed to
//! the external resource-control agent.  File and process I/O live outside
//! the library and hand it plain values.

pub mod calibrate;
pub mod format;
pub mod grammar;
pub mod jobspec;
pub mod orchestrate;
pub mod store;
pub mod text;
