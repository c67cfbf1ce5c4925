//! Response-time analysis for real-time systems on a discrete time base.
//!
//! The crate offers arrival bounds, job cost models, request-bound
//! functions and supply-bound functions, together with the fixed-point
//! searches that combine them into response-time bounds.

pub mod analysis;
pub mod arrival;
pub mod demand;
pub mod edf;
pub mod fifo;
pub mod fixed_point;
pub mod fixed_priority;
pub mod merge;
pub mod ros2;
pub mod supply;
pub mod time;
pub mod wcet;
