//! Response-time analyses for the callbacks of ROS 2 single-threaded executors.

pub mod bw;
pub mod ecrts19;
pub mod rr;
pub mod window_aware;
