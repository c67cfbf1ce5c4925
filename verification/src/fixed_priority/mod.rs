//! Response-time analyses for fixed-priority scheduling.

pub mod busy_window;
pub mod floating_nonpreemptive;
pub mod fully_preemptive;
pub mod limited_preemptive;
