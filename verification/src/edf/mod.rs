//! Response-time analyses for earliest-deadline-first scheduling.

pub mod busy_window;
pub mod fully_nonpreemptive;
pub mod fully_preemptive;
pub mod limited_preemptive;
