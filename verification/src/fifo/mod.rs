//! Response-time analysis for FIFO scheduling.

pub mod rta;

pub use rta::dedicated_uniproc_rta;
