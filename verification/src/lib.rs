//! Verified parsing and bookkeeping for a Linux performance monitor: the
//! kernel's disk, network and GPU counter files, and the help screen text.

pub mod disk;
pub mod gpu;
pub mod help;
pub mod net;
pub mod rank;
pub mod table;
pub mod text;
