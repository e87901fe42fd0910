//! What the Bluetooth transport decides: which device to take, how to label
//! and account for what goes over the air, and when a job has stalled. The
//! radio itself is the caller's.

pub mod choice;
pub mod labels;
pub mod link;
pub mod log;
pub mod pump;
pub mod stall;
pub mod target;
