//! The virtio console.

pub mod device;
pub mod worker;
