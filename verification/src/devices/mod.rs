//! Device models.

pub mod bus;
pub mod legacy;
pub mod virtio;
