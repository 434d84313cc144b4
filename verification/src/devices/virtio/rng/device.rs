//! The entropy source as the transport sees it.

use vstd::prelude::*;

use crate::devices::virtio::device::{
    ActivateError, DeviceModel, QueueConfig, ShmRegion, VirtioDevice,
    TYPE_RNG,
};
use crate::devices::virtio::queue::Queue;

verus! {

/// Size of each queue.
pub const QUEUE_SIZE: u16 = 256;

/// The one queue that entropy is asked for in.
pub const NUM_QUEUES: usize = 1;

/// The features that the device offers: it complies with version 1.
pub const RNG_FEATURES: u64 = 0x1_0000_0000;

/// An entropy source.
#[derive(Debug)]
pub struct Rng {
    pub avail_features: u64,
    pub acked_features: u64,
    /// The queue, once the driver has set it up.
    pub queues: Option<Vec<Queue>>,
}

impl Rng {
    pub fn new() -> (r: Self)
        ensures
            r.model() == (DeviceModel {
                device_type: TYPE_RNG,
                name: "virtio_rng"@,
                queue_config: seq![QueueConfig { size: QUEUE_SIZE }],
                avail_features: RNG_FEATURES,
                acked_features: 0,
                config: Seq::empty(),
                emergency: None,
                queues: None,
                resettable: true,
                shm_region: None,
            }),
    {
        Rng { avail_features: RNG_FEATURES, acked_features: 0, queues: None }
    }
}

impl VirtioDevice for Rng {
    open spec fn model(&self) -> DeviceModel {
        DeviceModel {
            device_type: TYPE_RNG,
            name: "virtio_rng"@,
            queue_config: seq![QueueConfig { size: QUEUE_SIZE }],
            avail_features: self.avail_features,
            acked_features: self.acked_features,
            config: Seq::empty(),
            emergency: None,
            queues: match self.queues {
                Some(queues) => Some(queues@),
                None => None,
            },
            resettable: true,
            shm_region: None,
        }
    }

    fn device_type(&self) -> (r: u32) {
        TYPE_RNG
    }

    fn device_name(&self) -> (r: &'static str) {
        "virtio_rng"
    }

    fn queue_config(&self) -> (r: Vec<QueueConfig>) {
        vec![QueueConfig::new(QUEUE_SIZE)]
    }

    fn avail_features(&self) -> (r: u64) {
        self.avail_features
    }

    fn acked_features(&self) -> (r: u64) {
        self.acked_features
    }

    fn set_acked_features(&mut self, acked_features: u64) {
        self.acked_features = acked_features;
    }

    fn read_config(&self, offset: u64, data: &mut [u8]) {
    }

    fn write_config(&mut self, offset: u64, data: &[u8]) -> (r: Option<u8>) {
        None
    }

    fn is_activated(&self) -> (r: bool) {
        self.queues.is_some()
    }

    fn activate(&mut self, queues: Vec<Queue>) -> (r: Result<(), ActivateError>) {
        if queues.len() != NUM_QUEUES {
            return Err(ActivateError::BadActivate);
        }
        self.queues = Some(queues);
        Ok(())
    }

    fn reset(&mut self) -> (r: bool) {
        self.queues = None;
        true
    }

    fn shm_region(&self) -> (r: Option<ShmRegion>) {
        None
    }
}

} // verus!
