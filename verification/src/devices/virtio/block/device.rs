//! The block device as the transport sees it.

use vstd::prelude::*;

use crate::byte_order::{encode_le, le_bytes};
use crate::devices::virtio::device::{
    copy_config, ActivateError, DeviceModel, QueueConfig, ShmRegion, VirtioDevice,
    TYPE_BLOCK,
};
use crate::devices::virtio::queue::Queue;

verus! {

/// Size of the queue.
pub const QUEUE_SIZE: u16 = 256;

/// One request queue.
pub const NUM_QUEUES: usize = 1;

/// The features that the device offers: it complies with version 1 and can
/// flush its cache.
pub const BLOCK_FEATURES: u64 = 0x1_0000_0200;

/// A block device.
#[derive(Debug)]
pub struct Block {
    pub avail_features: u64,
    pub acked_features: u64,
    /// The size of the disk in sectors.
    pub capacity: u64,
    /// The queue, once the driver has set it up.
    pub queues: Option<Vec<Queue>>,
}

impl Block {
    /// A block device for a disk of `disk_size` bytes. What is left over of a
    /// sector is out of reach.
    pub fn new(disk_size: u64) -> (r: Self)
        ensures
            r.model() == (DeviceModel {
                device_type: TYPE_BLOCK,
                name: "block"@,
                queue_config: seq![QueueConfig { size: QUEUE_SIZE }],
                avail_features: BLOCK_FEATURES,
                acked_features: 0,
                config: le_bytes((disk_size / 512) as nat, 8),
                emergency: None,
                queues: None,
                resettable: true,
                shm_region: None,
            }),
    {
        Block {
            avail_features: BLOCK_FEATURES,
            acked_features: 0,
            capacity: disk_size / 512,
            queues: None,
        }
    }
}

impl VirtioDevice for Block {
    open spec fn model(&self) -> DeviceModel {
        DeviceModel {
            device_type: TYPE_BLOCK,
            name: "block"@,
            queue_config: seq![QueueConfig { size: QUEUE_SIZE }],
            avail_features: self.avail_features,
            acked_features: self.acked_features,
            config: le_bytes(self.capacity as nat, 8),
            emergency: None,
            queues: match self.queues {
                Some(queues) => Some(queues@),
                None => None,
            },
            resettable: true,
            shm_region: None,
        }
    }

    fn device_type(&self) -> (r: u32) {
        TYPE_BLOCK
    }

    fn device_name(&self) -> (r: &'static str) {
        "block"
    }

    fn queue_config(&self) -> (r: Vec<QueueConfig>) {
        vec![QueueConfig::new(QUEUE_SIZE)]
    }

    fn avail_features(&self) -> (r: u64) {
        self.avail_features
    }

    fn acked_features(&self) -> (r: u64) {
        self.acked_features
    }

    fn set_acked_features(&mut self, acked_features: u64) {
        self.acked_features = acked_features;
    }

    fn read_config(&self, offset: u64, data: &mut [u8]) {
        let config = encode_le(self.capacity, 8);
        copy_config(&config, offset, data);
    }

    fn write_config(&mut self, offset: u64, data: &[u8]) -> (r: Option<u8>) {
        None
    }

    fn is_activated(&self) -> (r: bool) {
        self.queues.is_some()
    }

    fn activate(&mut self, queues: Vec<Queue>) -> (r: Result<(), ActivateError>) {
        if queues.len() != NUM_QUEUES {
            return Err(ActivateError::BadActivate);
        }
        self.queues = Some(queues);
        Ok(())
    }

    fn reset(&mut self) -> (r: bool) {
        self.queues = None;
        true
    }

    fn shm_region(&self) -> (r: Option<ShmRegion>) {
        None
    }
}

} // verus!
