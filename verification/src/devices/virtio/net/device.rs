//! The network device as the transport sees it.

use vstd::prelude::*;

use crate::byte_order::{encode_le, le_bytes};
use crate::devices::virtio::device::{
    copy_config, ActivateError, DeviceModel, QueueConfig, ShmRegion, VirtioDevice,
    TYPE_NET,
};
use crate::devices::virtio::queue::Queue;

verus! {

/// Size of each queue.
pub const QUEUE_SIZE: u16 = 1024;

/// Receive queue and transmit queue.
pub const NUM_QUEUES: usize = 2;

/// The features that the device offers: it complies with version 1 and has
/// its own address.
pub const NET_FEATURES: u64 = 0x1_0000_0020;

/// The configuration space of a network device.
#[derive(Clone, Copy, Debug)]
pub struct NetConfig {
    pub mac: [u8; 6],
    pub status: u16,
    pub max_virtqueue_pairs: u16,
}

impl NetConfig {
    pub open spec fn bytes(self) -> Seq<u8> {
        self.mac@ + le_bytes(self.status as nat, 2) + le_bytes(self.max_virtqueue_pairs as nat, 2)
    }

    /// The bytes of the configuration space.
    pub fn as_slice(&self) -> (r: Vec<u8>)
        ensures
            r@ == self.bytes(),
    {
        let mut r: Vec<u8> = Vec::new();
        let mut i: usize = 0;
        while i < 6
            invariant
                i <= 6,
                r@ == self.mac@.subrange(0, i as int),
            decreases 6 - i,
        {
            r.push(self.mac[i]);
            i += 1;
            assert(r@ =~= self.mac@.subrange(0, i as int));
        }
        assert(r@ =~= self.mac@);
        let mut status = encode_le(self.status as u64, 2);
        let mut pairs = encode_le(self.max_virtqueue_pairs as u64, 2);
        r.append(&mut status);
        r.append(&mut pairs);
        r
    }
}

/// A network device.
#[derive(Debug)]
pub struct Net {
    pub avail_features: u64,
    pub acked_features: u64,
    pub config: NetConfig,
    /// The queues, once the driver has set them up.
    pub queues: Option<Vec<Queue>>,
}

impl Net {
    /// A network device with the given hardware address.
    pub fn new(mac: [u8; 6]) -> (r: Self)
        ensures
            r.model() == (DeviceModel {
                device_type: TYPE_NET,
                name: "net"@,
                queue_config: seq![QueueConfig { size: QUEUE_SIZE }, QueueConfig { size: QUEUE_SIZE }],
                avail_features: NET_FEATURES,
                acked_features: 0,
                config: NetConfig { mac, status: 0, max_virtqueue_pairs: 1 }.bytes(),
                emergency: None,
                queues: None,
                resettable: true,
                shm_region: None,
            }),
    {
        Net {
            avail_features: NET_FEATURES,
            acked_features: 0,
            config: NetConfig { mac, status: 0, max_virtqueue_pairs: 1 },
            queues: None,
        }
    }
}

impl VirtioDevice for Net {
    open spec fn model(&self) -> DeviceModel {
        DeviceModel {
            device_type: TYPE_NET,
            name: "net"@,
            queue_config: seq![QueueConfig { size: QUEUE_SIZE }, QueueConfig { size: QUEUE_SIZE }],
            avail_features: self.avail_features,
            acked_features: self.acked_features,
            config: self.config.bytes(),
            emergency: None,
            queues: match self.queues {
                Some(queues) => Some(queues@),
                None => None,
            },
            resettable: true,
            shm_region: None,
        }
    }

    fn device_type(&self) -> (r: u32) {
        TYPE_NET
    }

    fn device_name(&self) -> (r: &'static str) {
        "net"
    }

    fn queue_config(&self) -> (r: Vec<QueueConfig>) {
        vec![QueueConfig::new(QUEUE_SIZE), QueueConfig::new(QUEUE_SIZE)]
    }

    fn avail_features(&self) -> (r: u64) {
        self.avail_features
    }

    fn acked_features(&self) -> (r: u64) {
        self.acked_features
    }

    fn set_acked_features(&mut self, acked_features: u64) {
        self.acked_features = acked_features;
    }

    fn read_config(&self, offset: u64, data: &mut [u8]) {
        let config = self.config.as_slice();
        copy_config(&config, offset, data);
    }

    fn write_config(&mut self, offset: u64, data: &[u8]) -> (r: Option<u8>) {
        None
    }

    fn is_activated(&self) -> (r: bool) {
        self.queues.is_some()
    }

    fn activate(&mut self, queues: Vec<Queue>) -> (r: Result<(), ActivateError>) {
        if queues.len() != NUM_QUEUES {
            return Err(ActivateError::BadActivate);
        }
        self.queues = Some(queues);
        Ok(())
    }

    fn reset(&mut self) -> (r: bool) {
        self.queues = None;
        true
    }

    fn shm_region(&self) -> (r: Option<ShmRegion>) {
        None
    }
}

} // verus!
