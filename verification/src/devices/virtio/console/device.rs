//! The console as the transport sees it.

use vstd::prelude::*;

use crate::byte_order::{encode_le, le_bytes};
use crate::devices::virtio::device::{
    copy_config, ActivateError, DeviceModel, QueueConfig, ShmRegion, VirtioDevice,
    TYPE_CONSOLE,
};
use crate::devices::virtio::queue::Queue;

verus! {

/// Size of each queue.
pub const QUEUE_SIZE: u16 = 256;

/// Receive queue and transmit queue.
pub const NUM_QUEUES: usize = 2;

/// The features that the console offers: it complies with version 1 and
/// tells its size.
pub const CONSOLE_FEATURES: u64 = 0x1_0000_0001;

/// Where the configuration space takes an emergency character.
pub const EMERG_WR_OFFSET: u64 = 8;

/// The configuration space of a console.
#[derive(Clone, Copy, Debug, PartialEq, Eq, Structural)]
pub struct ConsoleConfig {
    pub cols: u16,
    pub rows: u16,
    pub max_nr_ports: u32,
    pub emerg_wr: u32,
}

impl ConsoleConfig {
    pub open spec fn bytes(self) -> Seq<u8> {
        le_bytes(self.cols as nat, 2) + le_bytes(self.rows as nat, 2) + le_bytes(
            self.max_nr_ports as nat,
            4,
        ) + le_bytes(self.emerg_wr as nat, 4)
    }

    /// The bytes of the configuration space.
    pub fn as_slice(&self) -> (r: Vec<u8>)
        ensures
            r@ == self.bytes(),
    {
        let mut r = encode_le(self.cols as u64, 2);
        let mut rows = encode_le(self.rows as u64, 2);
        let mut ports = encode_le(self.max_nr_ports as u64, 4);
        let mut emerg = encode_le(self.emerg_wr as u64, 4);
        r.append(&mut rows);
        r.append(&mut ports);
        r.append(&mut emerg);
        r
    }
}

/// A console.
#[derive(Debug)]
pub struct Console {
    pub avail_features: u64,
    pub acked_features: u64,
    pub config: ConsoleConfig,
    /// The queues, once the driver has set them up.
    pub queues: Option<Vec<Queue>>,
}

impl Console {
    /// A console of the given size.
    pub fn new(cols: u16, rows: u16) -> (r: Self)
        ensures
            r.model() == (DeviceModel {
                device_type: TYPE_CONSOLE,
                name: "console"@,
                queue_config: seq![QueueConfig { size: QUEUE_SIZE }, QueueConfig { size: QUEUE_SIZE }],
                avail_features: CONSOLE_FEATURES,
                acked_features: 0,
                config: ConsoleConfig { cols, rows, max_nr_ports: 0, emerg_wr: 0 }.bytes(),
                emergency: Some(EMERG_WR_OFFSET),
                queues: None,
                resettable: true,
                shm_region: None,
            }),
    {
        Console {
            avail_features: CONSOLE_FEATURES,
            acked_features: 0,
            config: ConsoleConfig { cols, rows, max_nr_ports: 0, emerg_wr: 0 },
            queues: None,
        }
    }
}

impl VirtioDevice for Console {
    open spec fn model(&self) -> DeviceModel {
        DeviceModel {
            device_type: TYPE_CONSOLE,
            name: "console"@,
            queue_config: seq![QueueConfig { size: QUEUE_SIZE }, QueueConfig { size: QUEUE_SIZE }],
            avail_features: self.avail_features,
            acked_features: self.acked_features,
            config: self.config.bytes(),
            emergency: Some(EMERG_WR_OFFSET),
            queues: match self.queues {
                Some(queues) => Some(queues@),
                None => None,
            },
            resettable: true,
            shm_region: None,
        }
    }

    fn device_type(&self) -> (r: u32) {
        TYPE_CONSOLE
    }

    fn device_name(&self) -> (r: &'static str) {
        "console"
    }

    fn queue_config(&self) -> (r: Vec<QueueConfig>) {
        vec![QueueConfig::new(QUEUE_SIZE), QueueConfig::new(QUEUE_SIZE)]
    }

    fn avail_features(&self) -> (r: u64) {
        self.avail_features
    }

    fn acked_features(&self) -> (r: u64) {
        self.acked_features
    }

    fn set_acked_features(&mut self, acked_features: u64) {
        self.acked_features = acked_features;
    }

    fn read_config(&self, offset: u64, data: &mut [u8]) {
        let config = self.config.as_slice();
        copy_config(&config, offset, data);
    }

    fn write_config(&mut self, offset: u64, data: &[u8]) -> (r: Option<u8>) {
        if offset == EMERG_WR_OFFSET && data.len() >= 1 {
            Some(data[0])
        } else {
            None
        }
    }

    fn is_activated(&self) -> (r: bool) {
        self.queues.is_some()
    }

    fn activate(&mut self, queues: Vec<Queue>) -> (r: Result<(), ActivateError>) {
        if queues.len() != NUM_QUEUES {
            return Err(ActivateError::BadActivate);
        }
        self.queues = Some(queues);
        Ok(())
    }

    fn reset(&mut self) -> (r: bool) {
        self.queues = None;
        true
    }

    fn shm_region(&self) -> (r: Option<ShmRegion>) {
        None
    }
}

} // verus!
