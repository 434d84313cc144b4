//! What the transport asks of a virtio device.

use vstd::prelude::*;

use crate::devices::virtio::queue::Queue;

verus! {

/// Device types.
pub const TYPE_NET: u32 = 1;

pub const TYPE_BLOCK: u32 = 2;

pub const TYPE_CONSOLE: u32 = 3;

pub const TYPE_RNG: u32 = 4;

/// The bit number of the feature that a device complies with version 1.
pub const VIRTIO_F_VERSION_1: u32 = 32;

/// The bit number of the feature that rings carry event indices.
pub const VIRTIO_RING_F_EVENT_IDX: u32 = 29;

/// Why a device could not be activated.
#[derive(Clone, Copy, Debug, PartialEq, Eq, Structural)]
pub enum ActivateError {
    BadActivate,
}

/// The size of a queue that a device asks for.
#[derive(Clone, Copy, Debug, PartialEq, Eq, Structural)]
pub struct QueueConfig {
    pub size: u16,
}

impl QueueConfig {
    pub fn new(size: u16) -> (r: Self)
        ensures
            r.size == size,
    {
        QueueConfig { size }
    }
}

/// A region of memory that a device shares with the guest.
#[derive(Clone, Copy, Debug, PartialEq, Eq, Structural)]
pub struct ShmRegion {
    pub guest_addr: u64,
    pub size: u64,
}

/// What the transport sees of a device.
#[verifier::ext_equal]
pub struct DeviceModel {
    pub device_type: u32,
    pub name: Seq<char>,
    pub queue_config: Seq<QueueConfig>,
    pub avail_features: u64,
    pub acked_features: u64,
    /// The configuration space.
    pub config: Seq<u8>,
    /// Where a write to the configuration space prints a character, if
    /// anywhere.
    pub emergency: Option<u64>,
    /// The queues that the device works on, once it is active.
    pub queues: Option<Seq<Queue>>,
    /// Whether the device can be reset.
    pub resettable: bool,
    pub shm_region: Option<ShmRegion>,
}

impl DeviceModel {
    pub open spec fn activated(self) -> bool {
        self.queues is Some
    }

    /// The character that a write to the configuration space prints.
    pub open spec fn printed(self, offset: u64, data: Seq<u8>) -> Option<u8> {
        if self.emergency == Some(offset) && data.len() >= 1 {
            Some(data[0])
        } else {
            None
        }
    }
}

/// What reading the configuration space at `offset` leaves in a buffer: as
/// much of the space as there is, and the rest of the buffer as it was.
pub open spec fn config_read(config: Seq<u8>, offset: u64, old: Seq<u8>) -> Seq<u8> {
    if offset >= config.len() || offset + old.len() > u64::MAX {
        old
    } else {
        Seq::new(
            old.len(),
            |i: int| if offset + i < config.len() { config[offset + i] } else { old[i] },
        )
    }
}

/// A virtio device.
pub trait VirtioDevice: Sized {
    spec fn model(&self) -> DeviceModel;

    fn device_type(&self) -> (r: u32)
        ensures
            r == self.model().device_type,
    ;

    fn device_name(&self) -> (r: &'static str)
        ensures
            r@ == self.model().name,
    ;

    fn queue_config(&self) -> (r: Vec<QueueConfig>)
        ensures
            r@ == self.model().queue_config,
    ;

    fn avail_features(&self) -> (r: u64)
        ensures
            r == self.model().avail_features,
    ;

    fn acked_features(&self) -> (r: u64)
        ensures
            r == self.model().acked_features,
    ;

    fn set_acked_features(&mut self, acked_features: u64)
        ensures
            final(self).model() == (DeviceModel { acked_features, ..old(self).model() }),
    ;

    /// Reads the configuration space.
    fn read_config(&self, offset: u64, data: &mut [u8])
        ensures
            final(data)@ == config_read(self.model().config, offset, old(data)@),
    ;

    /// Writes the configuration space. The result is a character to print.
    fn write_config(&mut self, offset: u64, data: &[u8]) -> (r: Option<u8>)
        ensures
            final(self).model() == old(self).model(),
            r == old(self).model().printed(offset, data@),
    ;

    fn is_activated(&self) -> (r: bool)
        ensures
            r == self.model().activated(),
    ;

    /// Hands the device the queues to work on.
    fn activate(&mut self, queues: Vec<Queue>) -> (r: Result<(), ActivateError>)
        requires
            !old(self).model().activated(),
        ensures
            r is Ok <==> queues@.len() == old(self).model().queue_config.len(),
            r is Ok ==> final(self).model() == (DeviceModel {
                queues: Some(queues@),
                ..old(self).model()
            }),
            r is Err ==> final(self).model() == old(self).model(),
    ;

    /// Stops the device. The result tells whether that is possible.
    fn reset(&mut self) -> (r: bool)
        ensures
            r == old(self).model().resettable,
            final(self).model() == (if r {
                DeviceModel { queues: None, ..old(self).model() }
            } else {
                old(self).model()
            }),
    ;

    fn shm_region(&self) -> (r: Option<ShmRegion>)
        ensures
            r == self.model().shm_region,
    ;
}

/// Copies the part of a configuration space that starts at `offset`.
pub fn copy_config(config: &Vec<u8>, offset: u64, data: &mut [u8])
    ensures
        final(data)@ == config_read(config@, offset, old(data)@),
{
    let size: usize = config.len();
    let config_len: u64 = size as u64;
    if offset >= config_len {
        return;
    }
    if let Some(end) = offset.checked_add(data.len() as u64) {
        let mut i: usize = 0;
        while i < data.len() && offset + (i as u64) < config_len
            invariant
                config_len == size,
                size == config@.len(),
                offset < config_len,
                offset + data@.len() == end,
                i <= data@.len(),
                data@.len() == old(data)@.len(),
                forall|j: int| 0 <= j < data@.len() ==> #[trigger] data@[j] == (if j < i && offset + j
                    < config_len {
                    config@[offset + j]
                } else {
                    old(data)@[j]
                }),
            decreases data@.len() - i,
        {
            data[i] = config[(offset + i as u64) as usize];
            i += 1;
        }
        assert(data@ =~= config_read(config@, offset, old(data)@));
    }
}

/// The 32 feature bits of page `page`.
pub open spec fn features_page(features: u64, page: u32) -> u32 {
    if page == 0 {
        (features & 0xffff_ffff) as u32
    } else if page == 1 {
        (features >> 32) as u32
    } else {
        0
    }
}

/// The feature bits that `value`, written to page `page`, stands for.
pub open spec fn page_bits(page: u32, value: u32) -> u64 {
    if page == 0 {
        value as u64
    } else if page == 1 {
        (value as u64) << 32
    } else {
        0
    }
}

/// The features that a device offers, 32 at a time.
pub fn avail_features_by_page<D: VirtioDevice>(device: &D, page: u32) -> (r: u32)
    ensures
        r == features_page(device.model().avail_features, page),
{
    let features: u64 = device.avail_features();
    match page {
        0 => (features & 0xffff_ffff) as u32,
        1 => (features >> 32) as u32,
        _ => 0,
    }
}

/// Accepts features, 32 at a time. Features that the device does not offer
/// are left out.
pub fn ack_features_by_page<D: VirtioDevice>(device: &mut D, page: u32, value: u32)
    ensures
        final(device).model() == (DeviceModel {
            acked_features: old(device).model().acked_features | (page_bits(page, value)
                & old(device).model().avail_features),
            ..old(device).model()
        }),
{
    let v: u64 = match page {
        0 => value as u64,
        1 => (value as u64) << 32,
        _ => 0,
    };
    let offered: u64 = v & device.avail_features();
    let acked: u64 = device.acked_features();
    device.set_acked_features(acked | offered);
}

} // verus!
