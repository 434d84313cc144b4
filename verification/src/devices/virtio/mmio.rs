//! The virtio MMIO transport.

use vstd::prelude::*;

use crate::byte_order::{le_bytes, le_value, overwritten, read_le_u32, resized, write_le_u32};
use crate::devices::legacy::irqchip::{IrqChip, IrqEffect};
use crate::devices::virtio::device::{
    ack_features_by_page, avail_features_by_page, config_read, features_page, page_bits, DeviceModel,
    QueueConfig, VirtioDevice,
};
use crate::devices::virtio::queue::Queue;
use crate::memory::memory::GuestAddress;

verus! {

/// The interrupt status bit for a used queue.
pub const VIRTIO_MMIO_INT_VRING: u32 = 1;

/// The interrupt status bit for a configuration change.
pub const VIRTIO_MMIO_INT_CONFIG: u32 = 2;

/// Device status: nothing has happened yet.
pub const INIT: u32 = 0;

/// Device status bit: the guest has noticed the device.
pub const ACKNOWLEDGE: u32 = 1;

/// Device status bit: the guest has a driver for the device.
pub const DRIVER: u32 = 2;

/// Device status bit: the driver is ready.
pub const DRIVER_OK: u32 = 4;

/// Device status bit: the features are negotiated.
pub const FEATURES_OK: u32 = 8;

/// Device status bit: the guest has given up on the device.
pub const FAILED: u32 = 128;

/// Vendor of the device.
pub const VENDOR_ID: u32 = 0;

/// What the first register holds.
pub const MMIO_MAGIC_VALUE: u32 = 0x7472_6976;

/// Version of the register layout.
pub const MMIO_VERSION: u32 = 2;

/// The acknowledged feature that rings carry event indices.
pub const EVENT_IDX_BIT: u64 = 0x2000_0000;

/// The interrupt side of a transport: the status that the driver reads, and
/// the line that is raised.
#[derive(Debug)]
pub struct InterruptTransport {
    pub log_target: String,
    pub status: u32,
    pub irq_line: Option<u32>,
    /// Whether a device uses this transport, so that the line is fixed.
    pub shared: bool,
}

impl InterruptTransport {
    pub fn new(log_target: String) -> (r: Self)
        ensures
            r.log_target == log_target,
            r.status == 0,
            r.irq_line is None,
            !r.shared,
    {
        InterruptTransport { log_target, status: 0, irq_line: None, shared: false }
    }

    pub fn status(&self) -> (r: u32)
        ensures
            r == self.status,
    {
        self.status
    }

    pub fn irq_line(&self) -> (r: Option<u32>)
        ensures
            r == self.irq_line,
    {
        self.irq_line
    }

    /// Sets the line, unless a device uses the transport already.
    pub fn set_irq_line(&mut self, irq_line: u32)
        ensures
            *final(self) == (if old(self).shared {
                *old(self)
            } else {
                InterruptTransport { irq_line: Some(irq_line), ..*old(self) }
            }),
    {
        if !self.shared {
            self.irq_line = Some(irq_line);
        }
    }

    /// Sets bits of the status and raises the line.
    pub fn try_signal(&mut self, intc: &mut IrqChip, status: u32) -> (r: IrqEffect)
        requires
            old(intc).wf(),
        ensures
            final(intc).wf(),
            *final(self) == (InterruptTransport { status: old(self).status | status, ..*old(self) }),
            old(intc).raised(old(self).irq_line, true, *final(intc), r),
    {
        self.status = self.status | status;
        intc.set_irq(self.irq_line, true)
    }

    /// Tells the driver that a queue has used buffers.
    pub fn try_signal_used_queue(&mut self, intc: &mut IrqChip) -> (r: IrqEffect)
        requires
            old(intc).wf(),
        ensures
            final(intc).wf(),
            *final(self) == (InterruptTransport {
                status: old(self).status | VIRTIO_MMIO_INT_VRING,
                ..*old(self)
            }),
            old(intc).raised(old(self).irq_line, true, *final(intc), r),
    {
        self.try_signal(intc, VIRTIO_MMIO_INT_VRING)
    }

    /// Tells the driver that the configuration has changed.
    pub fn try_signal_config_change(&mut self, intc: &mut IrqChip) -> (r: IrqEffect)
        requires
            old(intc).wf(),
        ensures
            final(intc).wf(),
            *final(self) == (InterruptTransport {
                status: old(self).status | VIRTIO_MMIO_INT_CONFIG,
                ..*old(self)
            }),
            old(intc).raised(old(self).irq_line, true, *final(intc), r),
    {
        self.try_signal(intc, VIRTIO_MMIO_INT_CONFIG)
    }

    /// Lowers the line.
    pub fn try_clear_irq(&self, intc: &mut IrqChip)
        requires
            old(intc).wf(),
        ensures
            final(intc).wf(),
            old(intc).lowered(self.irq_line, *final(intc)),
    {
        intc.clear_irq(self.irq_line);
    }

    /// Tells the driver that a queue has used buffers.
    pub fn signal_used_queue(&mut self, intc: &mut IrqChip) -> (r: IrqEffect)
        requires
            old(intc).wf(),
        ensures
            final(intc).wf(),
            *final(self) == (InterruptTransport {
                status: old(self).status | VIRTIO_MMIO_INT_VRING,
                ..*old(self)
            }),
            old(intc).raised(old(self).irq_line, true, *final(intc), r),
    {
        self.try_signal_used_queue(intc)
    }

    /// Tells the driver that the configuration has changed.
    pub fn signal_config_change(&mut self, intc: &mut IrqChip) -> (r: IrqEffect)
        requires
            old(intc).wf(),
        ensures
            final(intc).wf(),
            *final(self) == (InterruptTransport {
                status: old(self).status | VIRTIO_MMIO_INT_CONFIG,
                ..*old(self)
            }),
            old(intc).raised(old(self).irq_line, true, *final(intc), r),
    {
        self.try_signal_config_change(intc)
    }
}

/// What must happen outside after the guest wrote a register.
#[derive(Clone, Copy, Debug, PartialEq, Eq, Structural)]
pub enum TransportEvent {
    Nothing,
    /// The driver has made buffers available in a queue.
    Notify(u32),
    /// The device was activated and its worker must be started.
    Activated,
    /// The device was stopped and its worker must end.
    Stopped,
    /// A character must be printed.
    Print(u8),
}

/// `addr` with its upper 32 bits replaced.
pub open spec fn with_hi(addr: GuestAddress, x: u32) -> GuestAddress {
    GuestAddress((addr.0 & 0xffff_ffff) | ((x as u64) << 32))
}

/// `addr` with its lower 32 bits replaced.
pub open spec fn with_lo(addr: GuestAddress, x: u32) -> GuestAddress {
    GuestAddress((addr.0 & 0xffff_ffff_0000_0000) | (x as u64))
}

/// The queue after the driver wrote `v` to the queue register at `offset`.
pub open spec fn queue_written(q: Queue, offset: u64, v: u32) -> Queue {
    if offset == 0x38 {
        Queue { size: v as u16, ..q }
    } else if offset == 0x44 {
        Queue { ready: v == 1, ..q }
    } else if offset == 0x80 {
        Queue { desc_table: with_lo(q.desc_table, v), ..q }
    } else if offset == 0x84 {
        Queue { desc_table: with_hi(q.desc_table, v), ..q }
    } else if offset == 0x90 {
        Queue { avail_ring: with_lo(q.avail_ring, v), ..q }
    } else if offset == 0x94 {
        Queue { avail_ring: with_hi(q.avail_ring, v), ..q }
    } else if offset == 0xa0 {
        Queue { used_ring: with_lo(q.used_ring, v), ..q }
    } else {
        Queue { used_ring: with_hi(q.used_ring, v), ..q }
    }
}

/// Whether `offset` is a register of the selected queue that is written.
pub open spec fn is_queue_register(offset: u64) -> bool {
    offset == 0x38 || offset == 0x44 || offset == 0x80 || offset == 0x84 || offset == 0x90 || offset
        == 0x94 || offset == 0xa0 || offset == 0xa4
}

/// Empty queues of the sizes that a device asks for.
pub open spec fn fresh_queues(config: Seq<QueueConfig>) -> Seq<Queue> {
    Seq::new(
        config.len(),
        |i: int|
            Queue {
                max_size: config[i].size,
                size: 0,
                ready: false,
                desc_table: GuestAddress(0),
                avail_ring: GuestAddress(0),
                used_ring: GuestAddress(0),
                next_avail: 0,
                next_used: 0,
                event_idx_enabled: false,
                num_added: 0,
            },
    )
}

/// The queues with event indices switched on or off.
pub open spec fn with_event_idx(queues: Seq<Queue>, enabled: bool) -> Seq<Queue> {
    Seq::new(queues.len(), |i: int| Queue { event_idx_enabled: enabled, ..queues[i] })
}

/// The state of a transport.
#[verifier::ext_equal]
pub struct TransportModel {
    pub device: DeviceModel,
    pub features_select: u32,
    pub acked_features_select: u32,
    pub queue_select: u32,
    pub device_status: u32,
    pub config_generation: u32,
    /// The queues while they are negotiated; the device has them afterwards.
    pub queues: Option<Seq<Queue>>,
    pub shm_region_select: u32,
    pub interrupt_status: u32,
    pub irq_line: Option<u32>,
    pub shared: bool,
}

impl TransportModel {
    /// The bits of `set` are set in the device status, and those of `clr` are
    /// clear.
    pub open spec fn status_is(self, set: u32, clr: u32) -> bool {
        self.device_status & (set | clr) == set
    }

    /// The selected queue.
    pub open spec fn selected(self) -> Option<Queue> {
        match self.queues {
            Some(queues) => if self.queue_select < queues.len() {
                Some(queues[self.queue_select as int])
            } else {
                None
            },
            None => None,
        }
    }

    /// The base and length of the selected shared memory region. The length
    /// of a region that does not exist reads as all ones.
    pub open spec fn shm(self) -> (u64, u64) {
        if self.shm_region_select > 1 {
            (0, u64::MAX)
        } else {
            match self.device.shm_region {
                Some(r) => (r.guest_addr, r.size),
                None => (0, u64::MAX),
            }
        }
    }

    /// What the register at `offset` holds, if there is one that can be read.
    pub open spec fn register(self, offset: u64) -> Option<u32> {
        if offset == 0x00 {
            Some(MMIO_MAGIC_VALUE)
        } else if offset == 0x04 {
            Some(MMIO_VERSION)
        } else if offset == 0x08 {
            Some(self.device.device_type)
        } else if offset == 0x0c {
            Some(VENDOR_ID)
        } else if offset == 0x10 {
            let page = features_page(self.device.avail_features, self.features_select);
            Some(
                if self.features_select == 1 {
                    page | 1
                } else {
                    page
                },
            )
        } else if offset == 0x34 {
            Some(
                match self.selected() {
                    Some(q) => q.max_size as u32,
                    None => 0,
                },
            )
        } else if offset == 0x44 {
            Some(
                match self.selected() {
                    Some(q) => if q.ready {
                        1u32
                    } else {
                        0
                    },
                    None => 0,
                },
            )
        } else if offset == 0x60 {
            Some(self.interrupt_status)
        } else if offset == 0x70 {
            Some(self.device_status)
        } else if offset == 0xfc {
            Some(self.config_generation)
        } else if offset == 0xb0 {
            Some(self.shm().1 as u32)
        } else if offset == 0xb4 {
            Some((self.shm().1 >> 32) as u32)
        } else if offset == 0xb8 {
            Some(self.shm().0 as u32)
        } else if offset == 0xbc {
            Some((self.shm().0 >> 32) as u32)
        } else if 0xb0 <= offset <= 0xbc {
            Some(0)
        } else {
            None
        }
    }

    /// What a read at `offset` leaves in a buffer.
    pub open spec fn read_into(self, offset: u64, old: Seq<u8>) -> Seq<u8> {
        if offset <= 0xff && old.len() == 4 {
            match self.register(offset) {
                Some(v) => overwritten(old, le_bytes(v as nat, 4)),
                None => old,
            }
        } else if 0x100 <= offset <= 0xfff {
            config_read(self.device.config, (offset - 0x100) as u64, old)
        } else {
            old
        }
    }

    /// The transport after its registers were reset.
    pub open spec fn fresh(self) -> TransportModel {
        TransportModel {
            features_select: 0,
            acked_features_select: 0,
            queue_select: 0,
            interrupt_status: 0,
            device_status: INIT,
            queues: Some(fresh_queues(self.device.queue_config)),
            ..self
        }
    }

    /// The transport after the device got its queues.
    pub open spec fn activated(self) -> TransportModel {
        match self.queues {
            None => self,
            Some(queues) => TransportModel {
                device: DeviceModel {
                    queues: Some(
                        with_event_idx(
                            queues,
                            self.device.acked_features & EVENT_IDX_BIT != 0,
                        ),
                    ),
                    ..self.device
                },
                queues: None,
                shared: true,
                ..self
            },
        }
    }

    /// What the driver's write of `status` to the device status does. The
    /// steps of the set-up must be taken in order; the driver can give up at
    /// any time; zero resets the device unless it has failed.
    pub open spec fn status_written(self, status: u32) -> (TransportModel, TransportEvent) {
        let changed = !self.device_status & status;
        let stepped = TransportModel { device_status: status, ..self };
        if changed == ACKNOWLEDGE && self.device_status == INIT {
            (stepped, TransportEvent::Nothing)
        } else if changed == DRIVER && self.device_status == ACKNOWLEDGE {
            (stepped, TransportEvent::Nothing)
        } else if changed == FEATURES_OK && self.device_status == 3 {
            (stepped, TransportEvent::Nothing)
        } else if changed == DRIVER_OK && self.device_status == 11 {
            if self.device.activated() || self.queues is None {
                (stepped, TransportEvent::Nothing)
            } else {
                (stepped.activated(), TransportEvent::Activated)
            }
        } else if status & FAILED != 0 {
            (
                TransportModel { device_status: self.device_status | FAILED, ..self },
                TransportEvent::Nothing,
            )
        } else if status == 0 {
            if self.device.activated() && !self.device.resettable {
                (
                    TransportModel { device_status: self.device_status | FAILED, ..self },
                    TransportEvent::Nothing,
                )
            } else {
                let stopped = if self.device.activated() {
                    TransportModel {
                        device: DeviceModel { queues: None, ..self.device },
                        shared: false,
                        ..self
                    }
                } else {
                    self
                };
                let event = if self.device.activated() {
                    TransportEvent::Stopped
                } else {
                    TransportEvent::Nothing
                };
                if self.device_status & FAILED == 0 {
                    (stopped.fresh(), event)
                } else {
                    (stopped, event)
                }
            }
        } else {
            (self, TransportEvent::Nothing)
        }
    }

    /// What the driver's write of `v` to the register at `offset` does.
    pub open spec fn register_written(self, offset: u64, v: u32) -> (TransportModel, TransportEvent) {
        if offset == 0x14 {
            (TransportModel { features_select: v, ..self }, TransportEvent::Nothing)
        } else if offset == 0x20 {
            if self.status_is(DRIVER, FEATURES_OK | FAILED) {
                (
                    TransportModel {
                        device: DeviceModel {
                            acked_features: self.device.acked_features | (page_bits(
                                self.acked_features_select,
                                v,
                            ) & self.device.avail_features),
                            ..self.device
                        },
                        ..self
                    },
                    TransportEvent::Nothing,
                )
            } else {
                (self, TransportEvent::Nothing)
            }
        } else if offset == 0x24 {
            (TransportModel { acked_features_select: v, ..self }, TransportEvent::Nothing)
        } else if offset == 0x30 {
            (TransportModel { queue_select: v, ..self }, TransportEvent::Nothing)
        } else if offset == 0x50 {
            if v < self.device.queue_config.len() {
                (self, TransportEvent::Notify(v))
            } else {
                (self, TransportEvent::Nothing)
            }
        } else if offset == 0x64 {
            if self.status_is(DRIVER_OK, 0) {
                (
                    TransportModel { interrupt_status: self.interrupt_status & !v, ..self },
                    TransportEvent::Nothing,
                )
            } else {
                (self, TransportEvent::Nothing)
            }
        } else if offset == 0x70 {
            self.status_written(v)
        } else if is_queue_register(offset) {
            match self.selected() {
                Some(q) if self.status_is(FEATURES_OK, FAILED) => (
                    TransportModel {
                        queues: Some(
                            self.queues->0.update(
                                self.queue_select as int,
                                queue_written(q, offset, v),
                            ),
                        ),
                        ..self
                    },
                    TransportEvent::Nothing,
                ),
                _ => (self, TransportEvent::Nothing),
            }
        } else if offset == 0xac {
            (TransportModel { shm_region_select: v, ..self }, TransportEvent::Nothing)
        } else {
            (self, TransportEvent::Nothing)
        }
    }

    /// Whether the driver's write acknowledges the last interrupt, so that the
    /// line must be lowered.
    pub open spec fn lowers_line(self, offset: u64, data: Seq<u8>) -> bool {
        offset == 0x64 && data.len() == 4 && self.status_is(DRIVER_OK, 0) && self.interrupt_status & !(
        le_value(data) as u32) == 0
    }

    /// What the driver's write of `data` at `offset` does.
    pub open spec fn written(self, offset: u64, data: Seq<u8>) -> (TransportModel, TransportEvent) {
        if offset <= 0xff && data.len() == 4 {
            self.register_written(offset, le_value(data) as u32)
        } else if 0x100 <= offset <= 0xfff {
            if self.status_is(DRIVER, FAILED) {
                match self.device.printed((offset - 0x100) as u64, data) {
                    Some(c) => (self, TransportEvent::Print(c)),
                    None => (self, TransportEvent::Nothing),
                }
            } else {
                (self, TransportEvent::Nothing)
            }
        } else {
            (self, TransportEvent::Nothing)
        }
    }

    /// While the queues are negotiated there are as many as the device asks
    /// for, and the device has none.
    pub open spec fn wf(self) -> bool {
        self.queues matches Some(queues) ==> queues.len() == self.device.queue_config.len()
    }
}

/// The MMIO transport for a virtio device.
pub struct MmioTransport<D: VirtioDevice> {
    pub device: D,
    pub features_select: u32,
    pub acked_features_select: u32,
    pub queue_select: u32,
    pub device_status: u32,
    pub config_generation: u32,
    pub queues: Option<Vec<Queue>>,
    pub queue_config: Vec<QueueConfig>,
    pub shm_region_select: u32,
    pub interrupt: InterruptTransport,
}

impl<D: VirtioDevice> View for MmioTransport<D> {
    type V = TransportModel;

    open spec fn view(&self) -> TransportModel {
        TransportModel {
            device: self.device.model(),
            features_select: self.features_select,
            acked_features_select: self.acked_features_select,
            queue_select: self.queue_select,
            device_status: self.device_status,
            config_generation: self.config_generation,
            queues: match self.queues {
                Some(queues) => Some(queues@),
                None => None,
            },
            shm_region_select: self.shm_region_select,
            interrupt_status: self.interrupt.status,
            irq_line: self.interrupt.irq_line,
            shared: self.interrupt.shared,
        }
    }
}

/// Empty queues of the given sizes.
fn create_queues(queue_config: &Vec<QueueConfig>) -> (r: Vec<Queue>)
    ensures
        r@ == fresh_queues(queue_config@),
{
    let mut queues: Vec<Queue> = Vec::new();
    let mut i: usize = 0;
    while i < queue_config.len()
        invariant
            i <= queue_config@.len(),
            queues@ == fresh_queues(queue_config@).subrange(0, i as int),
        decreases queue_config@.len() - i,
    {
        queues.push(Queue::new(queue_config[i].size));
        i += 1;
        assert(queues@ =~= fresh_queues(queue_config@).subrange(0, i as int));
    }
    assert(queues@ =~= fresh_queues(queue_config@));
    queues
}

impl<D: VirtioDevice> MmioTransport<D> {
    pub open spec fn wf(self) -> bool {
        &&& self@.wf()
        &&& self.queue_config@ == self.device.model().queue_config
    }

    /// The transport for a device that is not active yet.
    pub fn new(device: D, log_target: String) -> (r: MmioTransport<D>)
        ensures
            r.wf(),
            r.interrupt.log_target == log_target,
            r@ == (TransportModel {
                device: device.model(),
                features_select: 0,
                acked_features_select: 0,
                queue_select: 0,
                device_status: INIT,
                config_generation: 0,
                queues: Some(fresh_queues(device.model().queue_config)),
                shm_region_select: 0,
                interrupt_status: 0,
                irq_line: None,
                shared: false,
            }),
    {
        let queue_config = device.queue_config();
        let queues = create_queues(&queue_config);
        MmioTransport {
            interrupt: InterruptTransport::new(log_target),
            device,
            features_select: 0,
            acked_features_select: 0,
            queue_select: 0,
            device_status: INIT,
            config_generation: 0,
            queues: Some(queues),
            queue_config,
            shm_region_select: 0,
        }
    }

    /// Sets the interrupt line of the device, unless the device is active.
    pub fn set_irq_line(&mut self, irq_line: u32)
        requires
            old(self).wf(),
        ensures
            final(self).wf(),
            final(self)@ == (if old(self)@.shared {
                old(self)@
            } else {
                TransportModel { irq_line: Some(irq_line), ..old(self)@ }
            }),
    {
        self.interrupt.set_irq_line(irq_line);
    }

    /// Whether the bits of `set` are set in the device status and those of
    /// `clr` are clear.
    fn check_device_status(&self, set: u32, clr: u32) -> (r: bool)
        ensures
            r == self@.status_is(set, clr),
    {
        self.device_status & (set | clr) == set
    }

    /// The selected queue.
    fn selected_queue(&self) -> (r: Option<Queue>)
        ensures
            r == self@.selected(),
    {
        match &self.queues {
            Some(queues) => if (self.queue_select as usize) < queues.len() {
                Some(queues[self.queue_select as usize])
            } else {
                None
            },
            None => None,
        }
    }

    /// Writes a register of the selected queue, if the features are
    /// negotiated and the device has not failed.
    fn update_queue_field(&mut self, offset: u64, v: u32)
        requires
            old(self).wf(),
            is_queue_register(offset),
        ensures
            final(self).wf(),
            final(self)@ == old(self)@.register_written(offset, v).0,
    {
        if !self.check_device_status(FEATURES_OK, FAILED) {
            return;
        }
        let select: usize = self.queue_select as usize;
        if let Some(queues) = &mut self.queues {
            if select < queues.len() {
                let q = queues[select];
                let mut n = q;
                if offset == 0x38 {
                    n.size = v as u16;
                } else if offset == 0x44 {
                    n.ready = v == 1;
                } else if offset == 0x80 {
                    n.desc_table = GuestAddress((q.desc_table.0 & 0xffff_ffff_0000_0000) | (v as u64));
                } else if offset == 0x84 {
                    n.desc_table = GuestAddress((q.desc_table.0 & 0xffff_ffff) | ((v as u64) << 32));
                } else if offset == 0x90 {
                    n.avail_ring = GuestAddress((q.avail_ring.0 & 0xffff_ffff_0000_0000) | (v as u64));
                } else if offset == 0x94 {
                    n.avail_ring = GuestAddress((q.avail_ring.0 & 0xffff_ffff) | ((v as u64) << 32));
                } else if offset == 0xa0 {
                    n.used_ring = GuestAddress((q.used_ring.0 & 0xffff_ffff_0000_0000) | (v as u64));
                } else {
                    n.used_ring = GuestAddress((q.used_ring.0 & 0xffff_ffff) | ((v as u64) << 32));
                }
                queues[select] = n;
            }
        }
    }

    /// Resets the registers for the next negotiation.
    fn reset(&mut self)
        requires
            old(self).wf(),
        ensures
            final(self).wf(),
            final(self)@ == old(self)@.fresh(),
    {
        self.features_select = 0;
        self.acked_features_select = 0;
        self.queue_select = 0;
        self.interrupt.status = 0;
        self.device_status = INIT;
        self.queues = Some(create_queues(&self.queue_config));
    }

    /// Hands the queues to the device.
    fn activate(&mut self)
        requires
            old(self).wf(),
            !old(self).device.model().activated(),
            old(self).queues is Some,
        ensures
            final(self).wf(),
            final(self)@ == old(self)@.activated(),
    {
        if let Some(queues) = self.queues.take() {
            let mut queues = queues;
            let ghost before = queues@;
            let enabled = (self.device.acked_features() & EVENT_IDX_BIT) != 0;
            let mut i: usize = 0;
            while i < queues.len()
                invariant
                    i <= queues@.len(),
                    queues@.len() == before.len(),
                    forall|j: int| 0 <= j < before.len() ==> #[trigger] queues@[j] == (if j < i {
                        Queue { event_idx_enabled: enabled, ..before[j] }
                    } else {
                        before[j]
                    }),
                decreases queues@.len() - i,
            {
                let mut q = queues[i];
                q.set_event_idx(enabled);
                queues[i] = q;
                i += 1;
            }
            assert(queues@ =~= with_event_idx(before, enabled));
            let _ = self.device.activate(queues);
            self.interrupt.shared = true;
        }
    }

    /// Updates the device status.
    fn set_device_status(&mut self, status: u32) -> (r: TransportEvent)
        requires
            old(self).wf(),
        ensures
            final(self).wf(),
            (final(self)@, r) == old(self)@.status_written(status),
    {
        let changed: u32 = !self.device_status & status;
        if changed == ACKNOWLEDGE && self.device_status == INIT {
            self.device_status = status;
            TransportEvent::Nothing
        } else if changed == DRIVER && self.device_status == ACKNOWLEDGE {
            self.device_status = status;
            TransportEvent::Nothing
        } else if changed == FEATURES_OK && self.device_status == 3 {
            self.device_status = status;
            TransportEvent::Nothing
        } else if changed == DRIVER_OK && self.device_status == 11 {
            self.device_status = status;
            if !self.device.is_activated() && self.queues.is_some() {
                self.activate();
                TransportEvent::Activated
            } else {
                TransportEvent::Nothing
            }
        } else if (status & FAILED) != 0 {
            self.device_status = self.device_status | FAILED;
            TransportEvent::Nothing
        } else if status == 0 {
            let mut event = TransportEvent::Nothing;
            if self.device.is_activated() {
                if self.device.reset() {
                    self.interrupt.shared = false;
                    event = TransportEvent::Stopped;
                } else {
                    self.device_status = self.device_status | FAILED;
                    proof {
                        let d = old(self).device_status;
                        assert((d | 128u32) & 128u32 != 0) by (bit_vector);
                    }
                }
            }
            if self.device_status & FAILED == 0 {
                self.reset();
            }
            event
        } else {
            TransportEvent::Nothing
        }
    }

    /// Serves a read of the guest.
    pub fn read(&self, offset: u64, data: &mut [u8])
        requires
            self.wf(),
        ensures
            final(data)@ == self@.read_into(offset, old(data)@),
    {
        if offset <= 0xff && data.len() == 4 {
            let v: u32 = match offset {
                0x00 => MMIO_MAGIC_VALUE,
                0x04 => MMIO_VERSION,
                0x08 => self.device.device_type(),
                0x0c => VENDOR_ID,
                0x10 => {
                    let features: u32 = avail_features_by_page(&self.device, self.features_select);
                    if self.features_select == 1 {
                        features | 0x1
                    } else {
                        features
                    }
                },
                0x34 => match self.selected_queue() {
                    Some(q) => q.get_max_size() as u32,
                    None => 0,
                },
                0x44 => match self.selected_queue() {
                    Some(q) => if q.ready {
                        1
                    } else {
                        0
                    },
                    None => 0,
                },
                0x60 => self.interrupt.status(),
                0x70 => self.device_status,
                0xfc => self.config_generation,
                _ => if 0xb0 <= offset && offset <= 0xbc {
                    let (base, len): (u64, u64) = if self.shm_region_select > 1 {
                        (0, u64::MAX)
                    } else {
                        match self.device.shm_region() {
                            Some(region) => (region.guest_addr, region.size),
                            None => (0, u64::MAX),
                        }
                    };
                    match offset {
                        0xb0 => len as u32,
                        0xb4 => (len >> 32) as u32,
                        0xb8 => base as u32,
                        0xbc => (base >> 32) as u32,
                        _ => 0,
                    }
                } else {
                    return;
                },
            };
            write_le_u32(data, v);
        } else if 0x100 <= offset && offset <= 0xfff {
            self.device.read_config(offset - 0x100, data);
        }
    }

    /// Serves a write of the guest. The result says what must happen outside.
    pub fn write(&mut self, intc: &mut IrqChip, offset: u64, data: &[u8]) -> (r: TransportEvent)
        requires
            old(self).wf(),
            old(intc).wf(),
        ensures
            final(self).wf(),
            final(intc).wf(),
            (final(self)@, r) == old(self)@.written(offset, data@),
            if old(self)@.lowers_line(offset, data@) {
                old(intc).lowered(old(self)@.irq_line, *final(intc))
            } else {
                *final(intc) == *old(intc)
            },
    {
        if offset <= 0xff && data.len() == 4 {
            assert(resized(data@, 4) =~= data@);
            let v: u32 = read_le_u32(data);
            match offset {
                0x14 => {
                    self.features_select = v;
                    TransportEvent::Nothing
                },
                0x20 => {
                    if self.check_device_status(DRIVER, FEATURES_OK | FAILED) {
                        let select: u32 = self.acked_features_select;
                        ack_features_by_page(&mut self.device, select, v);
                    }
                    TransportEvent::Nothing
                },
                0x24 => {
                    self.acked_features_select = v;
                    TransportEvent::Nothing
                },
                0x30 => {
                    self.queue_select = v;
                    TransportEvent::Nothing
                },
                0x50 => if (v as usize) < self.queue_config.len() {
                    TransportEvent::Notify(v)
                } else {
                    TransportEvent::Nothing
                },
                0x64 => {
                    if self.check_device_status(DRIVER_OK, 0) {
                        let prev: u32 = self.interrupt.status;
                        self.interrupt.status = prev & !v;
                        if prev & !v == 0 {
                            self.interrupt.try_clear_irq(intc);
                        }
                    }
                    TransportEvent::Nothing
                },
                0x70 => self.set_device_status(v),
                0x38 | 0x44 | 0x80 | 0x84 | 0x90 | 0x94 | 0xa0 | 0xa4 => {
                    self.update_queue_field(offset, v);
                    TransportEvent::Nothing
                },
                0xac => {
                    self.shm_region_select = v;
                    TransportEvent::Nothing
                },
                _ => TransportEvent::Nothing,
            }
        } else if 0x100 <= offset && offset <= 0xfff {
            if self.check_device_status(DRIVER, FAILED) {
                match self.device.write_config(offset - 0x100, data) {
                    Some(c) => TransportEvent::Print(c),
                    None => TransportEvent::Nothing,
                }
            } else {
                TransportEvent::Nothing
            }
        } else {
            TransportEvent::Nothing
        }
    }

    /// Sets bits of the interrupt status; the interrupt event must be
    /// signalled afterwards.
    pub fn interrupt(&mut self, irq_mask: u32)
        requires
            old(self).wf(),
        ensures
            final(self).wf(),
            final(self)@ == (TransportModel {
                interrupt_status: old(self)@.interrupt_status | irq_mask,
                ..old(self)@
            }),
    {
        self.interrupt.status = self.interrupt.status | irq_mask;
    }
}

/// Facts about the bits of the device status.
proof fn lemma_status_bits(d: u32, s: u32)
    by (bit_vector)
    ensures
        0u32 & 128u32 == 0,
        1u32 & 128u32 == 0,
        3u32 & 128u32 == 0,
        11u32 & 128u32 == 0,
        (d | 128u32) & 128u32 != 0,
        11u32 & 8u32 == 8,
        d == 11 && !d & s == 4 ==> s & 4 == 4 && s & 0xffff_fff0 == 0,
{
}

/// Once the driver has given up on the device, no write to the status makes
/// the device good again.
pub proof fn law_failure_is_final(m: TransportModel, status: u32)
    requires
        m.device_status & FAILED != 0,
    ensures
        m.status_written(status).0.device_status & FAILED != 0,
{
    lemma_status_bits(m.device_status, status);
}

/// A device is activated only by the step to `DRIVER_OK`, and only after all
/// the steps before it; the driver reads back the status that it wrote.
pub proof fn law_activation_follows_all_steps(m: TransportModel, offset: u64, data: Seq<u8>)
    requires
        !m.device.activated(),
        m.written(offset, data).0.device.activated(),
    ensures
        offset == 0x70,
        m.device_status == 11,
        m.written(offset, data).1 == TransportEvent::Activated,
        m.written(offset, data).0.device_status == le_value(data) as u32,
        m.written(offset, data).0.device_status & DRIVER_OK == DRIVER_OK,
{
    lemma_status_bits(m.device_status, le_value(data) as u32);
}

/// The steps of the set-up, taken in order, activate a device that is not
/// active, with the queues that were negotiated.
pub proof fn law_set_up(m: TransportModel)
    requires
        m.device_status == INIT,
        !m.device.activated(),
        m.queues is Some,
    ensures
        ({
            let a = m.status_written(ACKNOWLEDGE).0;
            let b = a.status_written(3).0;
            let c = b.status_written(11).0;
            let (d, event) = c.status_written(15);
            &&& event == TransportEvent::Activated
            &&& d.device.activated()
            &&& d.device.queues->0.len() == m.queues->0.len()
            &&& d.device_status == 15
        }),
{
    assert({
        &&& !0u32 & 1u32 == 1
        &&& !1u32 & 3u32 == 2
        &&& !3u32 & 11u32 == 8
        &&& !11u32 & 15u32 == 4
    }) by (bit_vector);
}

/// The driver never gets a feature that the device does not offer.
pub proof fn law_features_are_offered(m: TransportModel, offset: u64, data: Seq<u8>)
    requires
        m.device.acked_features & !m.device.avail_features == 0,
    ensures
        ({
            let d = m.written(offset, data).0.device;
            &&& d.avail_features == m.device.avail_features
            &&& d.acked_features & !d.avail_features == 0
        }),
{
    let a = m.device.acked_features;
    let o = m.device.avail_features;
    let v = page_bits(m.acked_features_select, le_value(data) as u32);
    assert(a & !o == 0 ==> (a | (v & o)) & !o == 0) by (bit_vector);
}

/// The registers of a queue change only between the negotiation of the
/// features and a failure.
pub proof fn law_queue_registers_are_guarded(m: TransportModel, offset: u64, data: Seq<u8>)
    requires
        is_queue_register(offset),
        !m.status_is(FEATURES_OK, FAILED),
    ensures
        m.written(offset, data) == (m, TransportEvent::Nothing),
{
}

/// The driver sets a 64-bit address by writing its two halves.
pub proof fn law_address_halves(addr: GuestAddress, lo: u32, hi: u32)
    ensures
        with_hi(with_lo(addr, lo), hi).0 == lo + hi * 0x1_0000_0000,
        with_lo(with_hi(addr, hi), lo).0 == lo + hi * 0x1_0000_0000,
{
    let a = addr.0;
    let l = lo as u64;
    let h = hi as u64;
    assert({
        &&& ((((a & 0xffff_ffff_0000_0000) | l) & 0xffff_ffff) | (h << 32)) == l + h * 0x1_0000_0000
        &&& ((((a & 0xffff_ffff) | (h << 32)) & 0xffff_ffff_0000_0000) | l) == l + h * 0x1_0000_0000
    }) by (bit_vector)
        requires
            l <= 0xffff_ffff,
            h <= 0xffff_ffff,
    ;
}

/// Acknowledging interrupts clears the acknowledged bits of the status and
/// leaves the others.
pub proof fn law_interrupt_acknowledged(m: TransportModel, v: u32)
    requires
        m.status_is(DRIVER_OK, 0),
    ensures
        m.register_written(0x64, v).0.interrupt_status & v == 0,
        m.register_written(0x64, v).0.interrupt_status & !v == m.interrupt_status & !v,
{
    let s = m.interrupt_status;
    assert((s & !v) & v == 0 && (s & !v) & !v == s & !v) by (bit_vector);
}

/// Writing zero to the status of a device that has not failed and can be
/// reset stops it and empties every register but the configuration
/// generation.
pub proof fn law_reset(m: TransportModel)
    requires
        m.device_status & FAILED == 0,
        m.device.resettable,
        m.wf(),
    ensures
        ({
            let r = m.status_written(0).0;
            &&& !r.device.activated()
            &&& r.device_status == INIT
            &&& r.interrupt_status == 0
            &&& r.queues == Some(fresh_queues(m.device.queue_config))
            &&& r.features_select == 0 && r.acked_features_select == 0 && r.queue_select == 0
            &&& r.config_generation == m.config_generation
            &&& r.wf()
        }),
{
    let d = m.device_status;
    assert(!d & 0u32 == 0 && 0u32 & 128u32 == 0) by (bit_vector);
}

} // verus!
