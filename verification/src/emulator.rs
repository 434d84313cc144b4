//! What the instruction emulator's callbacks decide: port accesses and
//! accesses to memory-mapped devices.

use vstd::prelude::*;

use crate::byte_order::{encode_le, le_bytes, le_value, lemma_le_bytes_len, overwritten};
use crate::devices::virtio::mmio_adapter::{buffer_value, supported_size};
use crate::memory::memory::{find_mmio_from, MemoryManager, MmioRegion};

verus! {

/// The error that a callback reports.
#[derive(Clone, Copy, Debug, PartialEq, Eq, Structural)]
pub enum EmulatorError {
    InvalidParameter,
    InternalError,
    NotFound,
}

impl EmulatorError {
    /// The Windows error code.
    pub fn code(&self) -> (r: u32)
        ensures
            r == (match *self {
                EmulatorError::InvalidParameter => 87u32,
                EmulatorError::InternalError => 1359,
                EmulatorError::NotFound => 1168,
            }),
    {
        match self {
            EmulatorError::InvalidParameter => 87,
            EmulatorError::InternalError => 1359,
            EmulatorError::NotFound => 1168,
        }
    }
}

/// The state behind the ports that the machine serves itself.
#[derive(Clone, Copy, Debug, PartialEq, Eq, Structural)]
pub struct Emulator {
    /// What the timer ports read as.
    pub rtc_time: u64,
    /// How often the timer ports were read.
    pub rtc_counter: u64,
    /// The serial port's interrupt enable register.
    pub serial_ier: u8,
    /// How often the system control port was read.
    pub refresh_counter: u64,
    /// The selected PCI configuration address.
    pub pci_address_config: u32,
}

/// What a port access comes to.
#[derive(Debug)]
pub enum PortAction {
    /// It is done.
    Done,
    /// It reads as this value.
    Value(u32),
    /// These bytes go to the host's output.
    Print(Vec<u8>),
    /// These bytes go to the device on the bus.
    BusWrite(Vec<u8>),
    /// So many bytes are read from the device on the bus.
    BusRead(usize),
}

/// What a port access comes to.
pub enum PortActionModel {
    Done,
    Value(u32),
    Print(Seq<u8>),
    BusWrite(Seq<u8>),
    BusRead(nat),
}

impl PortAction {
    pub open spec fn stands_for(self, model: PortActionModel) -> bool {
        match model {
            PortActionModel::Done => self is Done,
            PortActionModel::Value(v) => self == PortAction::Value(v),
            PortActionModel::Print(b) => self matches PortAction::Print(v) && v@ == b,
            PortActionModel::BusWrite(b) => self matches PortAction::BusWrite(v) && v@ == b,
            PortActionModel::BusRead(n) => self matches PortAction::BusRead(v) && v == n,
        }
    }
}

/// Whether characters written to a port are printed.
pub open spec fn is_serial_data(port: u16) -> bool {
    port == 0x3F8 || port == 0x2F8 || port == 0x3E8 || port == 0x2E8 || port == 0x652 || port == 42
}

/// At most four bytes are passed to a device on the bus.
pub open spec fn bus_size(access_size: u16) -> nat {
    if access_size <= 4 {
        access_size as nat
    } else {
        4
    }
}

impl Emulator {
    pub fn new() -> (r: Self)
        ensures
            r == (Emulator {
                rtc_time: 0,
                rtc_counter: 0,
                serial_ier: 0,
                refresh_counter: 0,
                pci_address_config: 0,
            }),
    {
        Emulator {
            rtc_time: 0,
            rtc_counter: 0,
            serial_ier: 0,
            refresh_counter: 0,
            pci_address_config: 0,
        }
    }

    /// The guest writes `data` to `port`.
    pub open spec fn port_written(self, port: u16, access_size: u16, data: u32) -> (
        Emulator,
        PortActionModel,
    ) {
        if is_serial_data(port) {
            (self, PortActionModel::Print(le_bytes(data as nat, access_size as nat)))
        } else if port == 0x3F9 {
            (Emulator { serial_ier: data as u8, ..self }, PortActionModel::Done)
        } else if port == 0xCF8 {
            (Emulator { pci_address_config: data, ..self }, PortActionModel::Done)
        } else {
            (
                self,
                PortActionModel::BusWrite(
                    le_bytes(data as nat, 4).subrange(0, bus_size(access_size) as int),
                ),
            )
        }
    }

    /// The guest reads `port`. The timer ports count up once in a hundred
    /// reads; the system control port toggles its two bits at different
    /// rates; no PCI device is present; the serial port is ready to send.
    pub open spec fn port_read(self, port: u16, access_size: u16) -> (Emulator, PortActionModel) {
        if port == 0x3F9 {
            (self, PortActionModel::Value(self.serial_ier as u32))
        } else if port == 43 {
            (self, PortActionModel::Value(99))
        } else if port == 0x40 || port == 0x43 {
            let counter = if self.rtc_counter == u64::MAX {
                0u64
            } else {
                (self.rtc_counter + 1) as u64
            };
            let time = if counter % 100 != 0 {
                self.rtc_time
            } else if self.rtc_time == u64::MAX {
                0u64
            } else {
                (self.rtc_time + 1) as u64
            };
            (
                Emulator { rtc_counter: counter, rtc_time: time, ..self },
                PortActionModel::Value(time as u32),
            )
        } else if port == 0x61 {
            let counter = (self.refresh_counter + 1) as u64;
            (
                Emulator { refresh_counter: counter, ..self },
                PortActionModel::Value(
                    ((((counter >> 7) & 1) << 4) | (((counter >> 6) & 1) << 5)) as u32,
                ),
            )
        } else if port == 0x70 || port == 0x71 {
            (self, PortActionModel::Value(0))
        } else if port == 0xCF8 {
            (self, PortActionModel::Value(self.pci_address_config))
        } else if port == 0xCFC {
            (self, PortActionModel::Value(0xFFFF_FFFF))
        } else if port == 0x3FD {
            (self, PortActionModel::Value(0x60))
        } else {
            (self, PortActionModel::BusRead(bus_size(access_size)))
        }
    }

    /// Serves a port access: a write if `direction` is 1, else a read.
    pub fn io_port_callback(&mut self, port: u16, direction: u8, access_size: u16, data: u32) -> (r:
        PortAction)
        requires
            direction == 1 && is_serial_data(port) ==> access_size <= 4,
            direction != 1 && port == 0x61 ==> old(self).refresh_counter < u64::MAX,
        ensures
            ({
                let (after, action) = if direction == 1 {
                    old(self).port_written(port, access_size, data)
                } else {
                    old(self).port_read(port, access_size)
                };
                &&& *final(self) == after
                &&& r.stands_for(action)
            }),
    {
        if direction == 1 {
            match port {
                0x3F8 | 0x2F8 | 0x3E8 | 0x2E8 | 0x652 | 42 => PortAction::Print(
                    encode_le(data as u64, access_size as usize),
                ),
                0x3F9 => {
                    self.serial_ier = data as u8;
                    PortAction::Done
                },
                0xCF8 => {
                    self.pci_address_config = data;
                    PortAction::Done
                },
                _ => {
                    let size: usize = if access_size <= 4 {
                        access_size as usize
                    } else {
                        4
                    };
                    let bytes = encode_le(data as u64, 4);
                    proof {
                        lemma_le_bytes_len(data as nat, 4);
                    }
                    PortAction::BusWrite(crate::memory::memory::copy_out(&bytes, 0, size))
                },
            }
        } else {
            match port {
                0x3F9 => PortAction::Value(self.serial_ier as u32),
                43 => PortAction::Value(99),
                0x40 | 0x43 => {
                    self.rtc_counter = self.rtc_counter.wrapping_add(1);
                    if self.rtc_counter % 100 == 0 {
                        self.rtc_time = self.rtc_time.wrapping_add(1);
                    }
                    PortAction::Value(self.rtc_time as u32)
                },
                0x61 => {
                    self.refresh_counter = self.refresh_counter + 1;
                    let bit4: u64 = ((self.refresh_counter >> 7) & 1) << 4;
                    let bit5: u64 = ((self.refresh_counter >> 6) & 1) << 5;
                    PortAction::Value((bit4 | bit5) as u32)
                },
                0x70 | 0x71 => PortAction::Value(0),
                0xCF8 => PortAction::Value(self.pci_address_config),
                0xCFC => PortAction::Value(0xFFFF_FFFF),
                0x3FD => PortAction::Value(0x60),
                _ => {
                    let size: usize = if access_size <= 4 {
                        access_size as usize
                    } else {
                        4
                    };
                    PortAction::BusRead(size)
                },
            }
        }
    }

    /// What a port reads as after the bus was asked: what the device gave, in
    /// little-endian order, or zero if no device is there.
    pub fn bus_value(bytes: &Option<Vec<u8>>) -> (r: u32)
        requires
            bytes matches Some(b) ==> b@.len() <= 4,
        ensures
            r == (match *bytes {
                Some(b) => le_value(b@) as u32,
                None => 0u32,
            }),
    {
        match bytes {
            Some(b) => {
                buffer_value(b.as_slice()) as u32
            },
            None => 0,
        }
    }

    /// Where a guest access to a memory-mapped device goes.
    pub fn memory_callback(
        mem: &MemoryManager,
        handlers: &Vec<String>,
        gpa: u64,
        direction: u8,
        access_size: u32,
        data: &[u8; 8],
    ) -> (r: MmioRoute)
        requires
            mem.wf(),
        ensures
            r == mmio_route(mem.mmio_regions@, handlers@, gpa, direction, access_size, data@),
    {
        let region = match mem.find_mmio(gpa) {
            Some(region) => region,
            None => {
                return MmioRoute::Fail(EmulatorError::NotFound);
            },
        };
        let offset: u64 = gpa - region.gpa.0;
        let name = match &region.handler {
            Some(name) => name,
            None => {
                return MmioRoute::Fail(EmulatorError::NotFound);
            },
        };
        let handler: usize = match find_handler(handlers, name) {
            Some(i) => i,
            None => {
                return MmioRoute::Fail(EmulatorError::NotFound);
            },
        };
        match direction {
            0 => MmioRoute::Read { handler, offset, size: access_size },
            1 => match access_size {
                1 | 2 | 4 | 8 => {
                    let bytes = &data.as_slice()[0..access_size as usize];
                    MmioRoute::Write {
                        handler,
                        offset,
                        size: access_size,
                        value: buffer_value(bytes),
                    }
                },
                _ => MmioRoute::Fail(EmulatorError::InvalidParameter),
            },
            _ => MmioRoute::Fail(EmulatorError::InvalidParameter),
        }
    }

    /// What the guest gets to see of a read that the device has answered.
    /// `data` is the emulator's buffer; as many of its bytes as were asked for
    /// are replaced.
    pub fn read_answered(answer: Option<u64>, access_size: u32, data: &mut Vec<u8>) -> (r: Option<
        EmulatorError,
    >)
        requires
            old(data)@.len() == 8,
        ensures
            r == (match answer {
                None => Some(EmulatorError::InternalError),
                Some(_) => if supported_size(access_size) {
                    None
                } else {
                    Some(EmulatorError::InvalidParameter)
                },
            }),
            final(data)@ == (match answer {
                Some(v) if supported_size(access_size) => overwritten(
                    old(data)@,
                    le_bytes(v as nat, access_size as nat),
                ),
                _ => old(data)@,
            }),
    {
        match answer {
            None => Some(EmulatorError::InternalError),
            Some(value) => match access_size {
                1 | 2 | 4 | 8 => {
                    let bytes = encode_le(value, access_size as usize);
                    proof {
                        lemma_le_bytes_len(value as nat, access_size as nat);
                    }
                    crate::memory::memory::copy_into(data, 0, bytes.as_slice());
                    assert(data@ =~= overwritten(old(data)@, le_bytes(value as nat, access_size as nat)));
                    None
                },
                _ => Some(EmulatorError::InvalidParameter),
            },
        }
    }

    /// What a write comes to after the device has or has not taken it.
    pub fn write_answered(taken: bool) -> (r: Option<EmulatorError>)
        ensures
            r == (if taken { None } else { Some(EmulatorError::InternalError) }),
    {
        if taken {
            None
        } else {
            Some(EmulatorError::InternalError)
        }
    }
}

/// Where a guest access to a memory-mapped device goes.
#[derive(Clone, Copy, Debug, PartialEq, Eq, Structural)]
pub enum MmioRoute {
    /// A read by the handler with this number.
    Read { handler: usize, offset: u64, size: u32 },
    /// A write by the handler with this number.
    Write { handler: usize, offset: u64, size: u32, value: u64 },
    /// It cannot be served.
    Fail(EmulatorError),
}

/// The first handler with a given name.
pub open spec fn handler_from(handlers: Seq<String>, name: Seq<char>, i: int) -> Option<int>
    decreases handlers.len() - i,
{
    if i < 0 || i >= handlers.len() {
        None
    } else if handlers[i]@ == name {
        Some(i)
    } else {
        handler_from(handlers, name, i + 1)
    }
}

/// The first handler with a given name.
pub fn find_handler(handlers: &Vec<String>, name: &String) -> (r: Option<usize>)
    ensures
        match r {
            Some(k) => handler_from(handlers@, name@, 0) == Some(k as int) && k < handlers@.len()
                && handlers@[k as int]@ == name@,
            None => handler_from(handlers@, name@, 0) is None,
        },
{
    let mut i: usize = 0;
    while i < handlers.len()
        invariant
            i <= handlers@.len(),
            handler_from(handlers@, name@, 0) == handler_from(handlers@, name@, i as int),
        decreases handlers@.len() - i,
    {
        if handlers[i] == *name {
            return Some(i);
        }
        i += 1;
    }
    None
}

/// Where a guest access to `gpa` goes: to the handler of the first region
/// that holds the address. A write of an odd size is refused before it gets
/// there.
pub open spec fn mmio_route(
    regions: Seq<MmioRegion>,
    handlers: Seq<String>,
    gpa: u64,
    direction: u8,
    size: u32,
    data: Seq<u8>,
) -> MmioRoute {
    match find_mmio_from(regions, gpa as int, 0) {
        None => MmioRoute::Fail(EmulatorError::NotFound),
        Some(k) => match regions[k].handler {
            None => MmioRoute::Fail(EmulatorError::NotFound),
            Some(name) => match handler_from(handlers, name@, 0) {
                None => MmioRoute::Fail(EmulatorError::NotFound),
                Some(h) => {
                    let handler = h as usize;
                    let offset = (gpa - regions[k].gpa.0) as u64;
                    if direction == 0 {
                        MmioRoute::Read { handler, offset, size }
                    } else if direction == 1 && supported_size(size) {
                        MmioRoute::Write {
                            handler,
                            offset,
                            size,
                            value: le_value(data.subrange(0, size as int)) as u64,
                        }
                    } else {
                        MmioRoute::Fail(EmulatorError::InvalidParameter)
                    }
                },
            },
        },
    }
}

/// What the guest wrote to the PCI configuration address, it reads back.
pub proof fn law_pci_address_reads_back(e: Emulator, size: u16, data: u32)
    ensures
        e.port_written(0xCF8, size, data).0.port_read(0xCF8, size).1 == PortActionModel::Value(data),
{
}

/// What the guest wrote to the interrupt enable register, it reads back.
pub proof fn law_serial_ier_reads_back(e: Emulator, size: u16, data: u32)
    requires
        data <= 0xff,
    ensures
        e.port_written(0x3F9, size, data).0.port_read(0x3F9, size).1 == PortActionModel::Value(data),
{
}

/// The value that a device gives on the bus is what the guest reads back of
/// what it wrote, if the device keeps the bytes.
pub proof fn law_bus_bytes(e: Emulator, port: u16, data: u32)
    requires
        !is_serial_data(port),
        port != 0x3F9,
        port != 0xCF8,
    ensures
        e.port_written(port, 4, data).1 matches PortActionModel::BusWrite(b) && le_value(b) == data,
{
    crate::byte_order::lemma_pow256_values();
    lemma_le_bytes_len(data as nat, 4);
    crate::byte_order::law_le_value_of_bytes(data as nat, 4);
    assert(le_bytes(data as nat, 4).subrange(0, 4) =~= le_bytes(data as nat, 4));
}

} // verus!
