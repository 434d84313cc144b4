//! What port accesses and accesses to device registers come to.

use vstd::prelude::*;

use crate::byte_order::le_bytes;
use crate::emulator::{handler_from, mmio_route, Emulator, EmulatorError, MmioRoute, PortActionModel};
use crate::laws::memory::{digits, law_device_addresses_are_found, lemma_digits};
use crate::laws::registers::lemma_lowest_bytes;
use crate::memory::memory::{find_mmio_from, MmioRegion};

verus! {

proof fn lemma_first_handler(handlers: Seq<String>, name: Seq<char>, i: int)
    requires
        0 <= i,
    ensures
        match handler_from(handlers, name, i) {
            Some(k) => i <= k < handlers.len() && handlers[k]@ == name && (forall|j: int|
                i <= j < k ==> (#[trigger] handlers[j])@ != name),
            None => forall|j: int| i <= j < handlers.len() ==> (#[trigger] handlers[j])@ != name,
        },
    decreases handlers.len() - i,
{
    if i < handlers.len() && handlers[i]@ != name {
        lemma_first_handler(handlers, name, i + 1);
    }
}

/// A handler is found by its name: the first of that name, if there is any.
pub proof fn law_first_handler(handlers: Seq<String>, name: Seq<char>)
    ensures
        match handler_from(handlers, name, 0) {
            Some(k) => 0 <= k < handlers.len() && handlers[k]@ == name && (forall|j: int|
                0 <= j < k ==> (#[trigger] handlers[j])@ != name),
            None => forall|j: int| 0 <= j < handlers.len() ==> (#[trigger] handlers[j])@ != name,
        },
{
    lemma_first_handler(handlers, name, 0);
}

/// Where an access to a device register goes: to the handler of the first
/// device region that holds the address, with the distance from the region's
/// start. What is written is the number in the first bytes of the buffer, one,
/// two, four or eight of them.
pub proof fn law_register_access(
    regions: Seq<MmioRegion>,
    handlers: Seq<String>,
    gpa: u64,
    direction: u8,
    size: u32,
    data: Seq<u8>,
)
    requires
        data.len() == 8,
        handlers.len() <= usize::MAX,
    ensures
        ({
            let route = mmio_route(regions, handlers, gpa, direction, size, data);
            let sound = size == 1 || size == 2 || size == 4 || size == 8;
            let place = find_mmio_from(regions, gpa as int, 0);
            &&& place is None || regions[place->0].handler is None ==> route == MmioRoute::Fail(
                EmulatorError::NotFound,
            )
            &&& place matches Some(k) ==> (regions[k].handler matches Some(name) ==> match handler_from(
                handlers,
                name@,
                0,
            ) {
                None => route == MmioRoute::Fail(EmulatorError::NotFound),
                Some(h) => {
                    &&& direction == 0 ==> (route matches MmioRoute::Read { handler, offset, size: n } && handler
                        == h && offset == gpa - regions[k].gpa.0 && n == size)
                    &&& direction == 1 && sound ==> (route matches MmioRoute::Write {
                        handler,
                        offset,
                        size: n,
                        value,
                    } && handler == h && offset == gpa - regions[k].gpa.0 && n == size && value == digits(
                        data,
                        0,
                        size as nat,
                    ))
                    &&& direction == 1 && !sound || direction > 1 ==> route == MmioRoute::Fail(
                        EmulatorError::InvalidParameter,
                    )
                },
            })
        }),
{
    law_device_addresses_are_found(regions, gpa as int);
    if let Some(k) = find_mmio_from(regions, gpa as int, 0) {
        if let Some(name) = regions[k].handler {
            law_first_handler(handlers, name@);
        }
    }
    if size == 1 || size == 2 || size == 4 || size == 8 {
        lemma_digits(data, 0, size as nat);
        crate::laws::memory::law_numbers_are_little_endian(data, 0);
        reveal_with_fuel(digits, 9);
    }
}

/// What the guest writes to ports: characters to the serial ports and the two
/// debug ports, as many as the access has; what the two registers keep; and
/// everything else goes to the bus, at most four bytes.
#[verifier::rlimit(50)]
pub proof fn law_port_writes(e: Emulator, port: u16, size: u16, data: u32)
    requires
        size == 1 || size == 2 || size == 4,
    ensures
        ({
            let (after, action) = e.port_written(port, size, data);
            let text = port == 0x3F8 || port == 0x2F8 || port == 0x3E8 || port == 0x2E8 || port == 0x652 || port
                == 42;
            &&& text ==> after == e && (action matches PortActionModel::Print(b) && b.len() == size && digits(
                b,
                0,
                size as nat,
            ) == data as int % pow(size))
            &&& port == 0x3F9 ==> after == (Emulator { serial_ier: after.serial_ier, ..e }) && after.serial_ier
                == data % 0x100 && action is Done
            &&& port == 0xCF8 ==> after == (Emulator { pci_address_config: data, ..e }) && action is Done
            &&& !text && port != 0x3F9 && port != 0xCF8 ==> after == e && (action matches PortActionModel::BusWrite(
                b,
            ) && b.len() == size && digits(b, 0, size as nat) == data as int % pow(size))
        }),
{
    let d = data as nat;
    let b = le_bytes(d, 4).subrange(0, size as int);
    lemma_first_bytes(d, size as nat);
    lemma_lowest_bytes(d);
    assert(data as u8 == data % 0x100) by {
        crate::laws::bits::lemma_bits(data as u64);
    }
}

proof fn lemma_first_bytes(d: nat, n: nat)
    requires
        n == 1 || n == 2 || n == 4,
    ensures
        le_bytes(d, 4).subrange(0, n as int) == le_bytes(d, n),
        le_bytes(d, n).len() == n,
        le_bytes(d, 4).len() == 4,
{
    reveal_with_fuel(le_bytes, 5);
    assert(le_bytes(d, 4).subrange(0, n as int) =~= le_bytes(d, n));
}

/// How many numbers so many bytes can tell apart.
pub open spec fn pow(size: u16) -> int {
    if size == 1 {
        0x100
    } else if size == 2 {
        0x1_0000
    } else {
        0x1_0000_0000
    }
}

/// What the guest reads from ports: what the registers keep; constants of a
/// serial port that is ready to send, of a clock that shows nothing, and of a
/// bus without devices; and at other ports what is on the bus.
pub proof fn law_port_reads(e: Emulator, port: u16, size: u16)
    ensures
        ({
            let (after, action) = e.port_read(port, size);
            let timer = port == 0x40 || port == 0x43;
            &&& port == 0x3F9 ==> action == PortActionModel::Value(e.serial_ier as u32)
            &&& port == 43 ==> action == PortActionModel::Value(99)
            &&& port == 0x70 || port == 0x71 ==> action == PortActionModel::Value(0)
            &&& port == 0xCF8 ==> action == PortActionModel::Value(e.pci_address_config)
            &&& port == 0xCFC ==> action == PortActionModel::Value(0xFFFF_FFFF)
            &&& port == 0x3FD ==> action == PortActionModel::Value(0x60)
            &&& !timer && port != 0x61 ==> after == e
            &&& timer ==> after == (Emulator {
                rtc_counter: after.rtc_counter,
                rtc_time: after.rtc_time,
                ..e
            }) && (action matches PortActionModel::Value(v) && v == after.rtc_time % 0x1_0000_0000)
            &&& !timer && port != 0x61 && port != 0x3F9 && port != 43 && port != 0x70 && port != 0x71 && port
                != 0xCF8 && port != 0xCFC && port != 0x3FD ==> (action matches PortActionModel::BusRead(n) && n
                == (if size < 4 {
                size as int
            } else {
                4
            }))
        }),
{
    let (after, action) = e.port_read(port, size);
    crate::laws::bits::lemma_bits(after.rtc_time);
}

/// The state after the timer was read `n` times.
pub open spec fn timer_read(e: Emulator, n: nat) -> Emulator
    decreases n,
{
    if n == 0 {
        e
    } else {
        timer_read(e, (n - 1) as nat).port_read(0x40, 1).0
    }
}

/// The timer goes on by one in a hundred reads: after `n` reads it has gone on
/// as often as the count of reads has passed a multiple of a hundred.
pub proof fn law_timer_rate(e: Emulator, n: nat)
    requires
        e.rtc_counter + n < u64::MAX,
        e.rtc_time + n < u64::MAX,
    ensures
        timer_read(e, n).rtc_counter == e.rtc_counter + n,
        timer_read(e, n).rtc_time == e.rtc_time + (e.rtc_counter + n) / 100 - e.rtc_counter / 100,
        timer_read(e, n).port_read(0x43, 1) == timer_read(e, n).port_read(0x40, 1),
    decreases n,
{
    if n > 0 {
        law_timer_rate(e, (n - 1) as nat);
    }
}

/// The system control port: the reads are counted; the fifth bit toggles every
/// 64 of them, the fourth every 128.
pub proof fn law_system_control(e: Emulator, size: u16)
    requires
        e.refresh_counter < u64::MAX,
    ensures
        ({
            let n = (e.refresh_counter + 1) as u64;
            let (after, action) = e.port_read(0x61, size);
            &&& after == (Emulator { refresh_counter: n, ..e })
            &&& action matches PortActionModel::Value(v) && v == 16 * ((n / 128) % 2) + 32 * ((n / 64) % 2)
        }),
{
    let n = (e.refresh_counter + 1) as u64;
    assert(((((n >> 7) & 1) << 4) | (((n >> 6) & 1) << 5)) as u32 == 16 * ((n / 128) % 2) + 32 * ((n / 64) % 2))
        by (bit_vector);
}

} // verus!
