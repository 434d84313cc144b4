//! What the devices offer to their drivers.

use vstd::prelude::*;

use crate::devices::virtio::block::device::Block;
use crate::devices::virtio::console::device::Console;
use crate::devices::virtio::device::{DeviceModel, VirtioDevice};
use crate::devices::virtio::net::device::Net;
use crate::devices::virtio::rng::device::Rng;
use crate::laws::memory::{digits, law_bytes_add_up, lemma_digits_of};

verus! {

/// A device that nobody uses yet, of `n` queues with `size` elements each.
pub open spec fn offers(d: DeviceModel, kind: u32, n: nat, size: u16, features: int) -> bool {
    &&& d.device_type == kind
    &&& d.queue_config.len() == n
    &&& forall|i: int| 0 <= i < n ==> (#[trigger] d.queue_config[i]).size == size
    &&& d.avail_features == features
    &&& d.acked_features == 0
    &&& d.queues is None
    &&& d.resettable
    &&& d.shm_region is None
}

/// A block device has one queue of 256 elements; it complies with version one
/// and can flush. Its configuration is the number of whole sectors.
pub proof fn law_block_device(disk_size: u64, d: Block)
    requires
        call_ensures(Block::new, (disk_size,), d),
    ensures
        offers(d.model(), 2, 1, 256, 0x1_0000_0200),
        d.model().config.len() == 8,
        digits(d.model().config, 0, 8) == disk_size / 512,
        d.model().emergency is None,
{
    law_bytes_add_up((disk_size / 512) as nat, 8);
}

/// A network device has two queues of 1024 elements; it complies with version
/// one and has its own address. Its configuration is the address, no status,
/// and one pair of queues.
pub proof fn law_net_device(mac: [u8; 6], d: Net)
    requires
        call_ensures(Net::new, (mac,), d),
    ensures
        offers(d.model(), 1, 2, 1024, 0x1_0000_0020),
        d.model().config.len() == 10,
        forall|i: int| 0 <= i < 6 ==> #[trigger] d.model().config[i] == mac@[i],
        digits(d.model().config, 6, 2) == 0,
        digits(d.model().config, 8, 2) == 1,
        d.model().emergency is None,
{
    let config = d.model().config;
    law_bytes_add_up(0, 2);
    law_bytes_add_up(1, 2);
    lemma_digits_of(config, crate::byte_order::le_bytes(0, 2), 6, 0, 2);
    lemma_digits_of(config, crate::byte_order::le_bytes(1, 2), 8, 0, 2);
}

/// A console has two queues of 256 elements; it complies with version one and
/// tells its size. Its configuration is its columns and rows, no ports, and
/// the place for emergency characters, which are printed.
pub proof fn law_console_device(cols: u16, rows: u16, d: Console)
    requires
        call_ensures(Console::new, (cols, rows), d),
    ensures
        offers(d.model(), 3, 2, 256, 0x1_0000_0001),
        d.model().config.len() == 12,
        digits(d.model().config, 0, 2) == cols,
        digits(d.model().config, 2, 2) == rows,
        digits(d.model().config, 4, 4) == 0,
        digits(d.model().config, 8, 4) == 0,
        d.model().emergency == Some(8u64),
{
    let config = d.model().config;
    law_bytes_add_up(cols as nat, 2);
    law_bytes_add_up(rows as nat, 2);
    law_bytes_add_up(0, 4);
    lemma_digits_of(config, crate::byte_order::le_bytes(cols as nat, 2), 0, 0, 2);
    lemma_digits_of(config, crate::byte_order::le_bytes(rows as nat, 2), 2, 0, 2);
    lemma_digits_of(config, crate::byte_order::le_bytes(0, 4), 4, 0, 4);
    lemma_digits_of(config, crate::byte_order::le_bytes(0, 4), 8, 0, 4);
}

/// An entropy source has one queue of 256 elements, complies with version one
/// and has no configuration.
pub proof fn law_entropy_device(d: Rng)
    requires
        call_ensures(Rng::new, (), d),
    ensures
        offers(d.model(), 4, 1, 256, 0x1_0000_0000),
        d.model().config.len() == 0,
        d.model().emergency is None,
{
}

} // verus!
