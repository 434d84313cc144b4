//! Split virtqueues: descriptor chains, the available ring and the used ring.

use vstd::arithmetic::div_mod::{lemma_mod_bound, lemma_small_mod};
use vstd::prelude::*;

use crate::byte_order::{
    encode_le, law_le_value_of_bytes, le_bytes, le_value, lemma_le_bytes_len, lemma_pow256_values,
    read_le_u16, read_le_u32, read_le_u64, resized,
};
use crate::laws::memory::digits;
use crate::laws::queue::{law_used_element_in_memory, open_at};
use crate::memory::memory::{
    find, lemma_find_from, GuestAddress, MemoryError, MemoryManager, Ram, RegionLayout,
};
use crate::memory::object::GuestObject;
use crate::text::{dec_text, decimal};

verus! {

/// Marks a descriptor as chained.
pub const VIRTQ_DESC_F_NEXT: u16 = 0x1;

/// Marks a descriptor as written by the device.
pub const VIRTQ_DESC_F_WRITE: u16 = 0x2;

/// Size of the used ring header: flags and index.
pub const VIRTQ_USED_RING_HEADER_SIZE: u64 = 4;

/// Size of one element in the used ring: id and length.
pub const VIRTQ_USED_ELEMENT_SIZE: u64 = 8;

/// Size of the available ring header: flags and index.
pub const VIRTQ_AVAIL_RING_HEADER_SIZE: u64 = 4;

/// Size of one element in the available ring.
pub const VIRTQ_AVAIL_ELEMENT_SIZE: u64 = 2;

/// Tells the driver that it need not notify.
pub const VRING_USED_F_NO_NOTIFY: u16 = 1;

/// Virtio queue related errors.
#[derive(Clone, Copy, Debug, PartialEq, Eq, Structural)]
pub enum Error {
    /// Address overflow.
    AddressOverflow,
    /// Failed to access guest memory.
    GuestMemory(MemoryError),
    /// Invalid indirect descriptor.
    InvalidIndirectDescriptor,
    /// Invalid indirect descriptor table.
    InvalidIndirectDescriptorTable,
    /// Invalid descriptor chain.
    InvalidChain,
    /// Invalid descriptor index.
    InvalidDescriptorIndex,
    /// Invalid max_size.
    InvalidMaxSize,
    /// Invalid Queue Size.
    InvalidSize,
    /// Invalid alignment of descriptor table address.
    InvalidDescTableAlign,
    /// Invalid alignment of available ring address.
    InvalidAvailRingAlign,
    /// Invalid alignment of used ring address.
    InvalidUsedRingAlign,
    /// Invalid available ring index.
    InvalidAvailRingIndex,
    /// The queue is not ready for operation.
    QueueNotReady,
    /// The combined length of all the buffers in a `DescriptorChain` would overflow.
    DescriptorChainOverflow,
    /// No memory region for this address range.
    FindMemoryRegion,
    /// DescriptorChain split is out of bounds.
    SplitOutOfBounds(usize),
}

impl Error {
    pub open spec fn message_spec(self) -> Seq<char> {
        match self {
            Error::AddressOverflow => "address overflow"@,
            Error::GuestMemory(_) => "error accessing guest memory"@,
            Error::InvalidChain => "invalid descriptor chain"@,
            Error::InvalidIndirectDescriptor => "invalid indirect descriptor"@,
            Error::InvalidIndirectDescriptorTable => "invalid indirect descriptor table"@,
            Error::InvalidDescriptorIndex => "invalid descriptor index"@,
            Error::InvalidMaxSize => "invalid queue maximum size"@,
            Error::InvalidSize => "invalid queue size"@,
            Error::InvalidDescTableAlign =>
                "virtio queue descriptor table breaks alignment constraints"@,
            Error::InvalidAvailRingAlign => "virtio queue available ring breaks alignment constraints"@,
            Error::InvalidUsedRingAlign => "virtio queue used ring breaks alignment constraints"@,
            Error::InvalidAvailRingIndex =>
                "invalid available ring index (more descriptors to process than queue size)"@,
            Error::QueueNotReady => "trying to process requests on a queue that's not ready"@,
            Error::DescriptorChainOverflow =>
                "the combined length of all the buffers in a `DescriptorChain` would overflow"@,
            Error::FindMemoryRegion => "no memory region for this address range"@,
            Error::SplitOutOfBounds(off) => "`DescriptorChain` split is out of bounds: "@ + dec_text(
                off as nat,
            ),
        }
    }

    /// The text of the error.
    pub fn message(&self) -> (r: String)
        ensures
            r@ == self.message_spec(),
    {
        let text = match self {
            Error::AddressOverflow => "address overflow",
            Error::GuestMemory(_) => "error accessing guest memory",
            Error::InvalidChain => "invalid descriptor chain",
            Error::InvalidIndirectDescriptor => "invalid indirect descriptor",
            Error::InvalidIndirectDescriptorTable => "invalid indirect descriptor table",
            Error::InvalidDescriptorIndex => "invalid descriptor index",
            Error::InvalidMaxSize => "invalid queue maximum size",
            Error::InvalidSize => "invalid queue size",
            Error::InvalidDescTableAlign =>
                "virtio queue descriptor table breaks alignment constraints",
            Error::InvalidAvailRingAlign => "virtio queue available ring breaks alignment constraints",
            Error::InvalidUsedRingAlign => "virtio queue used ring breaks alignment constraints",
            Error::InvalidAvailRingIndex =>
                "invalid available ring index (more descriptors to process than queue size)",
            Error::QueueNotReady => "trying to process requests on a queue that's not ready",
            Error::DescriptorChainOverflow =>
                "the combined length of all the buffers in a `DescriptorChain` would overflow",
            Error::FindMemoryRegion => "no memory region for this address range",
            Error::SplitOutOfBounds(_) => "`DescriptorChain` split is out of bounds: ",
        };
        let mut r = text.to_owned();
        if let Error::SplitOutOfBounds(off) = self {
            r.append(decimal(*off as u64).as_str());
        }
        r
    }
}

/// An element of the used ring.
#[derive(Clone, Copy, Debug, PartialEq, Eq, Structural)]
pub struct VirtqUsedElem {
    pub id: u32,
    pub len: u32,
}

impl VirtqUsedElem {
    /// `id` is the index of the used descriptor chain, `len` how many bytes
    /// were written to it.
    pub fn new(id: u32, len: u32) -> (r: Self)
        ensures
            r.id == id,
            r.len == len,
    {
        VirtqUsedElem { id, len }
    }
}

impl GuestObject for VirtqUsedElem {
    open spec fn size() -> nat {
        8
    }

    open spec fn encode(self) -> Seq<u8> {
        le_bytes(self.id as nat, 4) + le_bytes(self.len as nat, 4)
    }

    open spec fn decode(s: Seq<u8>) -> VirtqUsedElem {
        VirtqUsedElem {
            id: le_value(s.subrange(0, 4)) as u32,
            len: le_value(s.subrange(4, 8)) as u32,
        }
    }

    proof fn decode_of_encode(self) {
        lemma_pow256_values();
        lemma_le_bytes_len(self.id as nat, 4);
        lemma_le_bytes_len(self.len as nat, 4);
        law_le_value_of_bytes(self.id as nat, 4);
        law_le_value_of_bytes(self.len as nat, 4);
        assert(self.encode().subrange(0, 4) =~= le_bytes(self.id as nat, 4));
        assert(self.encode().subrange(4, 8) =~= le_bytes(self.len as nat, 4));
    }

    fn byte_len() -> (n: usize) {
        8
    }

    fn to_bytes(&self) -> (r: Vec<u8>) {
        proof {
            lemma_le_bytes_len(self.id as nat, 4);
            lemma_le_bytes_len(self.len as nat, 4);
        }
        let mut r = encode_le(self.id as u64, 4);
        let mut len = encode_le(self.len as u64, 4);
        r.append(&mut len);
        r
    }

    fn from_bytes(s: &[u8]) -> (r: VirtqUsedElem) {
        let id = &s[0..4];
        let len = &s[4..8];
        assert(resized(id@, 4) =~= id@);
        assert(resized(len@, 4) =~= len@);
        VirtqUsedElem { id: read_le_u32(id), len: read_le_u32(len) }
    }
}

/// A virtio descriptor.
#[derive(Clone, Copy, Debug, PartialEq, Eq, Structural)]
pub struct Descriptor {
    pub addr: u64,
    pub len: u32,
    pub flags: u16,
    pub next: u16,
}

impl Default for Descriptor {
    fn default() -> (r: Self)
        ensures
            r == (Descriptor { addr: 0, len: 0, flags: 0, next: 0 }),
    {
        Descriptor { addr: 0, len: 0, flags: 0, next: 0 }
    }
}

impl GuestObject for Descriptor {
    open spec fn size() -> nat {
        16
    }

    open spec fn encode(self) -> Seq<u8> {
        le_bytes(self.addr as nat, 8) + le_bytes(self.len as nat, 4) + le_bytes(self.flags as nat, 2)
            + le_bytes(self.next as nat, 2)
    }

    open spec fn decode(s: Seq<u8>) -> Descriptor {
        Descriptor {
            addr: le_value(s.subrange(0, 8)) as u64,
            len: le_value(s.subrange(8, 12)) as u32,
            flags: le_value(s.subrange(12, 14)) as u16,
            next: le_value(s.subrange(14, 16)) as u16,
        }
    }

    proof fn decode_of_encode(self) {
        lemma_pow256_values();
        lemma_le_bytes_len(self.addr as nat, 8);
        lemma_le_bytes_len(self.len as nat, 4);
        lemma_le_bytes_len(self.flags as nat, 2);
        lemma_le_bytes_len(self.next as nat, 2);
        law_le_value_of_bytes(self.addr as nat, 8);
        law_le_value_of_bytes(self.len as nat, 4);
        law_le_value_of_bytes(self.flags as nat, 2);
        law_le_value_of_bytes(self.next as nat, 2);
        let s = self.encode();
        assert(s.subrange(0, 8) =~= le_bytes(self.addr as nat, 8));
        assert(s.subrange(8, 12) =~= le_bytes(self.len as nat, 4));
        assert(s.subrange(12, 14) =~= le_bytes(self.flags as nat, 2));
        assert(s.subrange(14, 16) =~= le_bytes(self.next as nat, 2));
    }

    fn byte_len() -> (n: usize) {
        16
    }

    fn to_bytes(&self) -> (r: Vec<u8>) {
        proof {
            lemma_le_bytes_len(self.addr as nat, 8);
            lemma_le_bytes_len(self.len as nat, 4);
            lemma_le_bytes_len(self.flags as nat, 2);
            lemma_le_bytes_len(self.next as nat, 2);
        }
        let mut r = encode_le(self.addr, 8);
        let mut len = encode_le(self.len as u64, 4);
        let mut flags = encode_le(self.flags as u64, 2);
        let mut next = encode_le(self.next as u64, 2);
        r.append(&mut len);
        r.append(&mut flags);
        r.append(&mut next);
        r
    }

    fn from_bytes(s: &[u8]) -> (r: Descriptor) {
        let addr = &s[0..8];
        let len = &s[8..12];
        let flags = &s[12..14];
        let next = &s[14..16];
        assert(resized(addr@, 8) =~= addr@);
        assert(resized(len@, 4) =~= len@);
        assert(resized(flags@, 2) =~= flags@);
        assert(resized(next@, 2) =~= next@);
        Descriptor {
            addr: read_le_u64(addr),
            len: read_le_u32(len),
            flags: read_le_u16(flags),
            next: read_le_u16(next),
        }
    }
}

/// A descriptor of a chain, with what is needed to find the one after it.
#[derive(Clone, Copy, Debug, PartialEq, Eq, Structural)]
pub struct DescriptorChain {
    pub desc_table: GuestAddress,
    /// Number of descriptors in the table.
    pub queue_size: u16,
    /// How many more descriptors may follow; breaks cycles.
    pub ttl: u16,
    /// Index into the descriptor table.
    pub index: u16,
    /// Guest physical address of device specific data.
    pub addr: GuestAddress,
    /// Length of device specific data.
    pub len: u32,
    /// Next, write, and indirect bits.
    pub flags: u16,
    /// Index of the next descriptor if the next bit is set.
    pub next: u16,
}

/// The descriptor at `index` of a table, if it can be read.
pub open spec fn desc_at(ram: Ram, table: int, index: int) -> Option<Descriptor> {
    if table + 16 * index > u64::MAX {
        None
    } else {
        match ram.read(table + 16 * index, 16) {
            Ok(bytes) => Some(Descriptor::decode(bytes)),
            Err(_) => None,
        }
    }
}

/// The chain that starts at `index`: none if the index is out of the table,
/// the descriptor cannot be read, or it points out of the table.
pub open spec fn chain_at(ram: Ram, table: GuestAddress, size: u16, index: u16) -> Option<
    DescriptorChain,
> {
    if index >= size {
        None
    } else {
        match desc_at(ram, table.0 as int, index as int) {
            None => None,
            Some(d) => {
                let chain = DescriptorChain {
                    desc_table: table,
                    queue_size: size,
                    ttl: size,
                    index,
                    addr: GuestAddress(d.addr),
                    len: d.len,
                    flags: d.flags,
                    next: d.next,
                };
                if chain.links() && chain.next >= size {
                    None
                } else {
                    Some(chain)
                }
            },
        }
    }
}

/// The descriptors from `first` on, in chain order.
pub open spec fn chain_list(ram: Ram, first: Option<DescriptorChain>) -> Seq<DescriptorChain>
    decreases
            (match first {
                Some(c) => c.ttl + 1,
                None => 0,
            }),
{
    match first {
        None => Seq::empty(),
        Some(c) => seq![c] + chain_list(ram, c.successor(ram)),
    }
}

/// The leading read-only descriptors.
pub open spec fn read_only_prefix(list: Seq<DescriptorChain>) -> Seq<DescriptorChain>
    decreases list.len(),
{
    if list.len() == 0 || !list[0].read_only() {
        Seq::empty()
    } else {
        seq![list[0]] + read_only_prefix(list.subrange(1, list.len() as int))
    }
}

/// The descriptors that the device writes.
pub open spec fn device_written(list: Seq<DescriptorChain>) -> Seq<DescriptorChain> {
    list.filter(|d: DescriptorChain| !d.read_only())
}

/// What a walk that starts at `first` is at after `k` steps.
pub open spec fn walked(ram: Ram, first: Option<DescriptorChain>, k: nat) -> Option<DescriptorChain>
    decreases k,
{
    if k == 0 {
        first
    } else {
        match walked(ram, first, (k - 1) as nat) {
            Some(c) => c.successor(ram),
            None => None,
        }
    }
}

/// A chain holds at most as many descriptors as its time to live allows, so
/// following it always ends.
pub proof fn law_chain_is_bounded(ram: Ram, first: DescriptorChain)
    requires
        first.ttl >= 1,
    ensures
        1 <= chain_list(ram, Some(first)).len() <= first.ttl,
    decreases first.ttl,
{
    match first.successor(ram) {
        Some(n) => {
            law_chain_is_bounded(ram, n);
        },
        None => {
            assert(chain_list(ram, None).len() == 0);
        },
    }
}

proof fn lemma_indices_in_table(ram: Ram, first: DescriptorChain, j: int)
    requires
        first.index < first.queue_size,
        0 <= j < chain_list(ram, Some(first)).len(),
    ensures
        chain_list(ram, Some(first))[j].index < first.queue_size,
    decreases j,
{
    let list = chain_list(ram, Some(first));
    match first.successor(ram) {
        Some(n) => {
            if j > 0 {
                lemma_indices_in_table(ram, n, j - 1);
                assert(list[j] == chain_list(ram, Some(n))[j - 1]);
            }
        },
        None => {
            assert(chain_list(ram, None).len() == 0);
        },
    }
}

proof fn lemma_walked(ram: Ram, first: Option<DescriptorChain>, k: nat)
    ensures
        ({
            let list = chain_list(ram, first);
            if k < list.len() {
                walked(ram, first, k) == Some(list[k as int]) && chain_list(ram, walked(ram, first, k))
                    == list.subrange(k as int, list.len() as int)
            } else {
                walked(ram, first, k) is None
            }
        }),
    decreases k,
{
    let list = chain_list(ram, first);
    if k == 0 {
        assert(list.subrange(0, list.len() as int) =~= list);
    } else {
        lemma_walked(ram, first, (k - 1) as nat);
        if k - 1 < list.len() {
            let before = walked(ram, first, (k - 1) as nat);
            let next = walked(ram, first, k);
            let rest = list.subrange(k - 1, list.len() as int);
            assert(rest == seq![list[k - 1]] + chain_list(ram, next));
            assert(rest.subrange(1, rest.len() as int) =~= chain_list(ram, next));
            assert(rest.subrange(1, rest.len() as int) =~= list.subrange(k as int, list.len() as int));
            if k < list.len() {
                assert(chain_list(ram, next)[0] == list[k as int]);
            }
        }
    }
}

/// Whatever the links in memory are, cycles too: a walk over the chain that
/// starts at `index` of a table of `size` descriptors yields that descriptor
/// first, at most `size` in all, each from within the table, and after its end
/// nothing any more.
pub proof fn law_walks_end(ram: Ram, table: GuestAddress, size: u16, index: u16, k: nat)
    requires
        chain_at(ram, table, size, index) is Some,
    ensures
        ({
            let first = chain_at(ram, table, size, index);
            let list = chain_list(ram, first);
            &&& 1 <= list.len() <= size
            &&& list[0].index == index
            &&& k < list.len() ==> walked(ram, first, k) == Some(list[k as int]) && list[k as int].index < size
            &&& k >= list.len() ==> walked(ram, first, k) is None
        }),
{
    let first = chain_at(ram, table, size, index)->0;
    law_chain_is_bounded(ram, first);
    lemma_walked(ram, Some(first), k);
    if k < chain_list(ram, Some(first)).len() {
        lemma_indices_in_table(ram, first, k as int);
    }
}

/// Only what the device writes is yielded as writable, and only what it reads
/// as readable.
pub proof fn law_chain_directions(list: Seq<DescriptorChain>)
    ensures
        forall|i: int|
            0 <= i < device_written(list).len() ==> !(#[trigger] device_written(list)[i]).read_only(),
        forall|i: int|
            0 <= i < read_only_prefix(list).len() ==> (#[trigger] read_only_prefix(list)[i]).read_only(),
    decreases list.len(),
{
    assert forall|i: int| 0 <= i < device_written(list).len() implies !(#[trigger] device_written(
        list,
    )[i]).read_only() by {
        list.lemma_filter_pred(|d: DescriptorChain| !d.read_only(), i);
    }
    if list.len() > 0 && list[0].read_only() {
        let rest = list.subrange(1, list.len() as int);
        law_chain_directions(rest);
        assert forall|i: int| 0 <= i < read_only_prefix(list).len() implies (
        #[trigger] read_only_prefix(list)[i]).read_only() by {
            if i > 0 {
                assert(read_only_prefix(list)[i] == read_only_prefix(rest)[i - 1]);
            }
        }
    }
}

proof fn lemma_written_from(list: Seq<DescriptorChain>, k: int)
    requires
        0 <= k <= list.len(),
        forall|i: int| 0 <= i < k ==> (#[trigger] list[i]).read_only(),
        forall|i: int| k <= i < list.len() ==> !(#[trigger] list[i]).read_only(),
    ensures
        device_written(list) =~= list.subrange(k, list.len() as int),
    decreases list.len(),
{
    reveal(Seq::filter);
    if list.len() > 0 {
        let rest = list.drop_last();
        if k == list.len() {
            lemma_written_from(rest, k - 1);
            assert(list.last().read_only());
        } else {
            lemma_written_from(rest, k);
            assert(!list.last().read_only());
        }
    }
}

proof fn lemma_prefix_ends(list: Seq<DescriptorChain>, k: int)
    requires
        0 <= k <= list.len(),
        forall|i: int| 0 <= i < k ==> (#[trigger] list[i]).read_only(),
        k < list.len() ==> !list[k].read_only(),
    ensures
        read_only_prefix(list) == list.subrange(0, k),
    decreases k,
{
    if k > 0 {
        let rest = list.subrange(1, list.len() as int);
        lemma_prefix_ends(rest, k - 1);
        assert(seq![list[0]] + rest.subrange(0, k - 1) =~= list.subrange(0, k));
    } else {
        assert(list.subrange(0, k) =~= Seq::<DescriptorChain>::empty());
    }
}

/// Where the first `k` descriptors are those that the device reads and the
/// others those that it writes, as drivers order them, the first `k` are the
/// readable and the others the writable part of the chain.
pub proof fn law_chain_splits(list: Seq<DescriptorChain>, k: int)
    requires
        0 <= k <= list.len(),
        forall|i: int| 0 <= i < k ==> (#[trigger] list[i]).read_only(),
        forall|i: int| k <= i < list.len() ==> !(#[trigger] list[i]).read_only(),
    ensures
        read_only_prefix(list) == list.subrange(0, k),
        device_written(list) == list.subrange(k, list.len() as int),
{
    lemma_prefix_ends(list, k);
    lemma_written_from(list, k);
}

impl DescriptorChain {
    /// Whether another descriptor is linked after this one.
    pub open spec fn links(self) -> bool {
        self.flags & VIRTQ_DESC_F_NEXT != 0 && self.ttl > 1
    }

    pub open spec fn read_only(self) -> bool {
        self.flags & VIRTQ_DESC_F_WRITE == 0
    }

    /// The next descriptor of the chain.
    pub open spec fn successor(self, ram: Ram) -> Option<DescriptorChain> {
        if self.links() {
            match chain_at(ram, self.desc_table, self.queue_size, self.next) {
                Some(c) => Some(DescriptorChain { ttl: (self.ttl - 1) as u16, ..c }),
                None => None,
            }
        } else {
            None
        }
    }

    /// The chain that starts at `index` of a descriptor table.
    pub fn checked_new(
        mem: &MemoryManager,
        desc_table: GuestAddress,
        queue_size: u16,
        index: u16,
    ) -> (r: Option<DescriptorChain>)
        requires
            mem.wf(),
        ensures
            r == chain_at(mem.ram(), desc_table, queue_size, index),
    {
        if index >= queue_size {
            return None;
        }
        let desc_addr = match desc_table.checked_add(index as u64 * 16) {
            Some(a) => a,
            None => {
                return None;
            },
        };
        let desc = match mem.read_obj::<Descriptor>(desc_addr) {
            Ok(d) => d,
            Err(_) => {
                return None;
            },
        };
        let chain = DescriptorChain {
            desc_table,
            queue_size,
            ttl: queue_size,
            index,
            addr: GuestAddress(desc.addr),
            len: desc.len,
            flags: desc.flags,
            next: desc.next,
        };
        if chain.is_valid() {
            Some(chain)
        } else {
            None
        }
    }

    /// Whether the link, if there is one, stays within the table.
    fn is_valid(&self) -> (r: bool)
        ensures
            r == !(self.links() && self.next >= self.queue_size),
    {
        !self.has_next() || self.next < self.queue_size
    }

    /// Whether another descriptor is linked after this one.
    pub fn has_next(&self) -> (r: bool)
        ensures
            r == self.links(),
    {
        self.flags & VIRTQ_DESC_F_NEXT != 0 && self.ttl > 1
    }

    /// Whether the device writes this descriptor's buffer and the driver reads it.
    pub fn is_write_only(&self) -> (r: bool)
        ensures
            r == !self.read_only(),
    {
        self.flags & VIRTQ_DESC_F_WRITE != 0
    }

    /// Whether the device reads this descriptor's buffer and the driver writes it.
    pub fn is_read_only(&self) -> (r: bool)
        ensures
            r == self.read_only(),
    {
        self.flags & VIRTQ_DESC_F_WRITE == 0
    }

    /// The next descriptor of the chain, if there is one.
    pub fn next_descriptor(&self, mem: &MemoryManager) -> (r: Option<DescriptorChain>)
        requires
            mem.wf(),
        ensures
            r == self.successor(mem.ram()),
    {
        if self.has_next() {
            match DescriptorChain::checked_new(mem, self.desc_table, self.queue_size, self.next) {
                Some(c) => {
                    let mut c = c;
                    c.ttl = self.ttl - 1;
                    Some(c)
                },
                None => None,
            }
        } else {
            None
        }
    }

    /// A walk over the descriptors of the chain.
    pub fn into_iter(self) -> (r: DescIter)
        ensures
            r.next == Some(self),
    {
        DescIter { next: Some(self) }
    }

    pub fn descriptor(&self) -> (r: Descriptor)
        ensures
            r == (Descriptor {
                addr: self.addr.0,
                len: self.len,
                flags: self.flags,
                next: self.next,
            }),
    {
        Descriptor { addr: self.addr.0, len: self.len, flags: self.flags, next: self.next }
    }
}

/// A walk over the descriptors of a single chain.
#[derive(Clone, Copy, Debug, PartialEq, Eq, Structural)]
pub struct DescIter {
    pub next: Option<DescriptorChain>,
}

impl DescIter {
    /// The current descriptor; the walk moves on to the next one.
    pub fn next(&mut self, mem: &MemoryManager) -> (r: Option<DescriptorChain>)
        requires
            mem.wf(),
        ensures
            r == old(self).next,
            final(self).next == (match old(self).next {
                Some(c) => c.successor(mem.ram()),
                None => None,
            }),
    {
        match self.next {
            Some(current) => {
                self.next = current.next_descriptor(mem);
                Some(current)
            },
            None => None,
        }
    }

    /// All the descriptors from here on.
    pub fn collect(self, mem: &MemoryManager) -> (r: Vec<DescriptorChain>)
        requires
            mem.wf(),
        ensures
            r@ == chain_list(mem.ram(), self.next),
    {
        let mut walk = self;
        let mut r: Vec<DescriptorChain> = Vec::new();
        let ghost ram = mem.ram();
        assert(r@ + chain_list(ram, walk.next) =~= chain_list(ram, self.next));
        while walk.next.is_some()
            invariant
                mem.wf(),
                ram == mem.ram(),
                r@ + chain_list(ram, walk.next) == chain_list(ram, self.next),
            decreases
                    (match walk.next {
                        Some(c) => c.ttl + 1,
                        None => 0,
                    }),
        {
            let ghost before = r@;
            if let Some(c) = walk.next(mem) {
                r.push(c);
                assert(before + (seq![c] + chain_list(ram, walk.next)) =~= r@ + chain_list(
                    ram,
                    walk.next,
                ));
            }
        }
        assert(r@ + chain_list(ram, walk.next) =~= r@);
        r
    }

    /// Only the readable descriptors of the chain: those before the first one
    /// that the device writes.
    pub fn readable(self, mem: &MemoryManager) -> (r: Vec<DescriptorChain>)
        requires
            mem.wf(),
        ensures
            r@ == read_only_prefix(chain_list(mem.ram(), self.next)),
    {
        let all = self.collect(mem);
        let mut r: Vec<DescriptorChain> = Vec::new();
        let mut i: usize = 0;
        assert(all@.subrange(0, all@.len() as int) =~= all@);
        assert(r@ + read_only_prefix(all@) =~= read_only_prefix(all@));
        while i < all.len() && all[i].is_read_only()
            invariant
                i <= all@.len(),
                r@ + read_only_prefix(all@.subrange(i as int, all@.len() as int)) == read_only_prefix(
                    all@,
                ),
            decreases all@.len() - i,
        {
            let ghost rest = all@.subrange(i as int, all@.len() as int);
            let ghost tail = all@.subrange(i + 1, all@.len() as int);
            let ghost before = r@;
            assert(rest.subrange(1, rest.len() as int) =~= tail);
            r.push(all[i]);
            assert(before + (seq![rest[0]] + read_only_prefix(tail)) =~= r@ + read_only_prefix(tail));
            i += 1;
        }
        assert(r@ + Seq::<DescriptorChain>::empty() =~= r@);
        r
    }

    /// Only the writable descriptors of the chain.
    pub fn writable(self, mem: &MemoryManager) -> (r: Vec<DescriptorChain>)
        requires
            mem.wf(),
        ensures
            r@ == chain_list(mem.ram(), self.next).filter(|d: DescriptorChain| !d.read_only()),
    {
        let all = self.collect(mem);
        let mut r: Vec<DescriptorChain> = Vec::new();
        let mut i: usize = 0;
        assert(device_written(all@.subrange(0, 0)) =~= r@) by {
            reveal(Seq::filter);
        }
        while i < all.len()
            invariant
                i <= all@.len(),
                r@ == device_written(all@.subrange(0, i as int)),
            decreases all@.len() - i,
        {
            let ghost upto = all@.subrange(0, i + 1);
            assert(upto.drop_last() =~= all@.subrange(0, i as int));
            proof {
                reveal(Seq::filter);
            }
            if !all[i].is_read_only() {
                r.push(all[i]);
            }
            i += 1;
        }
        assert(all@.subrange(0, i as int) =~= all@);
        r
    }
}

/// A virtio queue's parameters.
#[derive(Clone, Copy, Debug, PartialEq, Eq, Structural)]
pub struct Queue {
    /// The maximal size in elements offered by the device.
    pub max_size: u16,
    /// The queue size in elements the driver selected.
    pub size: u16,
    /// Indicates if the queue is finished with configuration.
    pub ready: bool,
    /// Guest physical address of the descriptor table.
    pub desc_table: GuestAddress,
    /// Guest physical address of the available ring.
    pub avail_ring: GuestAddress,
    /// Guest physical address of the used ring.
    pub used_ring: GuestAddress,
    /// Position in the available ring of the next chain to pop.
    pub next_avail: u16,
    /// Position in the used ring of the next element to add.
    pub next_used: u16,
    /// Whether event indices were negotiated.
    pub event_idx_enabled: bool,
    /// How many chains were added to the used ring since the driver was last
    /// considered for a notification.
    pub num_added: u16,
}

/// `a + b` in the circular sequence space of ring positions.
pub open spec fn plus16(a: u16, b: int) -> u16 {
    ((a + b) % 0x1_0000) as u16
}

/// Whether `n` bytes at `addr` can be loaded in one step.
pub open spec fn loadable(layout: Seq<RegionLayout>, addr: int, n: int) -> bool {
    &&& addr <= u64::MAX
    &&& find(layout, addr) matches Some(k) && layout[k].perms.read && layout[k].mapped && addr + n - 1
        <= layout[k].last()
}

/// Whether `n` bytes at `addr` can be read.
pub open spec fn readable_at(layout: Seq<RegionLayout>, addr: int, n: int) -> bool {
    find(layout, addr) matches Some(k) && layout[k].perms.read && layout[k].mapped && addr + n
        <= layout[k].last()
}

impl Queue {
    pub open spec fn actual(self) -> u16 {
        if self.size <= self.max_size {
            self.size
        } else {
            self.max_size
        }
    }

    /// Where the available ring keeps its index.
    pub open spec fn avail_idx_addr(self) -> int {
        self.avail_ring.0 + 2
    }

    /// The index that the driver has published in the available ring.
    pub open spec fn avail_idx_spec(self, ram: Ram) -> Result<u16, Error> {
        if self.avail_idx_addr() > u64::MAX {
            Err(Error::AddressOverflow)
        } else {
            match ram.load(self.avail_idx_addr(), 2) {
                Ok(b) => Ok(u16::decode(b)),
                Err(e) => Err(Error::GuestMemory(e)),
            }
        }
    }

    /// How many chains the driver has made available and that were not popped.
    pub open spec fn pending(self, ram: Ram) -> u16 {
        plus16(self.avail_idx_spec(ram)->Ok_0, -self.next_avail)
    }

    /// Where the ring entry for position `pos` lies.
    pub open spec fn slot_addr(self, pos: int) -> int {
        self.avail_ring.0 + 4 + 2 * (pos % (self.actual() as int))
    }

    /// The ring entry for position `pos` can be read.
    pub open spec fn slot_ok(self, layout: Seq<RegionLayout>, pos: int) -> bool {
        readable_at(layout, self.slot_addr(pos), 2)
    }

    /// The descriptor index in the ring entry for position `pos`.
    pub open spec fn slot(self, ram: Ram, pos: int) -> u16 {
        u16::decode(ram.read(self.slot_addr(pos), 2)->Ok_0)
    }

    /// The chain that is next to be popped, if the driver has made one
    /// available and its first descriptor is sound.
    pub open spec fn front(self, ram: Ram) -> Option<DescriptorChain> {
        if self.pending(ram) == 0 || self.actual() == 0 {
            None
        } else {
            chain_at(ram, self.desc_table, self.actual(), self.slot(ram, self.next_avail as int))
        }
    }

    /// The driver's ring lies where the queue can read it.
    pub open spec fn reachable(self, layout: Seq<RegionLayout>) -> bool {
        &&& loadable(layout, self.avail_idx_addr(), 2)
        &&& forall|pos: int|
            #![trigger self.slot_ok(layout, pos)]
            0 <= pos < 0x1_0000 && self.actual() > 0 ==> self.slot_ok(layout, pos)
        &&& self.event_idx_enabled ==> loadable(layout, self.used_event_addr(), 2)
    }

    /// Where the element of the used ring for position `pos` lies.
    pub open spec fn used_addr(self, pos: int) -> int {
        self.used_ring.0 + 4 + 8 * (pos % (self.size as int))
    }

    /// What adding a chain to the used ring gives: the result, the queue and
    /// memory afterwards. An element that cannot be written is skipped.
    pub open spec fn add_used_spec(self, ram: Ram, head: u16, len: u32) -> (
        Result<(), Error>,
        Queue,
        Ram,
    ) {
        if head >= self.size {
            (Err(Error::InvalidDescriptorIndex), self, ram)
        } else if self.used_addr(self.next_used as int) > u64::MAX {
            (Err(Error::AddressOverflow), self, ram)
        } else {
            let elem = VirtqUsedElem { id: head as u32, len };
            let written = match ram.write(self.used_addr(self.next_used as int), elem.encode()) {
                Ok(after) => after,
                Err(_) => ram,
            };
            let next = Queue {
                next_used: plus16(self.next_used, 1),
                num_added: plus16(self.num_added, 1),
                ..self
            };
            match written.store(self.used_ring.0 + 2, next.next_used.encode()) {
                Ok(after) => (Ok(()), next, after),
                Err(e) => (Err(Error::GuestMemory(e)), next, written),
            }
        }
    }

    /// Where the driver publishes the used position that it wants to hear of.
    pub open spec fn used_event_addr(self) -> int {
        self.avail_ring.0 + 4 + 2 * self.size
    }

    pub open spec fn used_event_spec(self, ram: Ram) -> Result<u16, Error> {
        if self.used_event_addr() > u64::MAX {
            Err(Error::AddressOverflow)
        } else {
            match ram.load(self.used_event_addr(), 2) {
                Ok(b) => Ok(u16::decode(b)),
                Err(e) => Err(Error::GuestMemory(e)),
            }
        }
    }

    /// Where the device publishes the available position that it wants to
    /// hear of.
    pub open spec fn avail_event_addr(self) -> int {
        self.used_ring.0 + 4 + 8 * self.size
    }

    /// What asking for or declining notifications does to memory.
    pub open spec fn set_notification_spec(self, ram: Ram, enable: bool) -> Result<Ram, Error> {
        if self.event_idx_enabled {
            if !enable {
                Ok(ram)
            } else if self.avail_event_addr() > u64::MAX {
                Err(Error::AddressOverflow)
            } else {
                match ram.store(self.avail_event_addr(), self.next_avail.encode()) {
                    Ok(after) => Ok(after),
                    Err(e) => Err(Error::GuestMemory(e)),
                }
            }
        } else {
            let flags: u16 = if enable {
                0
            } else {
                VRING_USED_F_NO_NOTIFY
            };
            match ram.store(self.used_ring.0 as int, flags.encode()) {
                Ok(after) => Ok(after),
                Err(e) => Err(Error::GuestMemory(e)),
            }
        }
    }

    /// What asking for notifications comes to: memory afterwards, and whether
    /// chains are waiting already.
    pub open spec fn enable_spec(self, ram: Ram) -> (Ram, Result<bool, Error>) {
        match self.set_notification_spec(ram, true) {
            Ok(after) => (
                after,
                match self.avail_idx_spec(after) {
                    Ok(idx) => Ok(idx != self.next_avail),
                    Err(e) => Err(e),
                },
            ),
            Err(e) => (ram, Err(e)),
        }
    }

    /// Going on to the next round of serving the queue: memory afterwards, and
    /// whether there is a round to serve. Once the queue was found empty, the
    /// driver is asked for notifications first, and there is a round only if
    /// chains are waiting already. A round is served without notifications.
    pub open spec fn round_spec(self, ram: Ram, idle: bool) -> (Ram, Result<bool, Error>) {
        let (asked, waiting) = if idle {
            self.enable_spec(ram)
        } else {
            (ram, Ok(true))
        };
        if waiting == Ok::<bool, Error>(true) {
            match self.set_notification_spec(asked, false) {
                Ok(after) => (after, Ok(true)),
                Err(e) => (asked, Err(e)),
            }
        } else {
            (asked, waiting)
        }
    }

    /// The driver's event position `event` is among the positions that were
    /// used since it was last considered.
    pub open spec fn crossed(self, event: u16) -> bool {
        plus16(plus16(self.next_used, -event), -1) < self.num_added
    }

    /// Constructs an empty virtio queue with the given `max_size`.
    pub fn new(max_size: u16) -> (r: Queue)
        ensures
            r == (Queue {
                max_size,
                size: 0,
                ready: false,
                desc_table: GuestAddress(0),
                avail_ring: GuestAddress(0),
                used_ring: GuestAddress(0),
                next_avail: 0,
                next_used: 0,
                event_idx_enabled: false,
                num_added: 0,
            }),
    {
        Queue {
            max_size,
            size: 0,
            ready: false,
            desc_table: GuestAddress(0),
            avail_ring: GuestAddress(0),
            used_ring: GuestAddress(0),
            next_avail: 0,
            next_used: 0,
            event_idx_enabled: false,
            num_added: 0,
        }
    }

    pub fn get_max_size(&self) -> (r: u16)
        ensures
            r == self.max_size,
    {
        self.max_size
    }

    /// The size in use: the driver may not set up a queue as big as the device
    /// allows.
    pub fn actual_size(&self) -> (r: u16)
        ensures
            r == self.actual(),
    {
        if self.size <= self.max_size {
            self.size
        } else {
            self.max_size
        }
    }

    /// Whether the end of a structure of `size` bytes at `base` lies in memory.
    fn end_in_range(mem: &MemoryManager, base: GuestAddress, size: u64) -> (r: bool)
        requires
            mem.wf(),
        ensures
            r == (base.0 + size <= u64::MAX && find(mem.ram().layout, base.0 + size) is Some),
    {
        match base.checked_add(size) {
            Some(end) => mem.address_in_range(end),
            None => false,
        }
    }

    /// Whether the driver has set the queue up soundly: it is ready, its size
    /// is a power of two within the maximum, the ends of its three parts lie
    /// in memory, and the parts are aligned.
    pub fn is_valid(&self, mem: &MemoryManager) -> (r: bool)
        requires
            mem.wf(),
        ensures
            r == {
                &&& self.ready
                &&& 0 < self.size <= self.max_size
                &&& self.size & (self.size - 1) as u16 == 0
                &&& self.desc_table.0 + 16 * self.size <= u64::MAX
                &&& find(mem.ram().layout, self.desc_table.0 + 16 * self.size) is Some
                &&& self.avail_ring.0 + 6 + 2 * self.size <= u64::MAX
                &&& find(mem.ram().layout, self.avail_ring.0 + 6 + 2 * self.size) is Some
                &&& self.used_ring.0 + 6 + 8 * self.size <= u64::MAX
                &&& find(mem.ram().layout, self.used_ring.0 + 6 + 8 * self.size) is Some
                &&& self.desc_table.0 & 0xf == 0
                &&& self.avail_ring.0 & 0x1 == 0
                &&& self.used_ring.0 & 0x3 == 0
            },
    {
        let queue_size: u64 = self.actual_size() as u64;
        if !self.ready {
            false
        } else if self.size > self.max_size || self.size == 0 || (self.size & (self.size - 1)) != 0 {
            false
        } else if !Queue::end_in_range(mem, self.desc_table, 16 * queue_size) {
            false
        } else if !Queue::end_in_range(mem, self.avail_ring, 6 + 2 * queue_size) {
            false
        } else if !Queue::end_in_range(mem, self.used_ring, 6 + 8 * queue_size) {
            false
        } else if self.desc_table.raw_value() & 0xf != 0 {
            false
        } else if self.avail_ring.raw_value() & 0x1 != 0 {
            false
        } else if self.used_ring.raw_value() & 0x3 != 0 {
            false
        } else {
            true
        }
    }

    /// The index that the driver has published in the available ring.
    fn avail_idx(&self, mem: &MemoryManager) -> (r: Result<u16, Error>)
        requires
            mem.wf(),
        ensures
            r == self.avail_idx_spec(mem.ram()),
    {
        match self.avail_ring.checked_add(2) {
            None => Err(Error::AddressOverflow),
            Some(addr) => match mem.load::<u16>(addr) {
                Ok(v) => Ok(v),
                Err(e) => Err(Error::GuestMemory(e)),
            },
        }
    }

    /// The number of yet-to-be-popped descriptor chains in the available ring.
    pub fn len(&self, mem: &MemoryManager) -> (r: u16)
        requires
            mem.wf(),
            self.avail_idx_spec(mem.ram()) is Ok,
        ensures
            r == self.pending(mem.ram()),
    {
        match self.avail_idx(mem) {
            Ok(idx) => idx.wrapping_sub(self.next_avail),
            Err(_) => 0,
        }
    }

    /// Whether the driver has made no descriptor chain available.
    pub fn is_empty(&self, mem: &MemoryManager) -> (r: bool)
        requires
            mem.wf(),
            self.avail_idx_spec(mem.ram()) is Ok,
        ensures
            r == (self.pending(mem.ram()) == 0),
    {
        self.len(mem) == 0
    }

    /// Pops the first available descriptor chain from the available ring.
    pub fn pop(&mut self, mem: &MemoryManager) -> (r: Option<DescriptorChain>)
        requires
            mem.wf(),
            old(self).avail_idx_spec(mem.ram()) is Ok,
            old(self).pending(mem.ram()) != 0 && old(self).actual() != 0 ==> mem.ram().read(
                old(self).slot_addr(old(self).next_avail as int),
                2,
            ) is Ok,
        ensures
            r == old(self).front(mem.ram()),
            *final(self) == (if r is Some {
                Queue { next_avail: plus16(old(self).next_avail, 1), ..*old(self) }
            } else {
                *old(self)
            }),
    {
        if self.len(mem) == 0 || self.actual_size() == 0 {
            return None;
        }
        let index_offset: u64 = 4 + 2 * ((self.next_avail % self.actual_size()) as u64);
        proof {
            mem.lemma_ram_wf();
            lemma_find_from(mem.ram().layout, self.slot_addr(self.next_avail as int), 0);
        }
        let slot = self.avail_ring.unchecked_add(index_offset);
        let desc_index: u16 = match mem.read_obj::<u16>(slot) {
            Ok(v) => v,
            Err(_) => 0,
        };
        let chain = DescriptorChain::checked_new(
            mem,
            self.desc_table,
            self.actual_size(),
            desc_index,
        );
        if chain.is_some() {
            self.next_avail = self.next_avail.wrapping_add(1);
        }
        chain
    }

    /// Undoes the last `pop`: the chain is the next one again.
    pub fn undo_pop(&mut self)
        ensures
            *final(self) == (Queue { next_avail: plus16(old(self).next_avail, -1), ..*old(self) }),
    {
        self.next_avail = self.next_avail.wrapping_sub(1);
    }

    /// Hands a chain back to the driver: puts it into the used ring and
    /// publishes the new used position.
    pub fn add_used(&mut self, mem: &mut MemoryManager, head_index: u16, len: u32) -> (r: Result<
        (),
        Error,
    >)
        requires
            old(mem).wf(),
        ensures
            final(mem).wf(),
            final(mem).same_but_bytes(*old(mem)),
            (r, *final(self), final(mem).ram()) == old(self).add_used_spec(
                old(mem).ram(),
                head_index,
                len,
            ),
            ({
                let at = old(self).used_ring.0 + 4 + 8 * (old(self).next_used as int % old(
                    self,
                ).size as int);
                r is Ok && open_at(old(mem).ram(), at, 8) ==> (final(mem).ram().read(at, 8) matches Ok(b)
                    && b.len() == 8 && digits(b, 0, 4) == head_index && digits(b, 4, 4) == len)
            }),
    {
        proof {
            mem.lemma_ram_wf();
            if self.add_used_spec(mem.ram(), head_index, len).0 is Ok {
                law_used_element_in_memory(*self, mem.ram(), head_index, len);
            }
        }
        if head_index >= self.size {
            return Err(Error::InvalidDescriptorIndex);
        }
        let next_used_index: u64 = (self.next_used % self.size) as u64;
        let offset: u64 = VIRTQ_USED_RING_HEADER_SIZE + next_used_index * VIRTQ_USED_ELEMENT_SIZE;
        let addr = match self.used_ring.checked_add(offset) {
            Some(a) => a,
            None => {
                return Err(Error::AddressOverflow);
            },
        };
        let _ = mem.write_obj(VirtqUsedElem::new(head_index as u32, len), addr);
        self.next_used = self.next_used.wrapping_add(1);
        self.num_added = self.num_added.wrapping_add(1);
        match self.used_ring.checked_add(2) {
            None => Err(Error::AddressOverflow),
            Some(a) => match mem.store(self.next_used, a) {
                Ok(()) => Ok(()),
                Err(e) => Err(Error::GuestMemory(e)),
            },
        }
    }

    /// The used position that the driver wants to hear of.
    fn used_event(&self, mem: &MemoryManager) -> (r: Result<u16, Error>)
        requires
            mem.wf(),
        ensures
            r == self.used_event_spec(mem.ram()),
    {
        let offset: u64 = VIRTQ_AVAIL_RING_HEADER_SIZE + self.size as u64 * VIRTQ_AVAIL_ELEMENT_SIZE;
        match self.avail_ring.checked_add(offset) {
            None => Err(Error::AddressOverflow),
            Some(addr) => match mem.load::<u16>(addr) {
                Ok(v) => Ok(v),
                Err(e) => Err(Error::GuestMemory(e)),
            },
        }
    }

    pub fn set_event_idx(&mut self, enabled: bool)
        ensures
            *final(self) == (Queue { event_idx_enabled: enabled, ..*old(self) }),
    {
        self.event_idx_enabled = enabled;
    }

    /// Asks the driver for notifications, or declines them.
    fn set_notification(&mut self, mem: &mut MemoryManager, enable: bool) -> (r: Result<(), Error>)
        requires
            old(mem).wf(),
        ensures
            final(mem).wf(),
            final(mem).same_but_bytes(*old(mem)),
            *final(self) == *old(self),
            match old(self).set_notification_spec(old(mem).ram(), enable) {
                Ok(after) => r is Ok && final(mem).ram() == after,
                Err(e) => r == Err::<(), Error>(e) && final(mem).ram() == old(mem).ram(),
            },
    {
        if self.event_idx_enabled {
            if !enable {
                return Ok(());
            }
            let offset: u64 = VIRTQ_USED_RING_HEADER_SIZE + VIRTQ_USED_ELEMENT_SIZE * self.size as u64;
            match self.used_ring.checked_add(offset) {
                None => Err(Error::AddressOverflow),
                Some(addr) => match mem.store(self.next_avail, addr) {
                    Ok(()) => Ok(()),
                    Err(e) => Err(Error::GuestMemory(e)),
                },
            }
        } else {
            let flags: u16 = if enable {
                0
            } else {
                VRING_USED_F_NO_NOTIFY
            };
            match mem.store(flags, self.used_ring) {
                Ok(()) => Ok(()),
                Err(e) => Err(Error::GuestMemory(e)),
            }
        }
    }

    /// Asks the driver for notifications, and tells whether chains are
    /// waiting already.
    pub fn enable_notification(&mut self, mem: &mut MemoryManager) -> (r: Result<bool, Error>)
        requires
            old(mem).wf(),
        ensures
            final(mem).wf(),
            final(mem).same_but_bytes(*old(mem)),
            *final(self) == *old(self),
            (final(mem).ram(), r) == old(self).enable_spec(old(mem).ram()),
    {
        if let Err(e) = self.set_notification(mem, true) {
            return Err(e);
        }
        match self.avail_idx(mem) {
            Ok(idx) => Ok(idx != self.next_avail),
            Err(e) => Err(e),
        }
    }

    /// Tells the driver that notifications are not needed.
    pub fn disable_notification(&mut self, mem: &mut MemoryManager) -> (r: Result<(), Error>)
        requires
            old(mem).wf(),
        ensures
            final(mem).wf(),
            final(mem).same_but_bytes(*old(mem)),
            *final(self) == *old(self),
            match old(self).set_notification_spec(old(mem).ram(), false) {
                Ok(after) => r is Ok && final(mem).ram() == after,
                Err(e) => r == Err::<(), Error>(e) && final(mem).ram() == old(mem).ram(),
            },
    {
        self.set_notification(mem, false)
    }

    /// Goes on to the next round of serving the queue, after it was found empty
    /// or for the first time. Tells whether there is a round to serve.
    pub fn round(&mut self, mem: &mut MemoryManager, idle: bool) -> (r: Result<bool, Error>)
        requires
            old(mem).wf(),
        ensures
            final(mem).wf(),
            final(mem).same_but_bytes(*old(mem)),
            *final(self) == *old(self),
            (final(mem).ram(), r) == old(self).round_spec(old(mem).ram(), idle),
    {
        if idle {
            match self.enable_notification(mem) {
                Ok(true) => {},
                other => {
                    return other;
                },
            }
        }
        match self.disable_notification(mem) {
            Ok(()) => Ok(true),
            Err(e) => Err(e),
        }
    }

    /// What asking for a notification decision gives, and the queue afterwards.
    pub open spec fn notification_spec(self, ram: Ram) -> (Result<bool, Error>, Queue) {
        if self.event_idx_enabled {
            match self.used_event_spec(ram) {
                Ok(event) => (Ok(self.crossed(event)), Queue { num_added: 0, ..self }),
                Err(e) => (Err(e), Queue { num_added: 0, ..self }),
            }
        } else {
            (Ok(true), Queue { num_added: 0, ..self })
        }
    }

    /// Whether the driver must be notified of the chains added to the used
    /// ring since this was last asked. Without event indices it always must;
    /// with them, if the position that it waits for is among those used. The
    /// count of added chains starts anew with each call.
    pub fn needs_notification(&mut self, mem: &MemoryManager) -> (r: Result<bool, Error>)
        requires
            mem.wf(),
        ensures
            (r, *final(self)) == old(self).notification_spec(mem.ram()),
    {
        let used_idx: u16 = self.next_used;
        let before: u16 = used_idx.wrapping_sub(self.num_added);
        self.num_added = 0;
        if self.event_idx_enabled {
            let event: u16 = match self.used_event(mem) {
                Ok(v) => v,
                Err(e) => {
                    return Err(e);
                },
            };
            return Ok(used_idx.wrapping_sub(event).wrapping_sub(1) < used_idx.wrapping_sub(before));
        }
        Ok(true)
    }

    /// Handing a chain back and deciding whether to notify the driver: the
    /// queue, memory and the decision.
    pub open spec fn handed_back(self, ram: Ram, head: u16, len: u32) -> (Queue, Ram, bool) {
        let (_, q1, after) = self.add_used_spec(ram, head, len);
        let (notify, q2) = q1.notification_spec(after);
        (q2, after, notify->Ok_0)
    }

    /// Hands a chain back, whatever comes of it, and decides whether the
    /// driver must be notified.
    pub fn hand_back(&mut self, mem: &mut MemoryManager, head_index: u16, len: u32) -> (r: bool)
        requires
            old(mem).wf(),
            old(self).reachable(old(mem).ram().layout),
        ensures
            final(mem).wf(),
            final(mem).same_but_bytes(*old(mem)),
            final(self).reachable(final(mem).ram().layout),
            (*final(self), final(mem).ram(), r) == old(self).handed_back(
                old(mem).ram(),
                head_index,
                len,
            ),
    {
        let ghost layout = mem.ram().layout;
        let ghost q0 = *self;
        let _ = self.add_used(mem, head_index, len);
        proof {
            lemma_reachable_progress(q0, *self, layout);
        }
        let ghost q1 = *self;
        let notify = self.needs_notification(mem);
        proof {
            lemma_reachable_progress(q1, *self, layout);
        }
        match notify {
            Ok(n) => n,
            Err(_) => false,
        }
    }

    /// Hands a chain back, whatever comes of it.
    pub fn give_back(&mut self, mem: &mut MemoryManager, head_index: u16, len: u32)
        requires
            old(mem).wf(),
        ensures
            final(mem).wf(),
            final(mem).same_but_bytes(*old(mem)),
            old(self).reachable(old(mem).ram().layout) ==> final(self).reachable(final(mem).ram().layout),
            *final(self) == old(self).add_used_spec(old(mem).ram(), head_index, len).1,
            final(mem).ram() == old(self).add_used_spec(old(mem).ram(), head_index, len).2,
    {
        let ghost layout = mem.ram().layout;
        let ghost q0 = *self;
        let _ = self.add_used(mem, head_index, len);
        proof {
            if q0.reachable(layout) {
                lemma_reachable_progress(q0, *self, layout);
            }
        }
    }

    /// The queue after the front chain was popped.
    pub open spec fn popped(self) -> Queue {
        Queue { next_avail: plus16(self.next_avail, 1), ..self }
    }

    /// Pops the front chain of a queue whose parts are in reach.
    pub fn take_chain(&mut self, mem: &MemoryManager) -> (r: Option<DescriptorChain>)
        requires
            mem.wf(),
            old(self).reachable(mem.ram().layout),
        ensures
            final(self).reachable(mem.ram().layout),
            r == old(self).front(mem.ram()),
            *final(self) == (if r is Some { old(self).popped() } else { *old(self) }),
    {
        let ghost q0 = *self;
        let ghost layout = mem.ram().layout;
        assert(q0.actual() > 0 ==> q0.slot_ok(layout, q0.next_avail as int));
        let r = self.pop(mem);
        proof {
            lemma_reachable_progress(q0, *self, layout);
        }
        r
    }

    /// Goes back one position in the available ring.
    pub fn go_to_previous_position(&mut self)
        ensures
            *final(self) == (Queue { next_avail: plus16(old(self).next_avail, -1), ..*old(self) }),
    {
        self.next_avail = self.next_avail.wrapping_sub(1);
    }
}

/// Nothing lies beyond the end of the address space.
proof fn lemma_nothing_beyond(mem: MemoryManager, addr: int)
    requires
        mem.wf(),
        addr > u64::MAX,
    ensures
        find(mem.ram().layout, addr) is None,
{
    mem.lemma_ram_wf();
    lemma_find_from(mem.ram().layout, addr, 0);
}

/// How many bytes of its region follow the one at `base + offset`, and whether
/// they can be read; nothing where no memory is.
fn bytes_after(mem: &MemoryManager, base: GuestAddress, offset: u64) -> (r: Option<(u64, bool)>)
    requires
        mem.wf(),
    ensures
        r == (match find(mem.ram().layout, base.0 + offset) {
            Some(k) => Some(
                (
                    (mem.ram().layout[k].last() - base.0 - offset) as u64,
                    mem.ram().layout[k].perms.read && mem.ram().layout[k].mapped,
                ),
            ),
            None => None,
        }),
        r matches Some((n, _)) ==> base.0 + offset + n <= u64::MAX && (find(
            mem.ram().layout,
            base.0 + offset,
        ) matches Some(k) && base.0 + offset + n == mem.ram().layout[k].last()),
{
    match base.checked_add(offset) {
        None => {
            proof {
                lemma_nothing_beyond(*mem, base.0 + offset);
            }
            None
        },
        Some(addr) => match mem.find_region_index(addr) {
            None => None,
            Some(k) => {
                assert(mem.regions@[k as int].wf());
                let region = &mem.regions[k];
                Some((region.last_addr().0 - addr.0, region.perms.read && region.hpa.is_some()))
            },
        },
    }
}

impl Queue {
    /// Whether the driver's ring lies where the queue can read it, so that it
    /// can be served.
    pub fn is_reachable(&self, mem: &MemoryManager) -> (r: bool)
        requires
            mem.wf(),
        ensures
            r == self.reachable(mem.ram().layout),
    {
        let ghost layout = mem.ram().layout;
        let ghost q = *self;
        match bytes_after(mem, self.avail_ring, 2) {
            Some((after, true)) if after >= 1 => {},
            _ => {
                return false;
            },
        }
        let actual: u16 = self.actual_size();
        let mut i: u16 = 0;
        while i < actual
            invariant
                mem.wf(),
                layout == mem.ram().layout,
                q == *self,
                actual == q.actual(),
                i <= actual,
                forall|j: int| #![trigger q.slot_ok(layout, j)] 0 <= j < i ==> q.slot_ok(layout, j),
            decreases actual - i,
        {
            let offset: u64 = 4 + 2 * (i as u64);
            proof {
                lemma_small_mod(i as nat, actual as nat);
            }
            match bytes_after(mem, self.avail_ring, offset) {
                Some((after, true)) if after >= 2 => {},
                _ => {
                    assert(!q.slot_ok(layout, i as int));
                    return false;
                },
            }
            assert(q.slot_ok(layout, i as int));
            i += 1;
        }
        assert forall|pos: int| #![trigger q.slot_ok(layout, pos)]
            0 <= pos < 0x1_0000 && q.actual() > 0 implies q.slot_ok(layout, pos) by {
            let j = pos % (actual as int);
            lemma_mod_bound(pos, actual as int);
            lemma_small_mod(j as nat, actual as nat);
            assert(q.slot_ok(layout, j));
        }
        if self.event_idx_enabled {
            match bytes_after(mem, self.avail_ring, 4 + 2 * (self.size as u64)) {
                Some((after, true)) => after >= 1,
                _ => false,
            }
        } else {
            true
        }
    }
}

/// Undoing a pop that gave a chain restores the queue in every field, also
/// where the position wraps, and the next pop gives the same chain again.
pub proof fn law_undo_pop(q: Queue, popped: Queue, undone: Queue, ram: Ram)
    requires
        q.front(ram) is Some,
        popped == q.popped(),
        undone == (Queue { next_avail: plus16(popped.next_avail, -1), ..popped }),
    ensures
        undone == q,
        undone.front(ram) == q.front(ram),
{
}

/// After a chain was handed back, the driver finds the new used position in
/// the used ring.
pub proof fn law_used_position_is_published(q: Queue, ram: Ram, head: u16, len: u32)
    requires
        ram.wf(),
    ensures
        ({
            let (r, q2, ram2) = q.add_used_spec(ram, head, len);
            r is Ok ==> {
                &&& q2.next_used == plus16(q.next_used, 1)
                &&& (find(ram.layout, q.used_ring.0 + 2) matches Some(k) && ram.layout[k].perms.read
                    ==> ram2.load(q.used_ring.0 + 2, 2) == Ok::<Seq<u8>, MemoryError>(
                    q2.next_used.encode(),
                ))
            }
        }),
{
    let (r, q2, ram2) = q.add_used_spec(ram, head, len);
    if r is Ok {
        let elem = VirtqUsedElem { id: head as u32, len };
        elem.decode_of_encode();
        crate::memory::memory::law_write_keeps_layout(
            ram,
            q.used_addr(q.next_used as int),
            elem.encode(),
        );
        let written = match ram.write(q.used_addr(q.next_used as int), elem.encode()) {
            Ok(after) => after,
            Err(_) => ram,
        };
        q2.next_used.decode_of_encode();
        crate::memory::memory::law_load_after_store(
            written,
            q.used_ring.0 + 2,
            q2.next_used.encode(),
        );
    }
}

/// With event indices, the driver is notified exactly if the position that it
/// waits for is one of the positions used since it was last considered: those
/// from `next_used - num_added` up to but not including `next_used`.
pub proof fn law_notification_window(q: Queue, event: u16)
    ensures
        q.crossed(event) <==> exists|i: int|
            0 <= i < q.num_added && event == #[trigger] plus16(
                plus16(q.next_used, -q.num_added),
                i,
            ),
{
    let start = plus16(q.next_used, -q.num_added);
    let d = plus16(plus16(q.next_used, -event), -1);
    lemma_plus16(q.next_used, -event);
    lemma_plus16(plus16(q.next_used, -event), -1);
    lemma_plus16(q.next_used, -q.num_added);
    if q.crossed(event) {
        let i = q.num_added - 1 - d;
        lemma_plus16(start, i);
        assert(event == plus16(start, i));
    }
    if exists|i: int| 0 <= i < q.num_added && event == #[trigger] plus16(start, i) {
        let i = choose|i: int| 0 <= i < q.num_added && event == #[trigger] plus16(start, i);
        lemma_plus16(start, i);
        assert(d == q.num_added - 1 - i);
    }
}

/// A step of less than a whole round wraps at most once.
proof fn lemma_plus16(a: u16, b: int)
    requires
        -0x1_0000 <= b <= 0x1_0000,
    ensures
        plus16(a, b) == (if a + b >= 0x1_0000 {
            if a + b >= 0x2_0000 {
                a + b - 0x2_0000
            } else {
                a + b - 0x1_0000
            }
        } else if a + b < 0 {
            a + b + 0x1_0000
        } else {
            a + b
        }),
{
}

/// Without event indices the driver is always notified.
pub proof fn law_always_notified_without_event_idx(q: Queue, ram: Ram)
    requires
        !q.event_idx_enabled,
    ensures
        q.notification_spec(ram).0 == Ok::<bool, Error>(true),
{
}

/// Each decision on a notification starts the count of added chains anew, and
/// changes nothing else.
pub proof fn law_each_decision_resets_the_count(q: Queue, ram: Ram)
    ensures
        q.notification_spec(ram).1 == (Queue { num_added: 0, ..q }),
{
}

/// No chain is missed: if asking for notifications says that nothing waits,
/// every chain that the driver had made available was popped.
pub proof fn law_no_chain_is_missed(q: Queue, ram: Ram)
    ensures
        q.enable_spec(ram).1 == Ok::<bool, Error>(false) ==> q.pending(q.enable_spec(ram).0) == 0,
        q.enable_spec(ram).1 == Ok::<bool, Error>(true) ==> q.pending(q.enable_spec(ram).0) != 0,
{
}

/// Rounds end only when every chain that the driver had made available was
/// popped.
pub proof fn law_rounds_end_drained(q: Queue, ram: Ram, idle: bool)
    ensures
        q.round_spec(ram, idle).1 == Ok::<bool, Error>(false) ==> q.pending(q.round_spec(ram, idle).0)
            == 0,
{
    law_no_chain_is_missed(q, ram);
}

/// Whether a queue can reach its rings does not depend on how far it has got.
pub proof fn lemma_reachable_progress(q: Queue, r: Queue, layout: Seq<RegionLayout>)
    requires
        q.reachable(layout),
        r == (Queue {
            next_avail: r.next_avail,
            next_used: r.next_used,
            num_added: r.num_added,
            ..q
        }),
    ensures
        r.reachable(layout),
{
    assert forall|pos: int| #![trigger r.slot_ok(layout, pos)]
        0 <= pos < 0x1_0000 && r.actual() > 0 implies r.slot_ok(layout, pos) by {
        assert(q.slot_ok(layout, pos));
    }
}

} // verus!
