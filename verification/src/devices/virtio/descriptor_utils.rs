//! Reading and writing the buffers of a descriptor chain as one stream.

use vstd::prelude::*;

use crate::devices::virtio::queue::{
    chain_list, device_written, read_only_prefix, DescriptorChain, Error,
};
use crate::memory::memory::{
    copy_out, find, lemma_find_from, GuestAddress, MemoryManager, Ram, RegionLayout,
};
use crate::memory::object::GuestObject;

verus! {

/// A part of a region's host memory that a descriptor names.
#[derive(Clone, Copy, Debug, PartialEq, Eq, Structural)]
pub struct GuestBuffer {
    /// Index of the region.
    pub region: usize,
    /// Where the part starts in the region.
    pub offset: usize,
    /// How many bytes it has.
    pub len: usize,
}

impl GuestBuffer {
    /// The part lies in a region that host memory backs.
    pub open spec fn inside(self, layout: Seq<RegionLayout>) -> bool {
        &&& self.region < layout.len()
        &&& layout[self.region as int].mapped
        &&& self.offset + self.len <= layout[self.region as int].size
    }

    pub open spec fn bytes(self, ram: Ram) -> Seq<u8> {
        ram.bytes[self.region as int].subrange(self.offset as int, self.offset + self.len)
    }
}

/// The buffer of a descriptor, if one backed region holds it whole.
pub open spec fn buffer_of(layout: Seq<RegionLayout>, d: DescriptorChain) -> Option<GuestBuffer> {
    match find(layout, d.addr.0 as int) {
        None => None,
        Some(k) => {
            let r = layout[k];
            if !r.mapped || d.addr.0 - r.base + d.len > r.size {
                None
            } else {
                Some(
                    GuestBuffer {
                        region: k as usize,
                        offset: (d.addr.0 - r.base) as usize,
                        len: d.len as usize,
                    },
                )
            }
        },
    }
}

/// How many bytes a list of buffers has.
pub open spec fn total_len(bufs: Seq<GuestBuffer>) -> nat
    decreases bufs.len(),
{
    if bufs.len() == 0 {
        0
    } else {
        bufs[0].len as nat + total_len(bufs.subrange(1, bufs.len() as int))
    }
}

/// The buffers of a list of descriptors, `sum` bytes having been counted
/// before them.
pub open spec fn buffers_of(layout: Seq<RegionLayout>, list: Seq<DescriptorChain>, sum: int) -> Result<
    Seq<GuestBuffer>,
    Error,
>
    decreases list.len(),
{
    if list.len() == 0 {
        Ok(Seq::empty())
    } else if sum + list[0].len > usize::MAX {
        Err(Error::DescriptorChainOverflow)
    } else {
        match buffer_of(layout, list[0]) {
            None => Err(Error::FindMemoryRegion),
            Some(b) => match buffers_of(
                layout,
                list.subrange(1, list.len() as int),
                sum + list[0].len,
            ) {
                Err(e) => Err(e),
                Ok(rest) => Ok(seq![b] + rest),
            },
        }
    }
}

/// Every buffer lies in a backed region.
pub open spec fn all_inside(layout: Seq<RegionLayout>, bufs: Seq<GuestBuffer>) -> bool {
    forall|i: int| 0 <= i < bufs.len() ==> (#[trigger] bufs[i]).inside(layout)
}

/// The bytes of the buffers, one after the other.
pub open spec fn gathered(ram: Ram, bufs: Seq<GuestBuffer>) -> Seq<u8>
    decreases bufs.len(),
{
    if bufs.len() == 0 {
        Seq::empty()
    } else {
        bufs[0].bytes(ram) + gathered(ram, bufs.subrange(1, bufs.len() as int))
    }
}

/// Memory after `data` was written to the buffers from stream position `skip`
/// on. What does not fit is left out.
pub open spec fn scattered(ram: Ram, bufs: Seq<GuestBuffer>, skip: int, data: Seq<u8>) -> Ram
    decreases bufs.len(),
{
    if bufs.len() == 0 || data.len() == 0 {
        ram
    } else {
        let b = bufs[0];
        let rest = bufs.subrange(1, bufs.len() as int);
        if skip >= b.len {
            scattered(ram, rest, skip - b.len, data)
        } else {
            let n = if data.len() <= b.len - skip {
                data.len() as int
            } else {
                b.len - skip
            };
            scattered(
                ram.with(b.region as int, b.offset + skip, data.subrange(0, n)),
                rest,
                0,
                data.subrange(n, data.len() as int),
            )
        }
    }
}

/// The buffers that the device may read in the chain that starts at `head`.
pub open spec fn reader_buffers(ram: Ram, head: DescriptorChain) -> Result<Seq<GuestBuffer>, Error> {
    buffers_of(ram.layout, read_only_prefix(chain_list(ram, Some(head))), 0)
}

/// The buffers that the device may write in the chain that starts at `head`.
pub open spec fn writer_buffers(ram: Ram, head: DescriptorChain) -> Result<Seq<GuestBuffer>, Error> {
    buffers_of(ram.layout, device_written(chain_list(ram, Some(head))), 0)
}

pub proof fn lemma_buffers(layout: Seq<RegionLayout>, list: Seq<DescriptorChain>, sum: int)
    requires
        0 <= sum <= usize::MAX,
        forall|i: int| 0 <= i < layout.len() ==> {
            let r = #[trigger] layout[i];
            r.mapped ==> 0 <= r.base && r.size <= usize::MAX
        },
        layout.len() <= usize::MAX,
    ensures
        buffers_of(layout, list, sum) matches Ok(bufs) ==> {
            &&& bufs.len() == list.len()
            &&& all_inside(layout, bufs)
            &&& sum + total_len(bufs) <= usize::MAX
        },
    decreases list.len(),
{
    if list.len() > 0 && sum + list[0].len <= usize::MAX {
        let rest = list.subrange(1, list.len() as int);
        lemma_buffers(layout, rest, sum + list[0].len);
        lemma_find_from(layout, list[0].addr.0 as int, 0);
        if let Some(b) = buffer_of(layout, list[0]) {
            if let Ok(tail) = buffers_of(layout, rest, sum + list[0].len) {
                let bufs = seq![b] + tail;
                assert(bufs.subrange(1, bufs.len() as int) =~= tail);
                assert(b.inside(layout));
            }
        }
    }
}

pub proof fn lemma_gathered_len(ram: Ram, bufs: Seq<GuestBuffer>)
    requires
        ram.wf(),
        all_inside(ram.layout, bufs),
    ensures
        gathered(ram, bufs).len() == total_len(bufs),
    decreases bufs.len(),
{
    if bufs.len() > 0 {
        let rest = bufs.subrange(1, bufs.len() as int);
        assert(bufs[0].inside(ram.layout));
        assert forall|i: int| 0 <= i < rest.len() implies (#[trigger] rest[i]).inside(ram.layout) by {
            assert(rest[i] == bufs[i + 1]);
        }
        lemma_gathered_len(ram, rest);
    }
}

/// Writing to the buffers changes neither the layout of memory nor its
/// well-formedness.
pub proof fn law_scattered_keeps_layout(ram: Ram, bufs: Seq<GuestBuffer>, skip: int, data: Seq<u8>)
    requires
        ram.wf(),
        all_inside(ram.layout, bufs),
    ensures
        scattered(ram, bufs, skip, data).layout == ram.layout,
        scattered(ram, bufs, skip, data).wf(),
    decreases bufs.len(),
{
    if bufs.len() > 0 && data.len() > 0 {
        let b = bufs[0];
        let rest = bufs.subrange(1, bufs.len() as int);
        assert(b.inside(ram.layout));
        assert forall|i: int| 0 <= i < rest.len() implies (#[trigger] rest[i]).inside(ram.layout) by {
            assert(rest[i] == bufs[i + 1]);
        }
        if skip >= b.len {
            law_scattered_keeps_layout(ram, rest, skip - b.len, data);
        } else {
            let n = if data.len() <= b.len - skip {
                data.len() as int
            } else {
                b.len - skip
            };
            let next = ram.with(b.region as int, b.offset + skip, data.subrange(0, n));
            assert(next.wf());
            law_scattered_keeps_layout(next, rest, 0, data.subrange(n, data.len() as int));
        }
    }
}

/// The buffers of a list of descriptors.
fn collect_buffers(mem: &MemoryManager, list: &Vec<DescriptorChain>) -> (r: Result<
    Vec<GuestBuffer>,
    Error,
>)
    requires
        mem.wf(),
    ensures
        match buffers_of(mem.ram().layout, list@, 0) {
            Ok(bufs) => r matches Ok(v) && v@ == bufs,
            Err(e) => r matches Err(f) && f == e,
        },
{
    let ghost layout = mem.ram().layout;
    let mut bufs: Vec<GuestBuffer> = Vec::new();
    let mut total: usize = 0;
    let mut i: usize = 0;
    let ghost whole = buffers_of(layout, list@, 0);
    assert(list@.subrange(0, list@.len() as int) =~= list@);
    proof {
        if let Ok(all) = whole {
            assert(bufs@ + all =~= all);
        }
    }
    while i < list.len()
        invariant
            mem.wf(),
            layout == mem.ram().layout,
            i <= list@.len(),
            whole == buffers_of(layout, list@, 0),
            match buffers_of(layout, list@.subrange(i as int, list@.len() as int), total as int) {
                Ok(rest) => whole == Ok::<Seq<GuestBuffer>, Error>(bufs@ + rest),
                Err(e) => whole == Err::<Seq<GuestBuffer>, Error>(e),
            },
        decreases list@.len() - i,
    {
        let ghost rest = list@.subrange(i as int, list@.len() as int);
        let ghost before = bufs@;
        assert(rest.subrange(1, rest.len() as int) =~= list@.subrange(i + 1, list@.len() as int));
        let d = list[i];
        total = match total.checked_add(d.len as usize) {
            Some(t) => t,
            None => {
                return Err(Error::DescriptorChainOverflow);
            },
        };
        let k: usize = match mem.find_region_index(d.addr) {
            Some(k) => k,
            None => {
                return Err(Error::FindMemoryRegion);
            },
        };
        assert(mem.regions@[k as int].wf());
        let region = &mem.regions[k];
        let offset = GuestAddress(d.addr.0 - region.start_addr().0);
        match region.get_slice(offset, d.len as usize) {
            Ok(s) => {
                bufs.push(GuestBuffer { region: k, offset: s.offset, len: s.len });
            },
            Err(_) => {
                return Err(Error::FindMemoryRegion);
            },
        }
        proof {
            let b = bufs@.last();
            assert(buffer_of(layout, d) == Some(b));
            if let Ok(tail) = buffers_of(
                layout,
                list@.subrange(i + 1, list@.len() as int),
                total as int,
            ) {
                assert(before + (seq![b] + tail) =~= bufs@ + tail);
            }
        }
        i += 1;
    }
    proof {
        assert(list@.subrange(i as int, list@.len() as int).len() == 0);
        assert(bufs@ + Seq::<GuestBuffer>::empty() =~= bufs@);
    }
    Ok(bufs)
}

/// The facts about memory that the buffers of its descriptors rest on.
proof fn lemma_buffers_of_memory(mem: MemoryManager, list: Seq<DescriptorChain>)
    requires
        mem.wf(),
    ensures
        buffers_of(mem.ram().layout, list, 0) matches Ok(bufs) ==> {
            &&& bufs.len() == list.len()
            &&& all_inside(mem.ram().layout, bufs)
            &&& total_len(bufs) <= usize::MAX
        },
{
    let layout = mem.ram().layout;
    assert forall|i: int| 0 <= i < layout.len() implies {
        let r = #[trigger] layout[i];
        r.mapped ==> 0 <= r.base && r.size <= usize::MAX
    } by {
        assert(mem.regions@[i].wf());
        if let Some(v) = mem.regions@[i].hpa {
            assert(v.len() == v@.len());
        }
    }
    assert(mem.regions.len() == mem.regions@.len());
    lemma_buffers(layout, list, 0);
}

/// How many bytes a list of buffers has.
fn count_bytes(bufs: &Vec<GuestBuffer>) -> (r: usize)
    requires
        total_len(bufs@) <= usize::MAX,
    ensures
        r == total_len(bufs@),
{
    let mut total: usize = 0;
    let mut i: usize = 0;
    assert(bufs@.subrange(0, bufs@.len() as int) =~= bufs@);
    while i < bufs.len()
        invariant
            i <= bufs@.len(),
            total + total_len(bufs@.subrange(i as int, bufs@.len() as int)) == total_len(bufs@),
            total_len(bufs@) <= usize::MAX,
        decreases bufs@.len() - i,
    {
        let ghost rest = bufs@.subrange(i as int, bufs@.len() as int);
        assert(rest.subrange(1, rest.len() as int) =~= bufs@.subrange(i + 1, bufs@.len() as int));
        total += bufs[i].len;
        i += 1;
    }
    total
}

/// The first `n` bytes of the buffers from stream position `skip` on.
fn gather(mem: &MemoryManager, bufs: &Vec<GuestBuffer>, skip: usize, n: usize) -> (r: Vec<u8>)
    requires
        mem.wf(),
        all_inside(mem.ram().layout, bufs@),
        skip + n <= total_len(bufs@) <= usize::MAX,
    ensures
        r@ == gathered(mem.ram(), bufs@).subrange(skip as int, skip + n),
{
    let ghost ram = mem.ram();
    let mut all: Vec<u8> = Vec::new();
    let mut i: usize = 0;
    proof {
        mem.lemma_ram_wf();
        assert(bufs@.subrange(0, bufs@.len() as int) =~= bufs@);
        assert(all@ + gathered(ram, bufs@) =~= gathered(ram, bufs@));
        lemma_gathered_len(ram, bufs@);
    }
    while i < bufs.len()
        invariant
            mem.wf(),
            ram == mem.ram(),
            i <= bufs@.len(),
            all_inside(ram.layout, bufs@),
            all@ + gathered(ram, bufs@.subrange(i as int, bufs@.len() as int)) == gathered(ram, bufs@),
        decreases bufs@.len() - i,
    {
        let ghost rest = bufs@.subrange(i as int, bufs@.len() as int);
        let ghost tail = bufs@.subrange(i + 1, bufs@.len() as int);
        let ghost before = all@;
        let b = bufs[i];
        assert(bufs@[i as int].inside(ram.layout));
        let mut part = mem.read_slice(b.region, b.offset, b.len);
        all.append(&mut part);
        proof {
            assert(rest.subrange(1, rest.len() as int) =~= tail);
            assert(before + (b.bytes(ram) + gathered(ram, tail)) =~= all@ + gathered(ram, tail));
        }
        i += 1;
    }
    assert(all@ + Seq::<u8>::empty() =~= all@);
    copy_out(&all, skip, n)
}

/// Writes `data` to the buffers from stream position `skip` on, as far as it
/// fits.
fn scatter(mem: &mut MemoryManager, bufs: &Vec<GuestBuffer>, skip: usize, data: &[u8])
    requires
        old(mem).wf(),
        all_inside(old(mem).ram().layout, bufs@),
    ensures
        final(mem).wf(),
        final(mem).same_but_bytes(*old(mem)),
        final(mem).ram() == scattered(old(mem).ram(), bufs@, skip as int, data@),
{
    let ghost goal = scattered(mem.ram(), bufs@, skip as int, data@);
    let ghost before = *mem;
    let mut i: usize = 0;
    let mut skip: usize = skip;
    let mut done: usize = 0;
    assert(bufs@.subrange(0, bufs@.len() as int) =~= bufs@);
    assert(data@.subrange(0, data@.len() as int) =~= data@);
    while i < bufs.len() && done < data.len()
        invariant
            mem.wf(),
            mem.same_but_bytes(before),
            before == *old(mem),
            i <= bufs@.len(),
            done <= data@.len(),
            all_inside(mem.ram().layout, bufs@),
            scattered(
                mem.ram(),
                bufs@.subrange(i as int, bufs@.len() as int),
                skip as int,
                data@.subrange(done as int, data@.len() as int),
            ) == goal,
        decreases bufs@.len() - i,
    {
        let ghost rest = bufs@.subrange(i as int, bufs@.len() as int);
        assert(rest.subrange(1, rest.len() as int) =~= bufs@.subrange(i + 1, bufs@.len() as int));
        let b = bufs[i];
        assert(bufs@[i as int].inside(mem.ram().layout));
        if skip >= b.len {
            skip = skip - b.len;
        } else {
            let left: usize = data.len() - done;
            let n: usize = if left <= b.len - skip {
                left
            } else {
                b.len - skip
            };
            let part = &data[done..done + n];
            let ghost todo = data@.subrange(done as int, data@.len() as int);
            assert(mem.regions@[b.region as int].wf());
            assert(mem.regions@[b.region as int].layout() == mem.ram().layout[b.region as int]);
            proof {
                if let Some(v) = mem.regions@[b.region as int].hpa {
                    assert(v.len() == v@.len());
                }
            }
            mem.write_slice(b.region, b.offset + skip, part);
            proof {
                assert(todo.subrange(0, n as int) =~= part@);
                assert(todo.subrange(n as int, todo.len() as int) =~= data@.subrange(
                    done + n,
                    data@.len() as int,
                ));
            }
            done = done + n;
            skip = 0;
        }
        i += 1;
    }
}

/// Reads the readable buffers of a chain as one stream.
#[derive(Debug)]
pub struct Reader {
    pub buffers: Vec<GuestBuffer>,
    /// How many bytes were read.
    pub pos: usize,
    /// How many bytes there are.
    pub total: usize,
}

impl Reader {
    pub open spec fn wf(self, layout: Seq<RegionLayout>) -> bool {
        &&& all_inside(layout, self.buffers@)
        &&& self.total == total_len(self.buffers@)
        &&& self.pos <= self.total
    }

    /// What is left to read.
    pub open spec fn rest(self, ram: Ram) -> Seq<u8> {
        gathered(ram, self.buffers@).subrange(self.pos as int, self.total as int)
    }

    /// A reader over the readable buffers of the chain that starts at `head`.
    pub fn new(mem: &MemoryManager, head: DescriptorChain) -> (r: Result<Reader, Error>)
        requires
            mem.wf(),
        ensures
            match reader_buffers(mem.ram(), head) {
                Ok(bufs) => r matches Ok(v) && v.buffers@ == bufs && v.pos == 0 && v.wf(
                    mem.ram().layout,
                ),
                Err(e) => r matches Err(f) && f == e,
            },
    {
        let list = head.into_iter().readable(mem);
        proof {
            lemma_buffers_of_memory(*mem, list@);
        }
        match collect_buffers(mem, &list) {
            Ok(buffers) => {
                let total: usize = count_bytes(&buffers);
                Ok(Reader { buffers, pos: 0, total })
            },
            Err(e) => Err(e),
        }
    }

    /// How many bytes are left to read.
    pub fn available_bytes(&self) -> (r: usize)
        requires
            self.pos <= self.total,
        ensures
            r == self.total - self.pos,
    {
        self.total - self.pos
    }

    /// Reads up to `max` bytes.
    pub fn read(&mut self, mem: &MemoryManager, max: usize) -> (r: Vec<u8>)
        requires
            mem.wf(),
            old(self).wf(mem.ram().layout),
        ensures
            final(self).wf(mem.ram().layout),
            final(self).buffers == old(self).buffers,
            final(self).total == old(self).total,
            ({
                let left = old(self).rest(mem.ram());
                let n = if max <= left.len() { max as int } else { left.len() as int };
                r@ == left.subrange(0, n) && final(self).pos == old(self).pos + n
            }),
    {
        let left: usize = self.total - self.pos;
        let n: usize = if max <= left {
            max
        } else {
            left
        };
        proof {
            mem.lemma_ram_wf();
            lemma_gathered_len(mem.ram(), self.buffers@);
        }
        let r = gather(mem, &self.buffers, self.pos, n);
        assert(r@ =~= self.rest(mem.ram()).subrange(0, n as int));
        self.pos = self.pos + n;
        r
    }

    /// Reads a typed object. If too little is left, that is used up and
    /// nothing is returned.
    pub fn read_obj<T: GuestObject>(&mut self, mem: &MemoryManager) -> (r: Option<T>)
        requires
            mem.wf(),
            old(self).wf(mem.ram().layout),
        ensures
            final(self).wf(mem.ram().layout),
            final(self).buffers == old(self).buffers,
            final(self).total == old(self).total,
            ({
                let left = old(self).rest(mem.ram());
                if T::size() <= left.len() {
                    &&& r == Some(T::decode(left.subrange(0, T::size() as int)))
                    &&& final(self).pos == old(self).pos + T::size()
                } else {
                    &&& r is None
                    &&& final(self).pos == final(self).total
                }
            }),
    {
        proof {
            mem.lemma_ram_wf();
            lemma_gathered_len(mem.ram(), self.buffers@);
        }
        let n: usize = T::byte_len();
        let bytes = self.read(mem, n);
        if bytes.len() < n {
            None
        } else {
            Some(T::from_bytes(bytes.as_slice()))
        }
    }
}

/// Writes the writable buffers of a chain as one stream.
#[derive(Debug)]
pub struct Writer {
    pub buffers: Vec<GuestBuffer>,
    /// How many bytes were written.
    pub pos: usize,
    /// How many bytes there is room for.
    pub total: usize,
}

impl Writer {
    pub open spec fn wf(self, layout: Seq<RegionLayout>) -> bool {
        &&& all_inside(layout, self.buffers@)
        &&& self.total == total_len(self.buffers@)
        &&& self.pos <= self.total
    }

    /// How much can still be written.
    pub open spec fn room(self) -> int {
        self.total - self.pos
    }

    /// A writer over the writable buffers of the chain that starts at `head`.
    pub fn new(mem: &MemoryManager, head: DescriptorChain) -> (r: Result<Writer, Error>)
        requires
            mem.wf(),
        ensures
            match writer_buffers(mem.ram(), head) {
                Ok(bufs) => r matches Ok(v) && v.buffers@ == bufs && v.pos == 0 && v.wf(
                    mem.ram().layout,
                ),
                Err(e) => r matches Err(f) && f == e,
            },
    {
        let list = head.into_iter().writable(mem);
        proof {
            lemma_buffers_of_memory(*mem, list@);
        }
        match collect_buffers(mem, &list) {
            Ok(buffers) => {
                let total: usize = count_bytes(&buffers);
                Ok(Writer { buffers, pos: 0, total })
            },
            Err(e) => Err(e),
        }
    }

    /// How many bytes there is room left for.
    pub fn available_bytes(&self) -> (r: usize)
        requires
            self.pos <= self.total,
        ensures
            r == self.room(),
    {
        self.total - self.pos
    }

    /// Writes `data`. What does not fit is left out, and the result is false.
    pub fn write_all(&mut self, mem: &mut MemoryManager, data: &[u8]) -> (r: bool)
        requires
            old(mem).wf(),
            old(self).wf(old(mem).ram().layout),
        ensures
            final(mem).wf(),
            final(mem).same_but_bytes(*old(mem)),
            final(mem).ram() == scattered(
                old(mem).ram(),
                old(self).buffers@,
                old(self).pos as int,
                data@,
            ),
            final(self).wf(final(mem).ram().layout),
            final(self).buffers == old(self).buffers,
            final(self).total == old(self).total,
            r == (data@.len() <= old(self).room()),
            final(self).pos == (if r { old(self).pos + data@.len() } else { old(self).total as int }),
    {
        scatter(mem, &self.buffers, self.pos, data);
        let left: usize = self.total - self.pos;
        if data.len() <= left {
            self.pos = self.pos + data.len();
            true
        } else {
            self.pos = self.total;
            false
        }
    }

    /// Writes a typed object. What does not fit is left out, and the result is
    /// false.
    pub fn write_obj<T: GuestObject>(&mut self, mem: &mut MemoryManager, obj: T) -> (r: bool)
        requires
            old(mem).wf(),
            old(self).wf(old(mem).ram().layout),
        ensures
            final(mem).wf(),
            final(mem).same_but_bytes(*old(mem)),
            final(mem).ram() == scattered(
                old(mem).ram(),
                old(self).buffers@,
                old(self).pos as int,
                obj.encode(),
            ),
            final(self).wf(final(mem).ram().layout),
            final(self).buffers == old(self).buffers,
            final(self).total == old(self).total,
            r == (T::size() <= old(self).room()),
            final(self).pos == (if r { old(self).pos + T::size() } else { old(self).total as int }),
    {
        let bytes = obj.to_bytes();
        self.write_all(mem, bytes.as_slice())
    }
}

} // verus!
