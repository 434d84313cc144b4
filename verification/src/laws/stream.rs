//! The buffers of a chain as one stream of bytes.

use vstd::prelude::*;

use crate::devices::virtio::descriptor_utils::{
    all_inside, buffer_of, buffers_of, gathered, scattered, total_len, GuestBuffer,
};
use crate::devices::virtio::queue::{DescriptorChain, Error, Queue};
use crate::laws::memory::{law_addresses_are_found, law_write_places_bytes};
use crate::memory::memory::{find, law_write_keeps_layout, Ram, RegionLayout};

verus! {

/// The byte at position `p` of the stream that the buffers make up.
pub open spec fn stream(ram: Ram, bufs: Seq<GuestBuffer>, p: int) -> u8
    decreases bufs.len(),
{
    if bufs.len() == 0 {
        0
    } else if p < bufs[0].len {
        ram.bytes[bufs[0].region as int][bufs[0].offset + p]
    } else {
        stream(ram, bufs.subrange(1, bufs.len() as int), p - bufs[0].len)
    }
}

/// How many bytes the first `n` buffers have.
pub open spec fn before(bufs: Seq<GuestBuffer>, n: nat) -> int
    decreases n,
{
    if n == 0 {
        0
    } else {
        before(bufs, (n - 1) as nat) + bufs[n - 1].len
    }
}

/// No two buffers share a byte.
pub open spec fn apart(bufs: Seq<GuestBuffer>) -> bool {
    forall|i: int, j: int|
        0 <= i < j < bufs.len() ==> {
            let a = #[trigger] bufs[i];
            let b = #[trigger] bufs[j];
            a.region != b.region || a.offset + a.len <= b.offset || b.offset + b.len <= a.offset
        }
}

proof fn lemma_rest_inside(layout: Seq<RegionLayout>, bufs: Seq<GuestBuffer>)
    requires
        all_inside(layout, bufs),
        bufs.len() > 0,
    ensures
        all_inside(layout, bufs.subrange(1, bufs.len() as int)),
        bufs[0].inside(layout),
{
    let rest = bufs.subrange(1, bufs.len() as int);
    assert forall|i: int| 0 <= i < rest.len() implies (#[trigger] rest[i]).inside(layout) by {
        assert(bufs[i + 1].inside(layout));
    }
}

/// Reading the buffers gives the bytes of the stream, from the first to the
/// last.
pub proof fn law_gathered_is_the_stream(ram: Ram, bufs: Seq<GuestBuffer>, p: int)
    requires
        ram.wf(),
        all_inside(ram.layout, bufs),
    ensures
        gathered(ram, bufs).len() == total_len(bufs),
        0 <= p < total_len(bufs) ==> gathered(ram, bufs)[p] == stream(ram, bufs, p),
    decreases bufs.len(),
{
    if bufs.len() > 0 {
        lemma_rest_inside(ram.layout, bufs);
        law_gathered_is_the_stream(ram, bufs.subrange(1, bufs.len() as int), p - bufs[0].len);
    }
}

proof fn lemma_before_rest(bufs: Seq<GuestBuffer>, n: nat)
    requires
        0 < n <= bufs.len(),
    ensures
        before(bufs, n) == bufs[0].len + before(bufs.subrange(1, bufs.len() as int), (n - 1) as nat),
    decreases n,
{
    if n > 1 {
        lemma_before_rest(bufs, (n - 1) as nat);
    } else {
        reveal_with_fuel(before, 2);
    }
}

/// The stream is made of the buffers one after the other: its byte `p` behind
/// the first `n` buffers is byte `p` of the next one. It is as long as all of
/// them.
pub proof fn law_stream_of_buffers(ram: Ram, bufs: Seq<GuestBuffer>, n: nat, p: int)
    ensures
        n < bufs.len() && 0 <= p < bufs[n as int].len ==> stream(ram, bufs, before(bufs, n) + p)
            == ram.bytes[bufs[n as int].region as int][bufs[n as int].offset + p],
        before(bufs, bufs.len()) == total_len(bufs),
        0 <= before(bufs, n) || n > bufs.len(),
    decreases bufs.len(),
{
    if bufs.len() > 0 {
        let rest = bufs.subrange(1, bufs.len() as int);
        lemma_before_rest(bufs, bufs.len());
        if 0 < n <= bufs.len() {
            lemma_before_rest(bufs, n);
            law_stream_of_buffers(ram, rest, (n - 1) as nat, p);
        } else {
            law_stream_of_buffers(ram, rest, 0, p);
        }
    }
}

/// A write of `data` into the buffers from position `skip` on changes no byte
/// outside of them.
pub open spec fn in_buffers(bufs: Seq<GuestBuffer>, k: int, i: int) -> bool {
    exists|b: int|
        0 <= b < bufs.len() && (#[trigger] bufs[b]).region == k && bufs[b].offset <= i < bufs[b].offset
            + bufs[b].len
}

proof fn lemma_stream_same(a: Ram, b: Ram, bufs: Seq<GuestBuffer>, p: int)
    requires
        0 <= p,
        forall|k: int, i: int| in_buffers(bufs, k, i) ==> a.bytes[k][i] == #[trigger] b.bytes[k][i],
    ensures
        p < total_len(bufs) ==> stream(a, bufs, p) == stream(b, bufs, p),
    decreases bufs.len(),
{
    if bufs.len() > 0 {
        let rest = bufs.subrange(1, bufs.len() as int);
        if p < bufs[0].len {
            assert(in_buffers(bufs, bufs[0].region as int, bufs[0].offset + p));
        } else {
            assert forall|k: int, i: int| in_buffers(rest, k, i) implies a.bytes[k][i]
                == #[trigger] b.bytes[k][i] by {
                let j = choose|j: int|
                    0 <= j < rest.len() && (#[trigger] rest[j]).region == k && rest[j].offset <= i
                        < rest[j].offset + rest[j].len;
                assert(bufs[j + 1] == rest[j]);
                assert(in_buffers(bufs, k, i));
            }
            lemma_stream_same(a, b, rest, p - bufs[0].len);
        }
    }
}

proof fn lemma_outside(ram: Ram, bufs: Seq<GuestBuffer>, skip: int, data: Seq<u8>, k: int, i: int)
    requires
        ram.wf(),
        all_inside(ram.layout, bufs),
        0 <= skip,
        !in_buffers(bufs, k, i),
        0 <= k < ram.bytes.len(),
        0 <= i < ram.bytes[k].len(),
    ensures
        scattered(ram, bufs, skip, data).layout == ram.layout,
        scattered(ram, bufs, skip, data).wf(),
        scattered(ram, bufs, skip, data).bytes[k][i] == ram.bytes[k][i],
        scattered(ram, bufs, skip, data).bytes[k].len() == ram.bytes[k].len(),
        scattered(ram, bufs, skip, data).bytes.len() == ram.bytes.len(),
    decreases bufs.len(),
{
    if bufs.len() > 0 && data.len() > 0 {
        let b = bufs[0];
        let rest = bufs.subrange(1, bufs.len() as int);
        lemma_rest_inside(ram.layout, bufs);
        if in_buffers(rest, k, i) {
            let j = choose|j: int|
                0 <= j < rest.len() && (#[trigger] rest[j]).region == k && rest[j].offset <= i
                    < rest[j].offset + rest[j].len;
            assert(bufs[j + 1] == rest[j]);
        }
        assert(!in_buffers(rest, k, i));
        if skip >= b.len {
            lemma_outside(ram, rest, skip - b.len, data, k, i);
        } else {
            let n = if data.len() <= b.len - skip {
                data.len() as int
            } else {
                b.len - skip
            };
            let next = ram.with(b.region as int, b.offset + skip, data.subrange(0, n));
            assert(next.wf());
            assert(!(b.region == k && b.offset <= i < b.offset + b.len));
            lemma_outside(next, rest, 0, data.subrange(n, data.len() as int), k, i);
        }
    }
}

/// Writing to buffers that share no byte: the bytes written are those of the
/// stream from `skip` on, as many as fit, the other bytes of the stream stay,
/// and so does every byte outside the buffers.
pub proof fn law_scattered_into_the_stream(ram: Ram, bufs: Seq<GuestBuffer>, skip: int, data: Seq<u8>, p: int)
    requires
        ram.wf(),
        all_inside(ram.layout, bufs),
        apart(bufs),
        0 <= skip,
        0 <= p < total_len(bufs),
    ensures
        stream(scattered(ram, bufs, skip, data), bufs, p) == (if skip <= p < skip + data.len() {
            data[p - skip]
        } else {
            stream(ram, bufs, p)
        }),
    decreases bufs.len(),
{
    if bufs.len() > 0 && data.len() > 0 {
        let b = bufs[0];
        let rest = bufs.subrange(1, bufs.len() as int);
        let after = scattered(ram, bufs, skip, data);
        lemma_rest_inside(ram.layout, bufs);
        assert forall|i: int, j: int| 0 <= i < j < rest.len() implies {
            let x = #[trigger] rest[i];
            let y = #[trigger] rest[j];
            x.region != y.region || x.offset + x.len <= y.offset || y.offset + y.len <= x.offset
        } by {
            assert(rest[i] == bufs[i + 1]);
            assert(rest[j] == bufs[j + 1]);
        }
        let at = b.offset + p;
        if p < b.len {
            if in_buffers(rest, b.region as int, at) {
                let j = choose|j: int|
                    0 <= j < rest.len() && (#[trigger] rest[j]).region == b.region && rest[j].offset <= at
                        < rest[j].offset + rest[j].len;
                assert(bufs[0] == b && bufs[j + 1] == rest[j]);
            }
            assert(!in_buffers(rest, b.region as int, at));
        }
        if skip >= b.len {
            if p < b.len {
                lemma_outside(ram, rest, skip - b.len, data, b.region as int, at);
            } else {
                law_scattered_into_the_stream(ram, rest, skip - b.len, data, p - b.len);
            }
        } else {
            let n = if data.len() <= b.len - skip {
                data.len() as int
            } else {
                b.len - skip
            };
            let first = data.subrange(0, n);
            let left = data.subrange(n, data.len() as int);
            let next = ram.with(b.region as int, b.offset + skip, first);
            assert(next.wf());
            if p < b.len {
                lemma_outside(next, rest, 0, left, b.region as int, at);
            } else {
                law_scattered_into_the_stream(next, rest, 0, left, p - b.len);
                assert forall|k: int, i: int| in_buffers(rest, k, i) implies ram.bytes[k][i]
                    == #[trigger] next.bytes[k][i] by {
                    let j = choose|j: int|
                        0 <= j < rest.len() && (#[trigger] rest[j]).region == k && rest[j].offset <= i
                            < rest[j].offset + rest[j].len;
                    assert(bufs[0] == b && bufs[j + 1] == rest[j]);
                    assert(rest[j].inside(ram.layout));
                }
                lemma_stream_same(ram, next, rest, p - b.len);
            }
        }
    }
}

/// The same, for the bytes that are not in the buffers.
pub proof fn law_scattered_stays_inside(
    ram: Ram,
    bufs: Seq<GuestBuffer>,
    skip: int,
    data: Seq<u8>,
    k: int,
    i: int,
)
    requires
        ram.wf(),
        all_inside(ram.layout, bufs),
        0 <= skip,
        !in_buffers(bufs, k, i),
        0 <= k < ram.bytes.len(),
        0 <= i < ram.bytes[k].len(),
    ensures
        scattered(ram, bufs, skip, data).bytes[k][i] == ram.bytes[k][i],
{
    lemma_outside(ram, bufs, skip, data, k, i);
}

/// The buffers of a list of descriptors: one for each, in order, in the first
/// region that holds the descriptor's address, at that address and as long as
/// the descriptor says; and each lies in its region whole.
pub proof fn law_buffers_of_descriptors(
    layout: Seq<RegionLayout>,
    list: Seq<DescriptorChain>,
    sum: int,
    i: int,
)
    requires
        forall|k: int|
            0 <= k < layout.len() ==> (#[trigger] layout[k]).mapped ==> 0 <= layout[k].base && layout[k].size
                <= usize::MAX,
        layout.len() <= usize::MAX,
    ensures
        buffers_of(layout, list, sum) matches Ok(bufs) ==> {
            &&& bufs.len() == list.len()
            &&& 0 <= i < list.len() ==> {
                let b = bufs[i];
                let r = layout[b.region as int];
                &&& find(layout, list[i].addr.0 as int) == Some(b.region as int)
                &&& r.mapped
                &&& r.base + b.offset == list[i].addr.0
                &&& b.len == list[i].len
                &&& b.offset + b.len <= r.size
            }
        },
    decreases list.len(),
{
    if list.len() > 0 {
        law_addresses_are_found(layout, list[0].addr.0 as int);
        law_buffers_of_descriptors(layout, list.subrange(1, list.len() as int), sum + list[0].len, i - 1);
    }
}

/// When the buffers cannot be made out: some descriptor does not lie in a
/// mapped region whole, or they are too long together.
pub proof fn law_buffers_refused(layout: Seq<RegionLayout>, list: Seq<DescriptorChain>, sum: int)
    ensures
        buffers_of(layout, list, sum) == Err::<Seq<GuestBuffer>, Error>(Error::FindMemoryRegion) ==> exists|
            i: int,
        |
            0 <= i < list.len() && match find(layout, (#[trigger] list[i]).addr.0 as int) {
                None => true,
                Some(k) => !layout[k].mapped || list[i].addr.0 + list[i].len > layout[k].base
                    + layout[k].size,
            },
        buffers_of(layout, list, sum) matches Err(e) ==> e == Error::FindMemoryRegion || e
            == Error::DescriptorChainOverflow,
    decreases list.len(),
{
    if list.len() > 0 {
        let rest = list.subrange(1, list.len() as int);
        law_buffers_refused(layout, rest, sum + list[0].len);
        if buffers_of(layout, list, sum) == Err::<Seq<GuestBuffer>, Error>(Error::FindMemoryRegion) {
            if buffer_of(layout, list[0]) is Some {
                let i = choose|i: int|
                    0 <= i < rest.len() && match find(layout, (#[trigger] rest[i]).addr.0 as int) {
                        None => true,
                        Some(k) => !layout[k].mapped || rest[i].addr.0 + rest[i].len > layout[k].base
                            + layout[k].size,
                    };
                assert(list[i + 1] == rest[i]);
            } else {
                assert(list[0] == list[0]);
            }
        }
    }
}

/// How many bytes the descriptors of a list ask for.
pub open spec fn bytes_asked(list: Seq<DescriptorChain>) -> int
    decreases list.len(),
{
    if list.len() == 0 {
        0
    } else {
        bytes_asked(list.drop_last()) + list.last().len
    }
}

proof fn lemma_bytes_asked(list: Seq<DescriptorChain>)
    requires
        list.len() > 0,
    ensures
        bytes_asked(list) == list[0].len + bytes_asked(list.subrange(1, list.len() as int)),
        bytes_asked(list.subrange(1, list.len() as int)) >= 0,
    decreases list.len(),
{
    let rest = list.subrange(1, list.len() as int);
    if list.len() > 1 {
        let front = list.drop_last();
        lemma_bytes_asked(front);
        assert(front.subrange(1, front.len() as int) =~= rest.drop_last());
        assert(front[0] == list[0]);
        assert(rest.last() == list.last());
    } else {
        assert(list.drop_last() =~= Seq::<DescriptorChain>::empty());
        assert(rest =~= Seq::<DescriptorChain>::empty());
    }
}

/// A chain is refused for its length only if it asks for more bytes than there
/// can be, and else only for a descriptor outside memory.
pub proof fn law_chain_too_long(layout: Seq<RegionLayout>, list: Seq<DescriptorChain>, sum: int)
    requires
        0 <= sum <= usize::MAX,
    ensures
        buffers_of(layout, list, sum) == Err::<Seq<GuestBuffer>, Error>(Error::DescriptorChainOverflow) ==> sum
            + bytes_asked(list) > usize::MAX,
        buffers_of(layout, list, sum) is Ok ==> sum + bytes_asked(list) <= usize::MAX,
    decreases list.len(),
{
    if list.len() > 0 {
        lemma_bytes_asked(list);
        if sum + list[0].len <= usize::MAX {
            law_chain_too_long(layout, list.subrange(1, list.len() as int), sum + list[0].len);
        }
    }
}

/// The buffers do not meet the part of the used ring that the device writes.
pub open spec fn off_the_ring(layout: Seq<RegionLayout>, bufs: Seq<GuestBuffer>, q: Queue) -> bool {
    forall|b: int|
        0 <= b < bufs.len() ==> {
            let g = layout[(#[trigger] bufs[b]).region as int].base + bufs[b].offset;
            g + bufs[b].len <= q.used_ring.0 + 2 || q.used_ring.0 + 4 + 8 * q.size <= g
        }
}

/// Handing a chain back leaves the buffers' bytes alone, where they do not meet
/// the used ring.
pub proof fn law_stream_after_handing_back(
    q: Queue,
    ram: Ram,
    head: u16,
    len: u32,
    bufs: Seq<GuestBuffer>,
    p: int,
)
    requires
        ram.wf(),
        all_inside(ram.layout, bufs),
        off_the_ring(ram.layout, bufs, q),
        0 <= p < total_len(bufs),
    ensures
        stream(q.add_used_spec(ram, head, len).2, bufs, p) == stream(ram, bufs, p),
{
    let after = q.add_used_spec(ram, head, len).2;
    if after != ram {
        let n = q.size as int;
        let at = q.used_ring.0 + 4 + 8 * (q.next_used as int % n);
        let elem = crate::devices::virtio::queue::VirtqUsedElem { id: head as u32, len };
        let bytes = crate::memory::object::GuestObject::encode(elem);
        crate::memory::object::GuestObject::decode_of_encode(elem);
        let idx = crate::memory::object::GuestObject::encode(
            crate::devices::virtio::queue::plus16(q.next_used, 1),
        );
        crate::memory::object::GuestObject::decode_of_encode(
            crate::devices::virtio::queue::plus16(q.next_used, 1),
        );
        let written = match ram.write(at, bytes) {
            Ok(w) => w,
            Err(_) => ram,
        };
        law_write_keeps_layout(ram, at, bytes);
        law_write_places_bytes(ram, at, bytes);
        law_write_places_bytes(written, q.used_ring.0 + 2, idx);
        assert forall|k: int, i: int| in_buffers(bufs, k, i) implies ram.bytes[k][i]
            == #[trigger] after.bytes[k][i] by {
            let b = choose|b: int|
                0 <= b < bufs.len() && (#[trigger] bufs[b]).region == k && bufs[b].offset <= i
                    < bufs[b].offset + bufs[b].len;
            assert(bufs[b].inside(ram.layout));
            let g = ram.layout[k].base + i;
            assert(written.bytes[k][i] == ram.bytes[k][i]);
            assert(after.bytes[k][i] == written.bytes[k][i]);
        }
        lemma_stream_same(ram, after, bufs, p);
    }
}

} // verus!
