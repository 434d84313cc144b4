//! Serves the memory accesses of the guest to a transport.

use vstd::prelude::*;

use crate::byte_order::{encode_le, le_bytes, le_value, read_le_u64, resized};
use crate::devices::legacy::irqchip::IrqChip;
use crate::devices::virtio::device::VirtioDevice;
use crate::devices::virtio::mmio::{MmioTransport, TransportEvent};
use crate::text::{dec_text, decimal};

verus! {

/// Why an access cannot be served.
#[derive(Clone, Copy, Debug, PartialEq, Eq, Structural)]
pub enum AccessError {
    UnsupportedReadSize(u32),
    UnsupportedWriteSize(u32),
}

impl AccessError {
    pub open spec fn message_spec(self) -> Seq<char> {
        match self {
            AccessError::UnsupportedReadSize(n) => "Unsupported read size: "@ + dec_text(n as nat),
            AccessError::UnsupportedWriteSize(n) => "Unsupported write size: "@ + dec_text(n as nat),
        }
    }

    /// The text of the error.
    pub fn message(&self) -> (r: String)
        ensures
            r@ == self.message_spec(),
    {
        match self {
            AccessError::UnsupportedReadSize(n) => {
                "Unsupported read size: ".to_owned().concat(decimal(*n as u64).as_str())
            },
            AccessError::UnsupportedWriteSize(n) => {
                "Unsupported write size: ".to_owned().concat(decimal(*n as u64).as_str())
            },
        }
    }
}

/// Whether the guest can access `size` bytes at once.
pub open spec fn supported_size(size: u32) -> bool {
    size == 1 || size == 2 || size == 4 || size == 8
}

/// A buffer of `size` zero bytes.
pub fn zeroed(size: usize) -> (r: Vec<u8>)
    ensures
        r@ == Seq::new(size as nat, |i: int| 0u8),
{
    let mut r: Vec<u8> = Vec::new();
    let mut i: usize = 0;
    while i < size
        invariant
            i <= size,
            r@ == Seq::new(i as nat, |i: int| 0u8),
        decreases size - i,
    {
        r.push(0);
        i += 1;
        assert(r@ =~= Seq::new(i as nat, |i: int| 0u8));
    }
    r
}

/// The value of a buffer of at most eight bytes.
pub fn buffer_value(data: &[u8]) -> (r: u64)
    requires
        data@.len() <= 8,
    ensures
        r == le_value(data@),
{
    proof {
        lemma_zero_tail(data@, 8);
    }
    read_le_u64(data)
}

/// Zero bytes at the top do not change a number.
pub proof fn lemma_zero_tail(s: Seq<u8>, n: nat)
    requires
        s.len() <= n,
    ensures
        le_value(resized(s, n)) == le_value(s),
    decreases n,
{
    let r = resized(s, n);
    if n == 0 {
        assert(r =~= s);
    } else if s.len() == 0 {
        lemma_zero_tail(s, (n - 1) as nat);
        assert(r.subrange(1, n as int) =~= resized(s, (n - 1) as nat));
    } else {
        let t = s.subrange(1, s.len() as int);
        lemma_zero_tail(t, (n - 1) as nat);
        assert(r.subrange(1, n as int) =~= resized(t, (n - 1) as nat));
    }
}

/// Serves the guest's memory accesses to a transport.
pub struct MmioTransportAdapter<D: VirtioDevice> {
    pub transport: MmioTransport<D>,
}

impl<D: VirtioDevice> MmioTransportAdapter<D> {
    pub fn new(transport: MmioTransport<D>) -> (r: Self)
        ensures
            r.transport == transport,
    {
        MmioTransportAdapter { transport }
    }

    /// Reads `size` bytes at `offset` as a little-endian number.
    pub fn handle_read(&self, offset: u64, size: u32) -> (r: Result<u64, AccessError>)
        requires
            self.transport.wf(),
        ensures
            r == (if supported_size(size) {
                Ok::<u64, AccessError>(
                    le_value(
                        self.transport@.read_into(offset, Seq::new(size as nat, |i: int| 0u8)),
                    ) as u64,
                )
            } else {
                Err(AccessError::UnsupportedReadSize(size))
            }),
    {
        match size {
            1 | 2 | 4 | 8 => {
                let mut data = zeroed(size as usize);
                let ghost before = data@;
                self.transport.read(offset, data.as_mut_slice());
                assert(data@ == self.transport@.read_into(offset, before));
                Ok(buffer_value(data.as_slice()))
            },
            _ => Err(AccessError::UnsupportedReadSize(size)),
        }
    }

    /// Writes the lowest `size` bytes of `value` at `offset`. The result says
    /// what must happen outside.
    pub fn handle_write(&mut self, intc: &mut IrqChip, offset: u64, size: u32, value: u64) -> (r: Result<
        TransportEvent,
        AccessError,
    >)
        requires
            old(self).transport.wf(),
            old(intc).wf(),
        ensures
            final(self).transport.wf(),
            final(intc).wf(),
            supported_size(size) ==> {
                let data = le_bytes(value as nat, size as nat);
                &&& r matches Ok(event) && (final(self).transport@, event) == old(
                    self,
                ).transport@.written(offset, data)
                &&& if old(self).transport@.lowers_line(offset, data) {
                    old(intc).lowered(old(self).transport@.irq_line, *final(intc))
                } else {
                    *final(intc) == *old(intc)
                }
            },
            !supported_size(size) ==> {
                &&& r == Err::<TransportEvent, AccessError>(AccessError::UnsupportedWriteSize(size))
                &&& *final(self) == *old(self)
                &&& *final(intc) == *old(intc)
            },
    {
        match size {
            1 | 2 | 4 | 8 => {
                let data = encode_le(value, size as usize);
                Ok(self.transport.write(intc, offset, data.as_slice()))
            },
            _ => Err(AccessError::UnsupportedWriteSize(size)),
        }
    }
}

} // verus!
