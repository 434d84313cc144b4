//! Moving bytes between buffers and byte streams.

use vstd::prelude::*;

use crate::memory::memory::{copy_into, spliced};

verus! {

/// Why bytes could not be moved.
#[derive(Clone, Copy, Debug, PartialEq, Eq, Structural)]
pub enum VolatileMemoryError {
    /// The stream ended before the buffer was full.
    UnexpectedEof,
    /// The stream took no more bytes.
    WriteZero,
    /// The stream claims to have moved more bytes than there were.
    OutOfBounds,
    /// The stream failed.
    Failed,
}

impl VolatileMemoryError {
    pub open spec fn message_spec(self) -> Seq<char> {
        match self {
            VolatileMemoryError::UnexpectedEof => "failed to fill whole buffer"@,
            VolatileMemoryError::WriteZero => "failed to write whole buffer"@,
            VolatileMemoryError::OutOfBounds => "address out of bounds"@,
            VolatileMemoryError::Failed => "input or output failed"@,
        }
    }

    /// The text of the error.
    pub fn message(&self) -> (r: &'static str)
        ensures
            r@ == self.message_spec(),
    {
        match self {
            VolatileMemoryError::UnexpectedEof => "failed to fill whole buffer",
            VolatileMemoryError::WriteZero => "failed to write whole buffer",
            VolatileMemoryError::OutOfBounds => "address out of bounds",
            VolatileMemoryError::Failed => "input or output failed",
        }
    }
}

/// What one read from a stream, or one write to it, came to.
#[derive(Clone, Copy, Debug, PartialEq, Eq, Structural)]
pub enum IoOutcome {
    /// So many bytes were moved.
    Moved(usize),
    /// It was interrupted, and nothing was moved.
    Interrupted,
    Failed,
}

/// What is done next about a buffer that is to be moved whole.
#[derive(Clone, Copy, Debug, PartialEq, Eq, Structural)]
pub enum TransferStep {
    /// Move the bytes from `offset` on.
    Move { offset: usize },
    Done,
    Fail(VolatileMemoryError),
}

/// A buffer on its way: `done` of its `total` bytes were moved.
#[derive(Clone, Copy, Debug, PartialEq, Eq, Structural)]
pub struct Transfer {
    pub done: usize,
    pub total: usize,
    /// The bytes go to the stream, not to the buffer.
    pub writing: bool,
}

impl Transfer {
    pub open spec fn wf(self) -> bool {
        self.done <= self.total
    }

    /// What is done while nothing failed.
    pub open spec fn next(self) -> TransferStep {
        if self.done < self.total {
            TransferStep::Move { offset: self.done }
        } else {
            TransferStep::Done
        }
    }

    /// The buffer and what is done after an attempt: an interrupted one is made
    /// again, and a stream that moves nothing has ended.
    pub open spec fn after(self, outcome: IoOutcome) -> (Transfer, TransferStep) {
        match outcome {
            IoOutcome::Interrupted => (self, self.next()),
            IoOutcome::Failed => (self, TransferStep::Fail(VolatileMemoryError::Failed)),
            IoOutcome::Moved(n) => if n == 0 {
                (
                    self,
                    TransferStep::Fail(
                        if self.writing {
                            VolatileMemoryError::WriteZero
                        } else {
                            VolatileMemoryError::UnexpectedEof
                        },
                    ),
                )
            } else if n > self.total - self.done {
                (self, TransferStep::Fail(VolatileMemoryError::OutOfBounds))
            } else {
                let t = Transfer { done: (self.done + n) as usize, ..self };
                (t, t.next())
            },
        }
    }

    /// A buffer that is to be filled from a stream.
    pub fn read_exact_volatile(total: usize) -> (r: (Self, TransferStep))
        ensures
            r.0 == (Transfer { done: 0, total, writing: false }),
            r.0.wf(),
            r.1 == r.0.next(),
    {
        let t = Transfer { done: 0, total, writing: false };
        (t, t.first_step())
    }

    /// A buffer that is to be written to a stream.
    pub fn write_all_volatile(total: usize) -> (r: (Self, TransferStep))
        ensures
            r.0 == (Transfer { done: 0, total, writing: true }),
            r.0.wf(),
            r.1 == r.0.next(),
    {
        let t = Transfer { done: 0, total, writing: true };
        (t, t.first_step())
    }

    fn first_step(&self) -> (r: TransferStep)
        ensures
            r == self.next(),
    {
        if self.done < self.total {
            TransferStep::Move { offset: self.done }
        } else {
            TransferStep::Done
        }
    }

    /// Takes the outcome of an attempt and says what is done next.
    pub fn step(&mut self, outcome: IoOutcome) -> (r: TransferStep)
        requires
            old(self).wf(),
        ensures
            final(self).wf(),
            (*final(self), r) == old(self).after(outcome),
    {
        match outcome {
            IoOutcome::Interrupted => self.first_step(),
            IoOutcome::Failed => TransferStep::Fail(VolatileMemoryError::Failed),
            IoOutcome::Moved(n) => {
                if n == 0 {
                    return TransferStep::Fail(
                        if self.writing {
                            VolatileMemoryError::WriteZero
                        } else {
                            VolatileMemoryError::UnexpectedEof
                        },
                    );
                }
                if n > self.total - self.done {
                    return TransferStep::Fail(VolatileMemoryError::OutOfBounds);
                }
                self.done = self.done + n;
                self.first_step()
            },
        }
    }
}

/// A buffer is done only when all of its bytes were moved, and each attempt that
/// moves bytes and does not fail brings it nearer.
pub proof fn law_transfer_is_whole(t: Transfer, outcome: IoOutcome)
    requires
        t.wf(),
    ensures
        t.after(outcome).1 is Done ==> t.after(outcome).0.done == t.total,
        t.after(outcome).1 matches TransferStep::Move { offset } ==> offset == t.after(outcome).0.done
            && offset < t.total,
        outcome is Moved && !(t.after(outcome).1 is Fail) ==> t.after(outcome).0.done > t.done,
        !(outcome is Moved) ==> t.after(outcome).0 == t,
{
}

/// The smaller of two lengths.
pub open spec fn smaller(a: nat, b: nat) -> int {
    if a <= b {
        a as int
    } else {
        b as int
    }
}

/// A stream that reads from bytes in memory.
#[derive(Clone, Copy, Debug)]
pub struct SliceReader<'a> {
    /// What is left.
    pub rest: &'a [u8],
}

impl<'a> SliceReader<'a> {
    /// Reads as many bytes as there are, or as the buffer holds.
    pub fn read_volatile(&mut self, buf: &mut Vec<u8>) -> (r: usize)
        ensures
            r == smaller(old(buf)@.len(), old(self).rest@.len()),
            final(buf)@ == spliced(old(buf)@, 0, old(self).rest@.subrange(0, r as int)),
            final(self).rest@ == old(self).rest@.subrange(r as int, old(self).rest@.len() as int),
    {
        let left: usize = self.rest.len();
        let n: usize = if buf.len() <= left {
            buf.len()
        } else {
            left
        };
        copy_into(buf, 0, &self.rest[0..n]);
        self.rest = &self.rest[n..left];
        n
    }

    /// Fills a buffer. Where there are too few bytes, none is read.
    pub fn read_exact_volatile(&mut self, buf: &mut Vec<u8>) -> (r: Result<(), VolatileMemoryError>)
        ensures
            if old(buf)@.len() > old(self).rest@.len() {
                r == Err::<(), VolatileMemoryError>(VolatileMemoryError::UnexpectedEof) && final(buf)@
                    == old(buf)@ && *final(self) == *old(self)
            } else {
                r is Ok && final(buf)@ == old(self).rest@.subrange(0, old(buf)@.len() as int) && final(
                    self).rest@ == old(self).rest@.subrange(
                    old(buf)@.len() as int,
                    old(self).rest@.len() as int,
                )
            },
    {
        if buf.len() > self.rest.len() {
            return Err(VolatileMemoryError::UnexpectedEof);
        }
        let ghost wanted = self.rest@.subrange(0, buf@.len() as int);
        let _ = self.read_volatile(buf);
        assert(buf@ =~= wanted);
        Ok(())
    }
}

/// A stream that writes into memory of a fixed size.
#[derive(Debug)]
pub struct SliceWriter {
    pub target: Vec<u8>,
    /// How many bytes were written.
    pub written: usize,
}

impl SliceWriter {
    pub open spec fn wf(self) -> bool {
        self.written <= self.target@.len()
    }

    /// The room that is left.
    pub open spec fn room(self) -> nat {
        (self.target@.len() - self.written) as nat
    }

    /// Writes as many bytes as there is room for.
    pub fn write_volatile(&mut self, buf: &[u8]) -> (r: usize)
        requires
            old(self).wf(),
        ensures
            final(self).wf(),
            r == smaller(buf@.len(), old(self).room()),
            final(self).target@ == spliced(
                old(self).target@,
                old(self).written as int,
                buf@.subrange(0, r as int),
            ),
            final(self).written == old(self).written + r,
    {
        let room: usize = self.target.len() - self.written;
        let n: usize = if buf.len() <= room {
            buf.len()
        } else {
            room
        };
        copy_into(&mut self.target, self.written, &buf[0..n]);
        self.written = self.written + n;
        n
    }

    /// Writes a buffer whole. Where there is too little room, what fits is
    /// written.
    pub fn write_all_volatile(&mut self, buf: &[u8]) -> (r: Result<(), VolatileMemoryError>)
        requires
            old(self).wf(),
        ensures
            final(self).wf(),
            ({
                let n = smaller(buf@.len(), old(self).room());
                &&& final(self).target@ == spliced(
                    old(self).target@,
                    old(self).written as int,
                    buf@.subrange(0, n),
                )
                &&& final(self).written == old(self).written + n
                &&& r == (if n == buf@.len() {
                    Ok::<(), VolatileMemoryError>(())
                } else {
                    Err(VolatileMemoryError::WriteZero)
                })
            }),
    {
        if self.write_volatile(buf) == buf.len() {
            Ok(())
        } else {
            Err(VolatileMemoryError::WriteZero)
        }
    }
}

/// Appends a buffer to bytes that grow as needed.
pub fn write_volatile(dst: &mut Vec<u8>, buf: &[u8]) -> (r: usize)
    ensures
        r == buf@.len(),
        final(dst)@ == old(dst)@ + buf@,
{
    dst.extend_from_slice(buf);
    assert(dst@ =~= old(dst)@ + buf@);
    buf.len()
}

/// A position in bytes. It may lie behind their end.
#[derive(Debug)]
pub struct Cursor {
    pub inner: Vec<u8>,
    pub position: u64,
}

impl Cursor {
    /// Where the next byte is, or the end.
    pub open spec fn start(self) -> int {
        if self.position <= self.inner@.len() {
            self.position as int
        } else {
            self.inner@.len() as int
        }
    }

    /// What is behind the position.
    pub open spec fn rest(self) -> Seq<u8> {
        self.inner@.subrange(self.start(), self.inner@.len() as int)
    }

    fn clamped(&self) -> (r: usize)
        ensures
            r == self.start(),
    {
        let len: usize = self.inner.len();
        if self.position <= len as u64 {
            self.position as usize
        } else {
            len
        }
    }

    /// Reads as many bytes as there are, or as the buffer holds.
    pub fn read_volatile(&mut self, buf: &mut Vec<u8>) -> (r: usize)
        ensures
            r == smaller(old(buf)@.len(), old(self).rest().len()),
            final(buf)@ == spliced(old(buf)@, 0, old(self).rest().subrange(0, r as int)),
            final(self).inner == old(self).inner,
            final(self).position == old(self).position + r,
    {
        let start: usize = self.clamped();
        let len: usize = self.inner.len();
        let mut reader = SliceReader { rest: &self.inner.as_slice()[start..len] };
        let n: usize = reader.read_volatile(buf);
        self.position = self.position + n as u64;
        n
    }

    /// Fills a buffer. Where there are too few bytes, none is read.
    pub fn read_exact_volatile(&mut self, buf: &mut Vec<u8>) -> (r: Result<(), VolatileMemoryError>)
        ensures
            final(self).inner == old(self).inner,
            if old(buf)@.len() > old(self).rest().len() {
                r == Err::<(), VolatileMemoryError>(VolatileMemoryError::UnexpectedEof) && final(buf)@
                    == old(buf)@ && final(self).position == old(self).position
            } else {
                r is Ok && final(buf)@ == old(self).rest().subrange(0, old(buf)@.len() as int) && final(
                    self).position == old(self).position + old(buf)@.len()
            },
    {
        let start: usize = self.clamped();
        let len: usize = self.inner.len();
        let n: usize = buf.len();
        let mut reader = SliceReader { rest: &self.inner.as_slice()[start..len] };
        match reader.read_exact_volatile(buf) {
            Ok(()) => {},
            Err(e) => {
                return Err(e);
            },
        }
        self.position = self.position + n as u64;
        Ok(())
    }

    /// Writes as many bytes as there is room for behind the position.
    pub fn write_volatile(&mut self, buf: &[u8]) -> (r: usize)
        ensures
            r == smaller(buf@.len(), old(self).rest().len()),
            final(self).inner@ == spliced(
                old(self).inner@,
                old(self).start(),
                buf@.subrange(0, r as int),
            ),
            final(self).position == old(self).position + r,
    {
        let start: usize = self.clamped();
        let room: usize = self.inner.len() - start;
        let n: usize = if buf.len() <= room {
            buf.len()
        } else {
            room
        };
        copy_into(&mut self.inner, start, &buf[0..n]);
        self.position = self.position + n as u64;
        n
    }
}

/// What a cursor wrote can be read from where it was.
pub proof fn law_cursor_reads_what_it_wrote(before: Cursor, after: Cursor, data: Seq<u8>)
    requires
        data.len() <= before.rest().len(),
        after.inner@ == spliced(before.inner@, before.start(), data),
        after.position == before.position,
    ensures
        after.rest().subrange(0, data.len() as int) == data,
{
    assert(after.rest().subrange(0, data.len() as int) =~= data);
}

} // verus!
