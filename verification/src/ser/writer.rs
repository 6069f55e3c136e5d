//! The writer: an append-only sink of bytes that knows the position at which
//! the next byte will land.

use crate::error::ArchiveError;
use crate::rel_ptr::MAX_POSITION;
use vstd::prelude::*;

verus! {

/// An append-only byte buffer with a capacity that it never outgrows.
pub struct Writer {
    bytes: Vec<u8>,
    capacity: usize,
}

impl View for Writer {
    type V = Seq<u8>;

    /// The bytes written so far.
    closed spec fn view(&self) -> Seq<u8> {
        self.bytes@
    }
}

/// The position after `pos` that is the next multiple of `align`.
pub open spec fn align_up(pos: int, align: int) -> int {
    if pos % align == 0 {
        pos
    } else {
        pos + align - pos % align
    }
}

/// `n` bytes of padding.
pub open spec fn padding(n: int) -> Seq<u8> {
    Seq::new(n as nat, |i: int| 0u8)
}

pub proof fn lemma_align_up(pos: int, align: int)
    requires
        0 <= pos,
        0 < align,
    ensures
        pos <= align_up(pos, align) < pos + align,
        align_up(pos, align) % align == 0,
{
    if pos % align != 0 {
        let r = pos % align;
        vstd::arithmetic::div_mod::lemma_fundamental_div_mod(pos, align);
        let q = pos / align;
        assert(pos + align - r == align * (q + 1)) by (nonlinear_arith)
            requires
                pos == align * q + r,
        ;
        vstd::arithmetic::div_mod::lemma_mod_multiples_basic(q + 1, align);
        assert(align * (q + 1) == (q + 1) * align) by (nonlinear_arith);
    }
}

/// Appends `n` bytes of padding to `out`.
pub fn push_padding(out: &mut Vec<u8>, n: usize)
    ensures
        final(out)@ == old(out)@ + padding(n as int),
{
    let mut i: usize = 0;
    proof {
        assert(out@ =~= old(out)@ + padding(0));
    }
    while i < n
        invariant
            i <= n,
            out@ == old(out)@ + padding(i as int),
        decreases n - i,
    {
        out.push(0u8);
        i = i + 1;
        proof {
            assert(out@ =~= old(out)@ + padding(i as int));
        }
    }
}

/// The next multiple of `align` from `pos` on.
pub fn round_up(pos: usize, align: usize) -> (r: usize)
    requires
        align > 0,
        pos + align <= usize::MAX,
    ensures
        r == align_up(pos as int, align as int),
{
    let rem: usize = pos % align;
    if rem == 0 {
        pos
    } else {
        pos + (align - rem)
    }
}

impl Writer {
    /// The most bytes that this writer will ever hold.
    pub closed spec fn spec_capacity(&self) -> nat {
        self.capacity as nat
    }

    /// A writer holds no more than its capacity, and its capacity is within
    /// the reach of a relative pointer.
    pub open spec fn wf(&self) -> bool {
        self@.len() <= self.spec_capacity() <= MAX_POSITION
    }

    /// An empty writer that takes up to `capacity` bytes. A capacity beyond
    /// the reach of a relative pointer is refused.
    pub fn new(capacity: usize) -> (r: Result<Writer, ArchiveError>)
        ensures
            capacity <= MAX_POSITION ==> r.is_ok(),
            capacity > MAX_POSITION ==> r == Err::<Writer, ArchiveError>(
                ArchiveError::OffsetOutOfRange,
            ),
            r matches Ok(w) ==> w@ == Seq::<u8>::empty() && w.spec_capacity() == capacity
                && w.wf(),
    {
        if capacity > MAX_POSITION {
            Err(ArchiveError::OffsetOutOfRange)
        } else {
            Ok(Writer { bytes: Vec::new(), capacity })
        }
    }

    /// The position at which the next byte will be written.
    pub fn pos(&self) -> (p: usize)
        ensures
            p == self@.len(),
    {
        self.bytes.len()
    }

    /// The most bytes that this writer will ever hold.
    pub fn capacity(&self) -> (c: usize)
        ensures
            c == self.spec_capacity(),
    {
        self.capacity
    }

    /// Appends `bytes` and returns the position of their first byte. Nothing
    /// is written where they do not fit.
    pub fn write(&mut self, bytes: &[u8]) -> (r: Result<usize, ArchiveError>)
        requires
            old(self).wf(),
        ensures
            final(self).wf(),
            final(self).spec_capacity() == old(self).spec_capacity(),
            old(self)@.len() + bytes@.len() <= old(self).spec_capacity() ==> r == Ok::<
                usize,
                ArchiveError,
            >(old(self)@.len() as usize) && final(self)@ == old(self)@ + bytes@,
            old(self)@.len() + bytes@.len() > old(self).spec_capacity() ==> r == Err::<
                usize,
                ArchiveError,
            >(ArchiveError::CapacityExceeded) && final(self)@ == old(self)@,
    {
        let pos: usize = self.bytes.len();
        if bytes.len() > self.capacity - pos {
            return Err(ArchiveError::CapacityExceeded);
        }
        self.bytes.extend_from_slice(bytes);
        Ok(pos)
    }

    /// Appends `n` bytes of padding.
    pub fn pad(&mut self, n: usize) -> (r: Result<(), ArchiveError>)
        requires
            old(self).wf(),
        ensures
            final(self).wf(),
            final(self).spec_capacity() == old(self).spec_capacity(),
            old(self)@.len() + n <= old(self).spec_capacity() ==> r.is_ok() && final(self)@
                == old(self)@ + padding(n as int),
            old(self)@.len() + n > old(self).spec_capacity() ==> r == Err::<(), ArchiveError>(
                ArchiveError::CapacityExceeded,
            ) && final(self)@ == old(self)@,
    {
        if n > self.capacity - self.bytes.len() {
            return Err(ArchiveError::CapacityExceeded);
        }
        let mut i: usize = 0;
        while i < n
            invariant
                i <= n,
                self.capacity == old(self).capacity,
                self.bytes@ == old(self).bytes@ + padding(i as int),
            decreases n - i,
        {
            self.bytes.push(0u8);
            i = i + 1;
            proof {
                assert(self.bytes@ =~= old(self).bytes@ + padding(i as int));
            }
        }
        Ok(())
    }

    /// Pads up to the next multiple of `align` and returns that position.
    pub fn align(&mut self, align: usize) -> (r: Result<usize, ArchiveError>)
        requires
            old(self).wf(),
            align > 0,
        ensures
            final(self).wf(),
            final(self).spec_capacity() == old(self).spec_capacity(),
            align_up(old(self)@.len() as int, align as int) <= old(self).spec_capacity() ==> r
                == Ok::<usize, ArchiveError>(align_up(old(self)@.len() as int, align as int) as usize)
                && final(self)@ == old(self)@ + padding(
                align_up(old(self)@.len() as int, align as int) - old(self)@.len(),
            ),
            align_up(old(self)@.len() as int, align as int) > old(self).spec_capacity() ==> r
                == Err::<usize, ArchiveError>(ArchiveError::CapacityExceeded) && final(self)@ == old(self)@,
    {
        let pos: usize = self.bytes.len();
        let rem: usize = pos % align;
        proof {
            lemma_align_up(pos as int, align as int);
        }
        if rem == 0 {
            proof {
                assert(self@ + padding(0) =~= self@);
            }
            return Ok(pos);
        }
        let gap: usize = align - rem;
        match self.pad(gap) {
            Ok(()) => Ok(pos + gap),
            Err(e) => Err(e),
        }
    }

    /// The bytes written so far.
    pub fn as_slice(&self) -> (s: &[u8])
        ensures
            s@ == self@,
    {
        self.bytes.as_slice()
    }

    /// Gives up the writer for the bytes written.
    pub fn into_inner(self) -> (v: Vec<u8>)
        ensures
            v@ == self@,
    {
        self.bytes
    }
}

} // verus!
