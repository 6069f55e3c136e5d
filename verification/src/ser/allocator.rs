//! The allocator: an account of the scratch space that serialization holds
//! between writing a value's children and writing the value's own record.

use crate::error::ArchiveError;
use vstd::prelude::*;

verus! {

/// A budget of scratch bytes. What a serialization step acquires it releases
/// before it returns, whether it succeeds or not.
pub struct Allocator {
    capacity: usize,
    in_use: usize,
}

impl Allocator {
    /// The most scratch bytes that may be held at one time.
    pub closed spec fn spec_capacity(&self) -> nat {
        self.capacity as nat
    }

    /// The scratch bytes held now.
    pub closed spec fn spec_in_use(&self) -> nat {
        self.in_use as nat
    }

    /// No more is held than the capacity allows.
    pub open spec fn wf(&self) -> bool {
        self.spec_in_use() <= self.spec_capacity()
    }

    /// The scratch bytes that can still be acquired.
    pub open spec fn spec_available(&self) -> int {
        self.spec_capacity() - self.spec_in_use()
    }

    /// An allocator with `capacity` scratch bytes, none of them held.
    pub fn new(capacity: usize) -> (a: Allocator)
        ensures
            a.spec_capacity() == capacity,
            a.spec_in_use() == 0,
            a.wf(),
    {
        Allocator { capacity, in_use: 0 }
    }

    /// The most scratch bytes that may be held at one time.
    pub fn capacity(&self) -> (c: usize)
        ensures
            c == self.spec_capacity(),
    {
        self.capacity
    }

    /// The scratch bytes held now.
    pub fn in_use(&self) -> (n: usize)
        ensures
            n == self.spec_in_use(),
    {
        self.in_use
    }

    /// Takes `size` scratch bytes, or reports that they are not to be had and
    /// takes none.
    pub fn acquire(&mut self, size: usize) -> (r: Result<(), ArchiveError>)
        requires
            old(self).wf(),
        ensures
            final(self).wf(),
            final(self).spec_capacity() == old(self).spec_capacity(),
            size <= old(self).spec_available() ==> r.is_ok() && final(self).spec_in_use() == old(
                self,
            ).spec_in_use() + size,
            size > old(self).spec_available() ==> r == Err::<(), ArchiveError>(
                ArchiveError::ScratchExhausted,
            ) && final(self).spec_in_use() == old(self).spec_in_use(),
    {
        if size > self.capacity - self.in_use {
            Err(ArchiveError::ScratchExhausted)
        } else {
            self.in_use = self.in_use + size;
            Ok(())
        }
    }

    /// Takes the scratch bytes for `count` items of `item_size` bytes each and
    /// returns how many bytes that is.
    pub fn acquire_array(&mut self, count: usize, item_size: usize) -> (r: Result<
        usize,
        ArchiveError,
    >)
        requires
            old(self).wf(),
        ensures
            final(self).wf(),
            final(self).spec_capacity() == old(self).spec_capacity(),
            r is Ok <==> count * item_size <= old(self).spec_available(),
            r matches Ok(size) ==> size == count * item_size && final(self).spec_in_use() == old(
                self,
            ).spec_in_use() + size,
            r matches Err(e) ==> e == ArchiveError::ScratchExhausted && final(self).spec_in_use() == old(
                self,
            ).spec_in_use(),
    {
        match count.checked_mul(item_size) {
            Some(size) => {
                match self.acquire(size) {
                    Ok(()) => Ok(size),
                    Err(e) => Err(e),
                }
            },
            None => Err(ArchiveError::ScratchExhausted),
        }
    }

    /// Gives back `size` scratch bytes that were acquired.
    pub fn release(&mut self, size: usize)
        requires
            old(self).wf(),
            size <= old(self).spec_in_use(),
        ensures
            final(self).wf(),
            final(self).spec_capacity() == old(self).spec_capacity(),
            final(self).spec_in_use() == old(self).spec_in_use() - size,
    {
        self.in_use = self.in_use - size;
    }
}

} // verus!
