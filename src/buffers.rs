use vstd::prelude::*;

verus! {

/// A bounded cache of byte buffers to reuse: at most `max_cap` of them wait
/// to be taken again.
#[derive(Debug)]
pub struct BufferPool {
    free: Vec<Vec<u8>>,
    max_cap: usize,
}

/// Relies on Vec::capacity: a vector can always hold at least its length.
#[verifier::external_body]
fn capacity_of(bytes: &Vec<u8>) -> (r: usize)
    ensures
        r >= bytes@.len(),
{
    bytes.capacity()
}

/// Relies on Vec::reserve_exact: it keeps the contents, and panics only when
/// the new capacity passes `isize::MAX` bytes.
#[verifier::external_body]
fn reserve_exact(bytes: &mut Vec<u8>, additional: usize)
    requires
        old(bytes)@.len() + additional <= isize::MAX,
    ensures
        final(bytes)@ == old(bytes)@,
{
    bytes.reserve_exact(additional)
}

impl BufferPool {
    /// The buffers waiting to be taken, oldest first.
    pub closed spec fn free(&self) -> Seq<Vec<u8>> {
        self.free@
    }

    /// The most buffers the pool keeps.
    pub closed spec fn max_cap(&self) -> nat {
        self.max_cap as nat
    }

    pub open spec fn wf(&self) -> bool {
        self.free().len() <= self.max_cap()
    }

    /// An empty pool that keeps at most `cap` buffers.
    pub fn new(cap: usize) -> (r: BufferPool)
        ensures
            r.wf(),
            r.free().len() == 0,
            r.max_cap() == cap,
    {
        BufferPool { free: Vec::new(), max_cap: cap }
    }

    /// Number of buffers waiting to be taken.
    pub fn free_len(&self) -> (r: usize)
        ensures
            r == self.free().len(),
    {
        self.free.len()
    }

    /// A buffer with room for `cap` more bytes than it holds: the newest one
    /// waiting, as it was left, or else a new empty one.
    pub fn take_raw(&mut self, cap: usize) -> (r: Vec<u8>)
        requires
            old(self).wf(),
        ensures
            final(self).wf(),
            final(self).max_cap() == old(self).max_cap(),
            old(self).free().len() == 0 ==> r@.len() == 0 && final(self).free().len() == 0,
            old(self).free().len() > 0 ==> final(self).free() == old(self).free().drop_last()
                && r@ == old(self).free().last()@,
    {
        let mut bytes = match self.free.pop() {
            Some(b) => b,
            None => Vec::new(),
        };
        // a request that no allocation can meet is left to the first write
        if cap <= isize::MAX as usize && bytes.len() <= isize::MAX as usize - cap {
            reserve_exact(&mut bytes, cap);
        }
        bytes
    }

    /// An empty buffer with room for at least `cap` bytes.
    pub fn take(&mut self, cap: usize) -> (r: Vec<u8>)
        requires
            old(self).wf(),
        ensures
            final(self).wf(),
            final(self).max_cap() == old(self).max_cap(),
            r@.len() == 0,
            final(self).free().len() == if old(self).free().len() > 0 {
                old(self).free().len() - 1
            } else {
                0
            },
    {
        let mut b = self.take_raw(cap);
        b.clear();
        b
    }

    /// Gives a buffer back. One that holds no storage is let go; otherwise it
    /// is kept if fewer than `max_cap` wait, and let go if not. Says whether
    /// it was kept.
    pub fn return_buffer(&mut self, bytes: Vec<u8>) -> (kept: bool)
        requires
            old(self).wf(),
        ensures
            final(self).wf(),
            final(self).max_cap() == old(self).max_cap(),
            kept ==> old(self).free().len() < old(self).max_cap(),
            bytes@.len() > 0 ==> (kept <==> old(self).free().len() < old(self).max_cap()),
            kept ==> final(self).free() == old(self).free().push(bytes),
            !kept ==> final(self).free() == old(self).free(),
    {
        if capacity_of(&bytes) == 0 {
            return false;
        }
        if self.free.len() < self.max_cap {
            self.free.push(bytes);
            true
        } else {
            false
        }
    }
}

} // verus!
