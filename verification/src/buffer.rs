//! Leaf accumulators: a growable fixed-width value buffer and a null-bitmap
//! accumulator.

use vstd::prelude::*;

verus! {

/// The all-zero byte sequence of length `n`, the placeholder written for a
/// null slot.
pub open spec fn zero_bytes(n: nat) -> Seq<u8> {
    Seq::new(n, |i: int| 0u8)
}

/// Accumulates fixed-width native values as raw bytes, in append order.
///
/// Every appended value occupies exactly `width` bytes; a null placeholder
/// occupies the same room, zero-filled, so that the buffer's byte length
/// always equals `width` times the number of slots written.
pub struct BufferBuilder {
    /// Byte width of one value.
    pub width: usize,
    /// The accumulated bytes.
    pub data: Vec<u8>,
}

impl BufferBuilder {
    pub open spec fn wf(self) -> bool {
        1 <= self.width
    }

    /// Creates an empty buffer for values of `width` bytes each.
    pub fn new(width: usize) -> (r: BufferBuilder)
        requires
            1 <= width,
        ensures
            r.wf(),
            r.width == width,
            r.data@ == Seq::<u8>::empty(),
    {
        let r = BufferBuilder { width, data: Vec::new() };
        proof {
            assert(r.data@ =~= Seq::<u8>::empty());
        }
        r
    }

    /// Appends one value, given as exactly `width` bytes.
    pub fn append(&mut self, v: &[u8])
        requires
            old(self).wf(),
            v@.len() == old(self).width,
        ensures
            final(self).wf(),
            final(self).width == old(self).width,
            final(self).data@ == old(self).data@ + v@,
    {
        self.data.extend_from_slice(v);
        proof {
            assert(self.data@ =~= old(self).data@ + v@);
        }
    }

    /// Appends a null placeholder: `width` zero bytes.  The stored pattern is
    /// never read as a value; it only keeps this buffer aligned with the
    /// owning field's slot count.
    pub fn append_null(&mut self)
        requires
            old(self).wf(),
        ensures
            final(self).wf(),
            final(self).width == old(self).width,
            final(self).data@ == old(self).data@ + zero_bytes(old(self).width as nat),
    {
        let mut j: usize = 0;
        while j < self.width
            invariant
                self.wf(),
                self.width == old(self).width,
                j <= self.width,
                self.data@ == old(self).data@ + zero_bytes(j as nat),
            decreases self.width - j,
        {
            self.data.push(0u8);
            j = j + 1;
            proof {
                assert(self.data@ =~= old(self).data@ + zero_bytes(j as nat));
            }
        }
    }

    /// One-shot finalization into the immutable byte buffer.
    pub fn finish(self) -> (r: Vec<u8>)
        ensures
            r@ == self.data@,
    {
        self.data
    }
}

/// Accumulates per-slot validity flags and finalizes them into either the
/// flag sequence or a "no nulls present" sentinel.
pub struct NullBufferBuilder {
    /// One flag per slot: `true` for a present value, `false` for a null.
    pub bits: Vec<bool>,
}

impl NullBufferBuilder {
    /// Creates an empty bitmap accumulator.
    pub fn new() -> (r: NullBufferBuilder)
        ensures
            r.bits@ == Seq::<bool>::empty(),
    {
        let r = NullBufferBuilder { bits: Vec::new() };
        proof {
            assert(r.bits@ =~= Seq::<bool>::empty());
        }
        r
    }

    /// Appends one validity flag.
    pub fn append(&mut self, valid: bool)
        ensures
            final(self).bits@ == old(self).bits@.push(valid),
    {
        self.bits.push(valid);
    }

    /// One-shot finalization: `None` when every slot is valid (the "no
    /// nulls" sentinel), otherwise the full flag sequence.
    pub fn finish(self) -> (r: Option<Vec<bool>>)
        ensures
            match r {
                None => forall|i: int| 0 <= i < self.bits@.len() ==> self.bits@[i],
                Some(v) => v@ == self.bits@ && exists|i: int|
                    0 <= i < self.bits@.len() && !self.bits@[i],
            },
    {
        let n = self.bits.len();
        let mut j: usize = 0;
        let mut any_null = false;
        while j < n
            invariant
                n == self.bits@.len(),
                j <= n,
                any_null <==> exists|i: int| 0 <= i < j && !self.bits@[i],
            decreases n - j,
        {
            if !self.bits[j] {
                any_null = true;
            }
            j = j + 1;
        }
        if any_null {
            Some(self.bits)
        } else {
            None
        }
    }
}

} // verus!
