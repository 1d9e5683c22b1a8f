//! Per-frame bump allocator for clip openings.

use vstd::prelude::*;
use vstd::arithmetic::power2::pow2;
use std::ops::Range;

verus! {

/// The smallest power of two that is at least `n` (1 for 0), as
/// `usize::next_power_of_two` computes it.
pub open spec fn is_next_pow2(n: int, p: int) -> bool {
    &&& exists|e: nat| p == pow2(e)
    &&& p >= n
    &&& p == 1 || p / 2 < n
}

/// Smallest power of two `>= n`.
pub fn next_power_of_two(n: usize) -> (p: usize)
    requires
        n <= usize::MAX / 2 + 1,
    ensures
        is_next_pow2(n as int, p as int),
{
    let mut p: usize = 1;
    let ghost mut e: nat = 0;
    proof {
        vstd::arithmetic::power2::lemma2_to64();
    }
    while p < n
        invariant
            p == pow2(e),
            p >= 1,
            p == 1 || p / 2 < n,
            n <= usize::MAX / 2 + 1,
        decreases usize::MAX - p,
    {
        proof {
            vstd::arithmetic::power2::lemma_pow2_unfold(e + 1);
        }
        p = p * 2;
        proof {
            e = e + 1;
        }
    }
    p
}

/// Pool of `i16` clip openings handed out in consecutive slices each frame.
pub struct FrameScratch {
    openings: Vec<i16>,
    cursor: usize,
}

impl FrameScratch {
    /// The openings pool.
    pub closed spec fn openings(&self) -> Seq<i16> {
        self.openings@
    }

    /// First slot not yet handed out this frame.
    pub closed spec fn cursor(&self) -> nat {
        self.cursor as nat
    }

    /// Allocate `len` consecutive slots and return the index range handed
    /// out; the pool grows to the next power of two when it is too small,
    /// new slots being 0.
    pub fn allocate(&mut self, len: usize) -> (r: Range<usize>)
        requires
            old(self).cursor() + len <= usize::MAX / 2 + 1,
        ensures
            alloc_outcome(*old(self), *final(self), len as nat, r.start as int, r.end as int),
    {
        let start = self.cursor;
        self.cursor = self.cursor + len;
        if self.cursor > self.openings.len() {
            let n = next_power_of_two(self.cursor);
            self.openings.resize(n, 0);
        }
        start..start + len
    }

    /// Start a new frame: hand slots out from the beginning again.
    pub fn reset(&mut self)
        ensures
            final(self).cursor() == 0,
            final(self).openings() == old(self).openings(),
    {
        self.cursor = 0;
    }
}

/// What handing out `len` slots does to the pool `s0`, giving `s1` and
/// the index range `start..end`: the range starts at the old cursor, the
/// cursor moves past it, and the openings stay as they are unless they
/// were too short, in which case they grow, with zeros, to the next power
/// of two at or above the new cursor.
pub open spec fn alloc_outcome(s0: FrameScratch, s1: FrameScratch, len: nat, start: int, end: int) -> bool {
    &&& start == s0.cursor()
    &&& end == s0.cursor() + len
    &&& s1.cursor() == s0.cursor() + len
    &&& s1.cursor() <= s1.openings().len()
    &&& s1.cursor() <= s0.openings().len() ==> s1.openings() == s0.openings()
    &&& s1.cursor() > s0.openings().len() ==> {
        &&& is_next_pow2(s1.cursor() as int, s1.openings().len() as int)
        &&& s1.openings().subrange(0, s0.openings().len() as int) == s0.openings()
        &&& forall|i: int| s0.openings().len() <= i < s1.openings().len() ==> #[trigger] s1.openings()[i] == 0
    }
}

/// After a reset, handing out no more slots than the pool holds reuses
/// the pool from its start: the range is `0..len` and the openings are not
/// reallocated.
pub proof fn law_reset_then_reuse(a: FrameScratch, b: FrameScratch, c: FrameScratch, len: nat, start: int, end: int)
    requires
        b.cursor() == 0,
        b.openings() == a.openings(),
        alloc_outcome(b, c, len, start, end),
        len <= a.openings().len(),
    ensures
        start == 0,
        end == len,
        c.openings() == a.openings(),
        c.cursor() == len,
{
}

impl Default for FrameScratch {
    fn default() -> (s: Self)
        ensures
            s.cursor() == 0,
            s.openings().len() == 0,
    {
        FrameScratch { openings: Vec::new(), cursor: 0 }
    }
}

} // verus!
