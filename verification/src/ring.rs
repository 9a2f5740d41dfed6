//! Round-robin selection over a fixed pool of workers.

use vstd::arithmetic::div_mod::{lemma_mod_self_0, lemma_small_mod};
use vstd::prelude::*;

verus! {

/// The worker that the `k`-th selection after a cursor at `start` picks, in a
/// pool of `len` workers.
pub open spec fn nth_pick(start: int, len: int, k: int) -> int {
    (start + k) % len
}

/// A cursor over a pool of `len` workers. Every selection hands out the
/// worker under the cursor and moves the cursor one step, wrapping at `len`.
pub struct ReaderRing {
    len: usize,
    next: usize,
}

impl ReaderRing {
    /// The cursor never points past the pool.
    #[verifier::type_invariant]
    pub closed spec fn wf(&self) -> bool {
        self.next < self.len || (self.len == 0 && self.next == 0)
    }

    /// Number of workers in the pool.
    pub closed spec fn size(&self) -> int {
        self.len as int
    }

    /// Index of the worker that the next selection returns.
    pub closed spec fn cursor(&self) -> int {
        self.next as int
    }

    /// A ring over `len` workers with the cursor on worker 0.
    pub fn new(len: usize) -> (ring: ReaderRing)
        ensures
            ring.size() == len,
            ring.cursor() == 0,
    {
        ReaderRing { len, next: 0 }
    }

    /// Number of workers in the pool.
    pub fn len(&self) -> (n: usize)
        ensures
            n == self.size(),
    {
        self.len
    }

    /// Selects the next worker: `None` for an empty pool, which is left
    /// unchanged; otherwise the worker under the cursor, after which the
    /// cursor stands on its successor modulo the pool size.
    pub fn pick(&mut self) -> (picked: Option<usize>)
        ensures
            final(self).size() == old(self).size(),
            old(self).size() == 0 ==> picked is None && final(self).cursor() == 0,
            old(self).size() > 0 ==> picked == Some(old(self).cursor() as usize)
                && final(self).cursor() == (old(self).cursor() + 1) % old(self).size(),
            0 <= final(self).cursor(),
            old(self).size() > 0 ==> final(self).cursor() < final(self).size(),
    {
        proof {
            use_type_invariant(&*self);
        }
        if self.len == 0 {
            return None;
        }
        let picked: usize = self.next;
        if self.next + 1 >= self.len {
            proof {
                lemma_mod_self_0(self.len as int);
            }
            self.next = 0;
        } else {
            proof {
                lemma_small_mod((self.next + 1) as nat, self.len as nat);
            }
            self.next = self.next + 1;
        }
        Some(picked)
    }
}

} // verus!
