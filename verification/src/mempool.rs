//! The packet buffer pool: a fixed-size slab of equally sized DMA buffers
//! handed out and returned by index, last-in first-out.
//!
//! A buffer index on the free stack is owned by the pool; an index off the
//! stack has exactly one outside owner (a receive ring slot, a transmit
//! in-flight slot, or a live packet).  The stack never holds an index twice
//! and never holds an index outside the slab.

use vstd::prelude::*;
use crate::dma::{DmaRegion, allocate_dma};

verus! {

/// A pool of `num_bufs` buffers of `buf_size` bytes each, carved out of one
/// DMA region.
pub struct Mempool {
    /// The backing region; buffer `b` occupies bytes
    /// `b * buf_size .. (b + 1) * buf_size` of it.
    pub region: DmaRegion,
    /// Bytes of one buffer.
    pub buf_size: u32,
    /// Buffers in the slab.
    pub num_bufs: u32,
    /// Indices of the buffers the pool currently owns; the top is the end.
    pub free_stack: Vec<u32>,
}

impl Mempool {
    /// Structural invariant of a pool.
    pub open spec fn wf(&self) -> bool {
        &&& self.region.wf()
        &&& self.num_bufs as int * self.buf_size as int <= self.region.size as int
        &&& self.buf_size > 0
        &&& self.free_stack@.len() <= self.num_bufs
        &&& forall|i: int| 0 <= i < self.free_stack@.len() ==> self.free_stack@[i] < self.num_bufs
        &&& forall|i: int, j: int|
                0 <= i < j < self.free_stack@.len() ==> self.free_stack@[i] != self.free_stack@[j]
    }

    /// The pool owns buffer `b`.
    pub open spec fn is_free(&self, b: u32) -> bool {
        self.free_stack@.contains(b)
    }

    /// Number of buffers the pool owns.
    pub fn free_count(&self) -> (r: usize)
        ensures
            r == self.free_stack@.len(),
    {
        self.free_stack.len()
    }

    /// Allocate the pool's region and fill the free stack with the indices
    /// `0, 1, .., num_bufs - 1`, so the top of the stack is the last index.
    /// Returns `None` when the model's DMA space is exhausted.
    pub fn allocate(huge_page_id: &mut u32, num_bufs: u32, buf_size: u32) -> (r: Option<Mempool>)
        requires
            buf_size > 0,
            num_bufs > 0,
            num_bufs as int * buf_size as int <= u32::MAX,
        ensures
            r is Some <==> *old(huge_page_id)
                + crate::dma::pages_of((num_bufs * buf_size) as u32) <= crate::dma::MAX_HUGE_PAGES,
            match r {
                Some(pool) => {
                    &&& pool.wf()
                    &&& pool.num_bufs == num_bufs
                    &&& pool.buf_size == buf_size
                    &&& pool.free_stack@ == Seq::new(num_bufs as nat, |i: int| i as u32)
                    &&& *final(huge_page_id) == *old(huge_page_id)
                            + crate::dma::pages_of((num_bufs * buf_size) as u32)
                },
                None => *final(huge_page_id) == *old(huge_page_id),
            },
    {
        let total: u32 = num_bufs * buf_size;
        proof {
            assert(total > 0) by (nonlinear_arith)
                requires total == num_bufs as int * buf_size as int, num_bufs > 0, buf_size > 0;
        }
        let region = allocate_dma(huge_page_id, total);
        match region {
            None => None,
            Some(region) => {
                let mut free_stack: Vec<u32> = Vec::new();
                let mut i: u32 = 0;
                while i < num_bufs
                    invariant
                        i <= num_bufs,
                        free_stack@ == Seq::new(i as nat, |j: int| j as u32),
                    decreases num_bufs - i,
                {
                    free_stack.push(i);
                    i = i + 1;
                    proof {
                        assert(free_stack@ =~= Seq::new(i as nat, |j: int| j as u32));
                    }
                }
                Some(Mempool { region, buf_size, num_bufs, free_stack })
            },
        }
    }

    /// Pop the most recently returned buffer off the free stack; `None` when
    /// the pool is exhausted.
    pub fn alloc_buf(&mut self) -> (r: Option<u32>)
        requires
            old(self).wf(),
        ensures
            final(self).wf(),
            final(self).region == old(self).region,
            final(self).buf_size == old(self).buf_size,
            final(self).num_bufs == old(self).num_bufs,
            match r {
                Some(b) => {
                    &&& old(self).free_stack@.len() > 0
                    &&& b == old(self).free_stack@.last()
                    &&& b < old(self).num_bufs
                    &&& final(self).free_stack@ == old(self).free_stack@.drop_last()
                    &&& !final(self).is_free(b)
                },
                None => {
                    &&& old(self).free_stack@.len() == 0
                    &&& final(self).free_stack@ == old(self).free_stack@
                },
            },
    {
        let ghost pre = self.free_stack@;
        match self.free_stack.pop() {
            None => None,
            Some(b) => {
                proof {
                    assert(self.free_stack@ =~= pre.drop_last());
                    assert forall|i: int| 0 <= i < self.free_stack@.len()
                        implies self.free_stack@[i] != b by {
                        assert(pre[i] == self.free_stack@[i]);
                        assert(pre[pre.len() - 1] == b);
                    }
                    assert forall|i: int| 0 <= i < self.free_stack@.len()
                        implies self.free_stack@[i] < self.num_bufs by {
                        assert(pre[i] == self.free_stack@[i]);
                    }
                    assert forall|i: int, j: int| 0 <= i < j < self.free_stack@.len()
                        implies self.free_stack@[i] != self.free_stack@[j] by {
                        assert(pre[i] == self.free_stack@[i]);
                        assert(pre[j] == self.free_stack@[j]);
                    }
                    assert(!self.is_free(b)) by {
                        if self.free_stack@.contains(b) {
                            let k = choose|k: int|
                                0 <= k < self.free_stack@.len() && self.free_stack@[k] == b;
                            assert(self.free_stack@[k] != b);
                        }
                    }
                }
                Some(b)
            },
        }
    }

    /// Return buffer `b` to the pool.  Returning a buffer the pool already
    /// owns would duplicate ownership, so the caller must hold `b`.
    pub fn free_buf(&mut self, b: u32)
        requires
            old(self).wf(),
            b < old(self).num_bufs,
            !old(self).is_free(b),
        ensures
            final(self).wf(),
            final(self).region == old(self).region,
            final(self).buf_size == old(self).buf_size,
            final(self).num_bufs == old(self).num_bufs,
            final(self).free_stack@ == old(self).free_stack@.push(b),
    {
        proof {
            lemma_not_contains_len(old(self).free_stack@, old(self).num_bufs, b);
        }
        self.free_stack.push(b);
        proof {
            let post = self.free_stack@;
            let pre = old(self).free_stack@;
            assert forall|i: int, j: int| 0 <= i < j < post.len()
                implies post[i] != post[j] by {
                if j == post.len() - 1 {
                    assert(post[j] == b);
                    assert(pre[i] == post[i]);
                    assert(!pre.contains(b));
                    assert(pre[i] != b);
                }
            }
        }
    }

    /// Virtual address of buffer `b`.
    pub fn virt_of(&self, b: u32) -> (r: u64)
        requires
            self.wf(),
            b < self.num_bufs,
        ensures
            r == self.region.virt + b as int * self.buf_size as int,
    {
        proof {
            lemma_buf_offset_in_region(self, b);
        }
        self.region.virt + (b as u64) * (self.buf_size as u64)
    }

    /// Physical address of buffer `b`.
    pub fn phys_of(&self, b: u32) -> (r: u64)
        requires
            self.wf(),
            b < self.num_bufs,
        ensures
            r == self.region.phys + b as int * self.buf_size as int,
    {
        proof {
            lemma_buf_offset_in_region(self, b);
        }
        self.region.phys + (b as u64) * (self.buf_size as u64)
    }
}

/// A buffer's offset lies inside the pool's region.
pub proof fn lemma_buf_offset_in_region(pool: &Mempool, b: u32)
    requires
        pool.wf(),
        b < pool.num_bufs,
    ensures
        b as int * pool.buf_size as int + pool.buf_size as int <= pool.region.size as int,
{
    assert((b as int + 1) * pool.buf_size as int <= pool.num_bufs as int * pool.buf_size as int)
        by (nonlinear_arith)
        requires b as int + 1 <= pool.num_bufs as int, pool.buf_size > 0;
    assert(b as int * pool.buf_size as int + pool.buf_size as int
        == (b as int + 1) * pool.buf_size as int) by (nonlinear_arith);
}

/// A duplicate-free sequence of values below `n` that misses `b` is shorter
/// than `n`.
proof fn lemma_not_contains_len(s: Seq<u32>, n: u32, b: u32)
    requires
        forall|i: int| 0 <= i < s.len() ==> s[i] < n,
        forall|i: int, j: int| 0 <= i < j < s.len() ==> s[i] != s[j],
        b < n,
        !s.contains(b),
        s.len() <= n,
    ensures
        s.len() < n,
{
    if s.len() == n {
        lemma_unique_seq_covers(s, n);
        assert(s.contains(b));
    }
}

/// A duplicate-free sequence of `n` values below `n` contains every value
/// below `n`.
proof fn lemma_unique_seq_covers(s: Seq<u32>, n: u32)
    requires
        s.len() == n,
        forall|i: int| 0 <= i < s.len() ==> s[i] < n,
        forall|i: int, j: int| 0 <= i < j < s.len() ==> s[i] != s[j],
    ensures
        forall|v: u32| v < n ==> s.contains(v),
    decreases n,
{
    if n > 0 {
        let last = s[s.len() - 1];
        let prefix = s.drop_last();
        let mapped = prefix.map_values(|x: u32| if x > last { (x - 1) as u32 } else { x });
        assert forall|i: int| 0 <= i < mapped.len() implies mapped[i] < (n - 1) as u32 by {
            assert(prefix[i] != last);
        }
        assert forall|i: int, j: int| 0 <= i < j < mapped.len()
            implies mapped[i] != mapped[j] by {
            assert(prefix[i] != prefix[j]);
            assert(prefix[i] != last);
            assert(prefix[j] != last);
        }
        lemma_unique_seq_covers(mapped, (n - 1) as u32);
        assert forall|v: u32| v < n implies s.contains(v) by {
            if v == last {
                assert(s[s.len() - 1] == v);
            } else {
                let w: u32 = if v > last { (v - 1) as u32 } else { v };
                assert(mapped.contains(w));
                let k = choose|k: int| 0 <= k < mapped.len() && mapped[k] == w;
                assert(prefix[k] == v);
                assert(s[k] == v);
            }
        }
    }
}

} // verus!
