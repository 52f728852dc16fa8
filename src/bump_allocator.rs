use vstd::prelude::*;

use crate::block_allocator::Layout;

verus! {

/// The region a bump allocator hands out: from `start` up to, not including, `end`.
#[derive(Clone, Copy, Debug, PartialEq, Eq, Structural)]
pub struct StartEnd {
    pub start: usize,
    pub end: usize,
}

/// `p` rounded up to the next multiple of `a`.
pub open spec fn align_up(p: int, a: int) -> int {
    p + (a - p % a) % a
}

/// Hands out memory from a fixed region by moving a cursor forward; nothing is
/// ever given back.
pub struct BumpAllocator {
    current_ptr: Option<usize>,
    start_end: StartEnd,
}

impl BumpAllocator {
    /// Where the next allocation starts looking: the region's start until the
    /// first allocation, the end of the last one after.
    pub closed spec fn cursor(&self) -> int {
        match self.current_ptr {
            Some(c) => c as int,
            None => self.start_end.start as int,
        }
    }

    pub closed spec fn region(&self) -> StartEnd {
        self.start_end
    }

    /// The cursor never lies before the region's start.
    pub open spec fn wf(&self) -> bool {
        self.region().start <= self.cursor()
    }

    pub fn new(start_end: StartEnd) -> (r: BumpAllocator)
        ensures
            r.wf(),
            r.cursor() == start_end.start,
            r.region() == start_end,
    {
        BumpAllocator { current_ptr: None, start_end }
    }

    /// Allocates `layout.size` bytes at the cursor rounded up to `layout.align`,
    /// and moves the cursor past them. `None`, with nothing changed, when the
    /// allocation would reach the end of the region.
    pub fn alloc_critical(&mut self, layout: Layout) -> (r: Option<usize>)
        requires
            old(self).wf(),
            layout.align > 0,
        ensures
            final(self).wf(),
            final(self).region() == old(self).region(),
            ({
                let p = align_up(old(self).cursor(), layout.align as int);
                if p + layout.size < old(self).region().end {
                    &&& r == Some(p as usize)
                    &&& p % (layout.align as int) == 0
                    &&& old(self).cursor() <= p < old(self).cursor() + layout.align
                    &&& final(self).cursor() == if p + layout.size == 0 {
                        old(self).region().start as int
                    } else {
                        p + layout.size
                    }
                } else {
                    r is None && *final(self) == *old(self)
                }
            }),
    {
        let ptr = match self.current_ptr {
            Some(c) => c,
            None => self.start_end.start,
        };
        let fixup = ptr % layout.align;
        let amount_to_add = (layout.align - fixup) % layout.align;
        proof {
            lemma_align_up(ptr as int, layout.align as int);
        }
        if ptr > usize::MAX - amount_to_add {
            return None;
        }
        let resulting_ptr = ptr + amount_to_add;
        if resulting_ptr > usize::MAX - layout.size {
            return None;
        }
        let new_current_ptr = resulting_ptr + layout.size;
        if new_current_ptr >= self.start_end.end {
            return None;
        }
        self.current_ptr = if new_current_ptr == 0 {
            None
        } else {
            Some(new_current_ptr)
        };
        Some(resulting_ptr)
    }
}

/// Rounding up gives the least multiple of `a` at or above `p`.
pub proof fn lemma_align_up(p: int, a: int)
    requires
        0 <= p,
        0 < a,
    ensures
        align_up(p, a) % a == 0,
        p <= align_up(p, a) < p + a,
{
    let f = p % a;
    assert(0 <= f < a) by {
        vstd::arithmetic::div_mod::lemma_mod_bound(p, a);
    }
    assert(p == (p / a) * a + f) by {
        vstd::arithmetic::div_mod::lemma_fundamental_div_mod(p, a);
    }
    if f == 0 {
        assert((a - f) % a == 0) by {
            vstd::arithmetic::div_mod::lemma_mod_self_0(a);
        }
        assert(align_up(p, a) == p);
    } else {
        assert((a - f) % a == a - f) by {
            vstd::arithmetic::div_mod::lemma_small_mod((a - f) as nat, a as nat);
        }
        assert(align_up(p, a) == (p / a + 1) * a) by (nonlinear_arith)
            requires
                p == (p / a) * a + f,
                align_up(p, a) == p + (a - f),
        ;
        vstd::arithmetic::div_mod::lemma_mod_multiples_basic(p / a + 1, a);
    }
}

} // verus!
