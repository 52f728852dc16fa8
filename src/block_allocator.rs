use vstd::prelude::*;

verus! {

/// Start of video memory.
pub const VRAM_START: usize = 0x0600_0000;

/// Bytes of one screenblock, the unit of tile-map storage.
pub const SCREENBLOCK_SIZE: usize = 0x800;

/// Bytes of one charblock, the unit of tile image storage.
pub const CHARBLOCK_SIZE: usize = SCREENBLOCK_SIZE * 8;

/// Start of the region that tile maps are allocated from: after the two
/// charblocks of tile image data.
pub const SCREENBLOCK_ALLOC_START: usize = VRAM_START + CHARBLOCK_SIZE * 2;

/// Number of screenblocks in the tile-map region.
pub const SCREENBLOCK_COUNT: usize = 8;

/// Size and alignment of a request for memory.
#[derive(Clone, Copy, Debug, PartialEq, Eq, Structural)]
pub struct Layout {
    pub size: usize,
    pub align: usize,
}

/// Screenblocks that a request of `size` bytes takes.
pub open spec fn blocks_for(size: int) -> int {
    (size + SCREENBLOCK_SIZE - 1) / (SCREENBLOCK_SIZE as int)
}

/// `n` blocks from block `k` on are all in the region and free.
pub open spec fn run_free(used: Seq<bool>, k: int, n: int) -> bool {
    0 <= k && k + n <= used.len() && forall|j: int| k <= j < k + n ==> !#[trigger] used[j]
}

/// `k` is the lowest block from which `n` free blocks follow.
pub open spec fn first_fit(used: Seq<bool>, k: int, n: int) -> bool {
    run_free(used, k, n) && forall|j: int| 0 <= j < k ==> !#[trigger] run_free(used, j, n)
}

/// Some run of `n` free blocks exists.
pub open spec fn has_room(used: Seq<bool>, n: int) -> bool {
    exists|k: int| first_fit(used, k, n)
}

/// `used` with blocks `k` to `k + n` (excluded) set to `to`.
pub open spec fn mark(used: Seq<bool>, k: int, n: int, to: bool) -> Seq<bool> {
    Seq::new(used.len(), |j: int| if k <= j < k + n { to } else { used[j] })
}

/// Address of block `k` of the region.
pub open spec fn block_addr(k: int) -> int {
    SCREENBLOCK_ALLOC_START + k * SCREENBLOCK_SIZE
}

/// Hands out runs of whole screenblocks from a fixed region of video memory, and
/// takes them back.
pub struct ScreenblockAllocator {
    used: Vec<bool>,
}

impl ScreenblockAllocator {
    /// Which blocks of the region are in use.
    pub closed spec fn view(&self) -> Seq<bool> {
        self.used@
    }

    pub open spec fn wf(&self) -> bool {
        self@.len() == SCREENBLOCK_COUNT
    }

    pub fn new() -> (r: ScreenblockAllocator)
        ensures
            r.wf(),
            forall|j: int| 0 <= j < SCREENBLOCK_COUNT ==> !#[trigger] r@[j],
    {
        ScreenblockAllocator { used: vec![false, false, false, false, false, false, false, false] }
    }

    /// Whether a request of `layout.size` bytes can be met now.
    pub fn can_allocate(&self, layout: Layout) -> (r: bool)
        requires
            self.wf(),
            layout.size <= SCREENBLOCK_COUNT * SCREENBLOCK_SIZE,
        ensures
            r == has_room(self@, blocks_for(layout.size as int)),
    {
        let n = (layout.size + SCREENBLOCK_SIZE - 1) / SCREENBLOCK_SIZE;
        let mut k: usize = 0;
        while k + n <= self.used.len()
            invariant
                self.wf(),
                n == blocks_for(layout.size as int),
                n <= SCREENBLOCK_COUNT,
                k <= SCREENBLOCK_COUNT,
                forall|j: int| 0 <= j < k ==> !#[trigger] run_free(self@, j, n as int),
            decreases SCREENBLOCK_COUNT - k,
        {
            let mut j: usize = k;
            while j < k + n && !self.used[j]
                invariant
                    self.wf(),
                    k + n <= SCREENBLOCK_COUNT,
                    k <= j <= k + n,
                    forall|i: int| k <= i < j ==> !#[trigger] self@[i],
                decreases k + n - j,
            {
                j += 1;
            }
            if j == k + n {
                assert(first_fit(self@, k as int, n as int));
                return true;
            }
            assert(self@[j as int]);
            k += 1;
        }
        assert forall|k2: int| !first_fit(self@, k2, n as int) by {
            if k2 >= k {
            }
        }
        false
    }

    /// Takes the lowest run of free blocks that holds `layout.size` bytes and
    /// returns its address; `None`, with nothing changed, when there is none.
    pub fn allocate(&mut self, layout: Layout) -> (r: Option<usize>)
        requires
            old(self).wf(),
            layout.size <= SCREENBLOCK_COUNT * SCREENBLOCK_SIZE,
        ensures
            final(self).wf(),
            match r {
                Some(addr) => exists|k: int|
                    first_fit(old(self)@, k, blocks_for(layout.size as int)) && addr == block_addr(k)
                        && final(self)@ == mark(old(self)@, k, blocks_for(layout.size as int), true),
                None => final(self)@ == old(self)@ && forall|k: int|
                    !first_fit(old(self)@, k, blocks_for(layout.size as int)),
            },
    {
        let n = (layout.size + SCREENBLOCK_SIZE - 1) / SCREENBLOCK_SIZE;
        let mut k: usize = 0;
        while k + n <= self.used.len()
            invariant
                self.wf(),
                self@ == old(self)@,
                n == blocks_for(layout.size as int),
                n <= SCREENBLOCK_COUNT,
                k <= SCREENBLOCK_COUNT,
                forall|j: int| 0 <= j < k ==> !#[trigger] run_free(self@, j, n as int),
            decreases SCREENBLOCK_COUNT - k,
        {
            let mut j: usize = k;
            while j < k + n && !self.used[j]
                invariant
                    self.wf(),
                    k + n <= SCREENBLOCK_COUNT,
                    k <= j <= k + n,
                    forall|i: int| k <= i < j ==> !#[trigger] self@[i],
                decreases k + n - j,
            {
                j += 1;
            }
            if j == k + n {
                assert(first_fit(self@, k as int, n as int));
                let ghost before = self@;
                let mut i: usize = k;
                while i < k + n
                    invariant
                        self@.len() == SCREENBLOCK_COUNT,
                        k + n <= SCREENBLOCK_COUNT,
                        k <= i <= k + n,
                        self@ == mark(before, k as int, i - k, true),
                        before == old(self)@,
                        first_fit(before, k as int, n as int),
                        n == blocks_for(layout.size as int),
                    decreases k + n - i,
                {
                    self.used.set(i, true);
                    i += 1;
                    assert(self@ =~= mark(before, k as int, i - k, true));
                }
                assert(block_addr(k as int) == SCREENBLOCK_ALLOC_START + k * SCREENBLOCK_SIZE);
                return Some(SCREENBLOCK_ALLOC_START + k * SCREENBLOCK_SIZE);
            }
            assert(self@[j as int]);
            k += 1;
        }
        assert forall|k2: int| !first_fit(old(self)@, k2, n as int) by {
            if k2 >= k {
            }
        }
        None
    }

    /// Gives back the `layout.size` bytes of blocks at `addr`.
    pub fn deallocate(&mut self, addr: usize, layout: Layout)
        requires
            old(self).wf(),
            SCREENBLOCK_ALLOC_START <= addr,
            (addr - SCREENBLOCK_ALLOC_START) % (SCREENBLOCK_SIZE as int) == 0,
            (addr - SCREENBLOCK_ALLOC_START) / (SCREENBLOCK_SIZE as int) + blocks_for(
                layout.size as int,
            ) <= SCREENBLOCK_COUNT,
        ensures
            final(self).wf(),
            final(self)@ == mark(
                old(self)@,
                (addr - SCREENBLOCK_ALLOC_START) / (SCREENBLOCK_SIZE as int),
                blocks_for(layout.size as int),
                false,
            ),
    {
        let k = (addr - SCREENBLOCK_ALLOC_START) / SCREENBLOCK_SIZE;
        let n = (layout.size + SCREENBLOCK_SIZE - 1) / SCREENBLOCK_SIZE;
        let ghost before = self@;
        let mut i: usize = k;
        while i < k + n
            invariant
                self@.len() == SCREENBLOCK_COUNT,
                k + n <= SCREENBLOCK_COUNT,
                k <= i <= k + n,
                self@ == mark(before, k as int, i - k, false),
            decreases k + n - i,
        {
            self.used.set(i, false);
            i += 1;
            assert(self@ =~= mark(before, k as int, i - k, false));
        }
        assert(self@ =~= mark(before, k as int, n as int, false));
    }
}

} // verus!
