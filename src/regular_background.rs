use vstd::prelude::*;

use crate::block_allocator::{
    block_addr, blocks_for, first_fit, has_room, mark, Layout, ScreenblockAllocator,
    SCREENBLOCK_ALLOC_START, SCREENBLOCK_COUNT, SCREENBLOCK_SIZE, VRAM_START,
};
use crate::tiled::{
    slots_used, tile_location, BackgroundId, BackgroundIterator, RegularBackgroundData, Tile,
    TileSetting, TRANSPARENT_TILE_INDEX,
};
use crate::vram_manager::{
    add_spec, first_free, format_bytes, halves_paired, index_of_slot, lemma_index_round_trip,
    lemma_insert_wf, lemma_remove_then_add, lemma_shape_wf, referenced, remove_spec, resident,
    same_shape, store_wf, SlotView, TileFormat, TileSet, VramManager,
};

verus! {

/// A position on a grid, or a scroll offset, in tiles or pixels.
#[derive(Clone, Copy, Debug, PartialEq, Eq, Structural)]
pub struct Point {
    pub x: i32,
    pub y: i32,
}

/// Drawing priority of a layer; 0 is drawn on top.
#[derive(Clone, Copy, Debug, PartialEq, Eq, Structural)]
pub enum Priority {
    Level0,
    Level1,
    Level2,
    Level3,
}

impl Priority {
    pub open spec fn spec_value(self) -> u16 {
        match self {
            Priority::Level0 => 0,
            Priority::Level1 => 1,
            Priority::Level2 => 2,
            Priority::Level3 => 3,
        }
    }

    pub fn value(self) -> (r: u16)
        ensures
            r == self.spec_value(),
    {
        match self {
            Priority::Level0 => 0,
            Priority::Level1 => 1,
            Priority::Level2 => 2,
            Priority::Level3 => 3,
        }
    }
}

/// The tile-grid sizes that the hardware supports, in tiles.
#[derive(Clone, Copy, Debug, PartialEq, Eq, Structural)]
pub enum RegularBackgroundSize {
    Background32x32,
    Background64x32,
    Background32x64,
    Background64x64,
}

impl RegularBackgroundSize {
    pub open spec fn spec_width(self) -> int {
        match self {
            RegularBackgroundSize::Background32x32 => 32,
            RegularBackgroundSize::Background64x32 => 64,
            RegularBackgroundSize::Background32x64 => 32,
            RegularBackgroundSize::Background64x64 => 64,
        }
    }

    pub open spec fn spec_height(self) -> int {
        match self {
            RegularBackgroundSize::Background32x32 => 32,
            RegularBackgroundSize::Background64x32 => 32,
            RegularBackgroundSize::Background32x64 => 64,
            RegularBackgroundSize::Background64x64 => 64,
        }
    }

    pub open spec fn spec_num_tiles(self) -> int {
        self.spec_width() * self.spec_height()
    }

    /// The size field of the layer control register.
    pub open spec fn spec_size_flag(self) -> u16 {
        match self {
            RegularBackgroundSize::Background32x32 => 0,
            RegularBackgroundSize::Background64x32 => 1,
            RegularBackgroundSize::Background32x64 => 2,
            RegularBackgroundSize::Background64x64 => 3,
        }
    }

    /// The cell that position (`x`, `y`) addresses: coordinates wrap around the
    /// grid, and each 32x32 quarter is a screenblock of its own, stored row of
    /// screenblocks by row.
    pub open spec fn offset_of(self, x: int, y: int) -> int {
        let w = self.spec_width();
        let h = self.spec_height();
        let xm = x % w;
        let ym = y % h;
        let screenblock = xm / 32 + (ym / 32) * (w / 32);
        screenblock * 1024 + xm % 32 + 32 * (ym % 32)
    }

    pub fn width(self) -> (r: usize)
        ensures
            r == self.spec_width(),
    {
        match self {
            RegularBackgroundSize::Background32x32 => 32,
            RegularBackgroundSize::Background64x32 => 64,
            RegularBackgroundSize::Background32x64 => 32,
            RegularBackgroundSize::Background64x64 => 64,
        }
    }

    pub fn height(self) -> (r: usize)
        ensures
            r == self.spec_height(),
    {
        match self {
            RegularBackgroundSize::Background32x32 => 32,
            RegularBackgroundSize::Background64x32 => 32,
            RegularBackgroundSize::Background32x64 => 64,
            RegularBackgroundSize::Background64x64 => 64,
        }
    }

    pub fn num_tiles(self) -> (r: usize)
        ensures
            r == self.spec_num_tiles(),
    {
        self.width() * self.height()
    }

    /// Bytes of the committed grid: two per cell.
    pub fn size_in_bytes(self) -> (r: usize)
        ensures
            r == 2 * self.spec_num_tiles(),
    {
        self.num_tiles() * 2
    }

    /// The request for video memory that holds the committed grid.
    pub fn layout(self) -> (r: Layout)
        ensures
            r.size == 2 * self.spec_num_tiles(),
            r.align == SCREENBLOCK_SIZE,
    {
        Layout { size: self.size_in_bytes(), align: SCREENBLOCK_SIZE }
    }

    pub fn size_flag(self) -> (r: u16)
        ensures
            r == self.spec_size_flag(),
    {
        match self {
            RegularBackgroundSize::Background32x32 => 0,
            RegularBackgroundSize::Background64x32 => 1,
            RegularBackgroundSize::Background32x64 => 2,
            RegularBackgroundSize::Background64x64 => 3,
        }
    }

    /// The cell that `pos` addresses.
    pub fn gba_offset(self, pos: Point) -> (r: usize)
        ensures
            r == self.offset_of(pos.x as int, pos.y as int),
            r < self.spec_num_tiles(),
    {
        let w = self.width();
        let h = self.height();
        let x_mod = wrap(pos.x, w);
        let y_mod = wrap(pos.y, h);
        let rows_per_block: usize = if y_mod >= 32 { 1 } else { 0 };
        let blocks_per_row: usize = if w == 64 { 2 } else { 1 };
        assert(rows_per_block * blocks_per_row <= 2) by (nonlinear_arith)
            requires
                rows_per_block <= 1,
                blocks_per_row <= 2,
        ;
        let screenblock = x_mod / 32 + rows_per_block * blocks_per_row;
        screenblock * 32 * 32 + (x_mod % 32 + 32 * (y_mod % 32))
    }
}

/// The tile store after setting a cell that held `old` to `setting`, the cell's
/// new value, and whether it succeeded. The old tile's reference is given up
/// first; the new content, unless the setting is transparent, is admitted and
/// packed with the setting's attribute bits. When the store cannot take the
/// content the cell is left empty.
pub open spec fn set_cell_spec(
    v: Seq<SlotView>,
    old: u16,
    colours: TileFormat,
    setting: TileSetting,
    content: Seq<u8>,
) -> (Seq<SlotView>, u16, bool) {
    let v1 = if old != 0 {
        remove_spec(v, tile_location(old, colours))
    } else {
        v
    };
    if setting.spec_index() == TRANSPARENT_TILE_INDEX {
        (v1, 0, true)
    } else {
        let (v2, loc) = add_spec(v1, colours, content);
        match loc {
            Some(l) => (v2, l.spec_raw_index() | setting.spec_setting(), true),
            None => (v2, 0, false),
        }
    }
}

/// The tile store after giving up the references of the first `n` cells, in order.
pub open spec fn release_cells(v: Seq<SlotView>, cells: Seq<u16>, colours: TileFormat, n: int) -> Seq<
    SlotView,
>
    decreases n,
{
    if n <= 0 {
        v
    } else {
        let v1 = release_cells(v, cells, colours, n - 1);
        if cells[n - 1] != 0 {
            remove_spec(v1, tile_location(cells[n - 1], colours))
        } else {
            v1
        }
    }
}

/// A setting that a tile set can serve: transparent, or a tile id it holds.
pub open spec fn servable(tileset: TileSet, setting: TileSetting) -> bool {
    setting.spec_index() == TRANSPARENT_TILE_INDEX || tileset.has_tile(setting.spec_index() as int)
}

/// `after` and `copied` are what `commit` makes of `before`: a copy exactly when
/// the grid had changed, and a clean layer with the same cells.
pub open spec fn commit_post(
    before: RegularBackgroundTiles,
    after: RegularBackgroundTiles,
    copied: bool,
) -> bool {
    &&& copied == before.dirty()
    &&& !after.dirty()
    &&& after.cells() == before.cells()
    &&& after.same_config(&before)
}

/// Two commits with no change between them copy the grid at most once: the
/// second finds nothing to copy.
pub proof fn lemma_commit_idempotent(
    b0: RegularBackgroundTiles,
    b1: RegularBackgroundTiles,
    b2: RegularBackgroundTiles,
    copied1: bool,
    copied2: bool,
)
    requires
        commit_post(b0, b1, copied1),
        commit_post(b1, b2, copied2),
    ensures
        !copied2,
        b2.cells() == b0.cells(),
{
}

/// Setting a cell to the value it already shows changes nothing: the store
/// gets back the reference it gave up, and the cell keeps its value, so the
/// layer is not marked dirty.
pub proof fn lemma_rewrite_no_churn(
    v: Seq<SlotView>,
    old: u16,
    colours: TileFormat,
    setting: TileSetting,
    content: Seq<u8>,
)
    requires
        store_wf(v),
        old != 0,
        referenced(v, tile_location(old, colours)),
        v[tile_location(old, colours).first_slot()]->data == content,
        v[tile_location(old, colours).first_slot()]->refcount <= usize::MAX,
        setting.spec_index() != TRANSPARENT_TILE_INDEX,
        old == (old % 1024) | setting.spec_setting(),
    ensures
        set_cell_spec(v, old, colours, setting, content) == (v, old, true),
{
    lemma_remove_then_add(v, tile_location(old, colours), content);
}

/// Cell value `t` of a layer in format `colours` points at the tile starting at
/// slot `s`.
pub open spec fn refers_to(t: u16, colours: TileFormat, s: int) -> bool {
    t != 0 && tile_location(t, colours).first_slot() == s
}

/// Number of the first `n` cells that point at slot `s`.
pub open spec fn cells_referring(cells: Seq<u16>, colours: TileFormat, s: int, n: int) -> int
    decreases n,
{
    if n <= 0 {
        0
    } else {
        cells_referring(cells, colours, s, n - 1) + if refers_to(cells[n - 1], colours, s) {
            1int
        } else {
            0
        }
    }
}

/// The store holds exactly the references of `cells`: every non-empty cell
/// points at a resident tile of the layer's format, and every resident tile's
/// count is the number of cells that point at it.
pub open spec fn counts_match(v: Seq<SlotView>, cells: Seq<u16>, colours: TileFormat) -> bool {
    &&& forall|j: int|
        0 <= j < cells.len() && #[trigger] cells[j] != 0 ==> {
            let s = tile_location(cells[j], colours).first_slot();
            0 <= s < v.len() && v[s] is Tile && v[s]->format == colours
        }
    &&& forall|s: int|
        0 <= s < v.len() && (#[trigger] v[s]) is Tile ==> v[s]->refcount == cells_referring(
            cells,
            colours,
            s,
            cells.len() as int,
        )
}

proof fn lemma_cells_referring_update(
    cells: Seq<u16>,
    colours: TileFormat,
    s: int,
    p: int,
    x: u16,
    n: int,
)
    requires
        0 <= p < cells.len(),
        0 <= n <= cells.len(),
    ensures
        cells_referring(cells.update(p, x), colours, s, n) == cells_referring(cells, colours, s, n)
            - (if p < n && refers_to(cells[p], colours, s) {
            1int
        } else {
            0
        }) + (if p < n && refers_to(x, colours, s) {
            1int
        } else {
            0
        }),
    decreases n,
{
    if n > 0 {
        lemma_cells_referring_update(cells, colours, s, p, x, n - 1);
    }
}

proof fn lemma_cells_referring_none(cells: Seq<u16>, colours: TileFormat, s: int, n: int)
    requires
        0 <= n <= cells.len(),
        forall|j: int| 0 <= j < n ==> !refers_to(#[trigger] cells[j], colours, s),
    ensures
        cells_referring(cells, colours, s, n) == 0,
    decreases n,
{
    if n > 0 {
        lemma_cells_referring_none(cells, colours, s, n - 1);
    }
}

proof fn lemma_cells_referring_some(cells: Seq<u16>, colours: TileFormat, s: int, p: int, n: int)
    requires
        0 <= p < n <= cells.len(),
        refers_to(cells[p], colours, s),
    ensures
        cells_referring(cells, colours, s, n) >= 1,
    decreases n,
{
    if n - 1 > p {
        lemma_cells_referring_some(cells, colours, s, p, n - 1);
        lemma_cells_referring_nonneg(cells, colours, s, n - 1);
    } else {
        lemma_cells_referring_nonneg(cells, colours, s, n - 1);
    }
}

proof fn lemma_cells_referring_nonneg(cells: Seq<u16>, colours: TileFormat, s: int, n: int)
    ensures
        cells_referring(cells, colours, s, n) >= 0,
    decreases n,
{
    if n > 0 {
        lemma_cells_referring_nonneg(cells, colours, s, n - 1);
    }
}

/// Packing a location below 1024 with attribute bits that leave the low ten bits
/// alone gives back the location.
proof fn lemma_pack_location(raw: u16, attrs: u16)
    requires
        raw < 1024,
        attrs % 1024 == 0,
    ensures
        (raw | attrs) % 1024 == raw,
        raw != 0 ==> (raw | attrs) != 0,
{
    assert((raw | attrs) % 1024 == raw) by (bit_vector)
        requires
            raw < 1024,
            attrs % 1024 == 0,
    ;
    assert(raw != 0 ==> (raw | attrs) != 0) by (bit_vector);
}

/// For a layer that is the store's only user, setting a cell keeps every
/// tile's reference count equal to the number of cells that point at it, as long
/// as the setting's attribute bits leave the location bits alone.
pub proof fn lemma_set_cell_keeps_counts(
    v: Seq<SlotView>,
    cells: Seq<u16>,
    colours: TileFormat,
    pos: int,
    setting: TileSetting,
    content: Seq<u8>,
)
    requires
        store_wf(v),
        counts_match(v, cells, colours),
        0 <= pos < cells.len(),
        content.len() == format_bytes(colours),
        setting.spec_setting() % 1024 == 0,
    ensures
        ({
            let (w, t, ok) = set_cell_spec(v, cells[pos], colours, setting, content);
            store_wf(w) && counts_match(w, cells.update(pos, t), colours)
        }),
{
    let old = cells[pos];
    let n = cells.len() as int;
    let c1 = cells.update(pos, 0);
    let v1 = if old != 0 {
        remove_spec(v, tile_location(old, colours))
    } else {
        v
    };
    if old != 0 {
        let loc = tile_location(old, colours);
        let s0 = loc.first_slot();
        lemma_cells_referring_some(cells, colours, s0, pos, n);
        assert(referenced(v, loc));
        assert forall|t: int| 0 <= t < v.len() implies same_shape(#[trigger] v[t], v1[t]) by {}
        lemma_shape_wf(v, v1);
        assert forall|s: int| 0 <= s < v1.len() && (#[trigger] v1[s]) is Tile implies v1[s]->refcount
            == cells_referring(c1, colours, s, n) by {
            lemma_cells_referring_update(cells, colours, s, pos, 0, n);
        }
        assert forall|j: int| 0 <= j < c1.len() && #[trigger] c1[j] != 0 implies {
            let s = tile_location(c1[j], colours).first_slot();
            0 <= s < v1.len() && v1[s] is Tile && v1[s]->format == colours
        } by {
            assert(c1[j] == cells[j]);
        }
    } else {
        assert(c1 =~= cells);
    }
    assert(store_wf(v1) && counts_match(v1, c1, colours));
    if setting.spec_index() != TRANSPARENT_TILE_INDEX {
        let (w, loc2) = add_spec(v1, colours, content);
        if exists|s: int| resident(v1, colours, content, s) {
            let s = choose|s: int| resident(v1, colours, content, s);
            if v1[s]->refcount < usize::MAX {
                lemma_index_round_trip(v1, s);
                let l = index_of_slot(s, colours);
                assert(halves_paired(v1, s));
                let raw = l.spec_raw_index();
                assert(raw < 1024 && raw != 0);
                lemma_pack_location(raw, setting.spec_setting());
                let t = raw | setting.spec_setting();
                assert(tile_location(t, colours) == l);
                let c2 = cells.update(pos, t);
                assert(c2 =~= c1.update(pos, t));
                assert forall|u: int| 0 <= u < v1.len() implies same_shape(#[trigger] v1[u], w[u]) by {}
                lemma_shape_wf(v1, w);
                assert forall|u: int| 0 <= u < w.len() && (#[trigger] w[u]) is Tile implies w[u]->refcount
                    == cells_referring(c2, colours, u, n) by {
                    lemma_cells_referring_update(c1, colours, u, pos, t, n);
                }
                assert forall|j: int| 0 <= j < c2.len() && #[trigger] c2[j] != 0 implies {
                    let u = tile_location(c2[j], colours).first_slot();
                    0 <= u < w.len() && w[u] is Tile && w[u]->format == colours
                } by {
                    if j != pos {
                        assert(c2[j] == c1[j]);
                    }
                }
            } else {
                assert(cells.update(pos, 0) =~= c1);
            }
        } else if exists|s: int| first_free(v1, colours, s) {
            let s = choose|s: int| first_free(v1, colours, s);
            lemma_insert_wf(v1, colours, content, s);
            assert(w[s] is Tile);
            lemma_index_round_trip(w, s);
            let l = index_of_slot(s, colours);
            assert(halves_paired(w, s));
            let raw = l.spec_raw_index();
            assert(raw < 1024 && raw != 0);
            lemma_pack_location(raw, setting.spec_setting());
            let t = raw | setting.spec_setting();
            assert(tile_location(t, colours) == l);
            let c2 = cells.update(pos, t);
            assert(c2 =~= c1.update(pos, t));
            assert forall|j: int| 0 <= j < n implies !refers_to(#[trigger] c1[j], colours, s) by {}
            lemma_cells_referring_none(c1, colours, s, n);
            assert forall|u: int| 0 <= u < w.len() && (#[trigger] w[u]) is Tile implies w[u]->refcount
                == cells_referring(c2, colours, u, n) by {
                lemma_cells_referring_update(c1, colours, u, pos, t, n);
                if u != s {
                    assert(w[u] == v1[u]);
                }
            }
            assert forall|j: int| 0 <= j < c2.len() && #[trigger] c2[j] != 0 implies {
                let u = tile_location(c2[j], colours).first_slot();
                0 <= u < w.len() && w[u] is Tile && w[u]->format == colours
            } by {
                if j != pos {
                    assert(c2[j] == c1[j]);
                    let u = tile_location(c1[j], colours).first_slot();
                    assert(v1[u] is Tile);
                }
            }
        } else {
            assert(cells.update(pos, 0) =~= c1);
        }
    }
}

proof fn lemma_cells_referring_monotone(
    cells: Seq<u16>,
    colours: TileFormat,
    s: int,
    k: int,
    n: int,
)
    requires
        0 <= k <= n,
    ensures
        cells_referring(cells, colours, s, k) <= cells_referring(cells, colours, s, n),
    decreases n - k,
{
    if k < n {
        lemma_cells_referring_monotone(cells, colours, s, k, n - 1);
    }
}

/// Releasing the first `k` cells of a layer that is the store's only user
/// leaves each tile counted once for each later cell that points at it.
proof fn lemma_release_prefix(v: Seq<SlotView>, cells: Seq<u16>, colours: TileFormat, k: int)
    requires
        store_wf(v),
        counts_match(v, cells, colours),
        0 <= k <= cells.len(),
    ensures
        ({
            let w = release_cells(v, cells, colours, k);
            &&& w.len() == v.len()
            &&& forall|s: int| 0 <= s < v.len() ==> same_shape(#[trigger] v[s], w[s])
            &&& forall|s: int|
                0 <= s < w.len() && (#[trigger] w[s]) is Tile ==> w[s]->refcount == cells_referring(
                    cells,
                    colours,
                    s,
                    cells.len() as int,
                ) - cells_referring(cells, colours, s, k)
        }),
    decreases k,
{
    let n = cells.len() as int;
    if k > 0 {
        lemma_release_prefix(v, cells, colours, k - 1);
        let w1 = release_cells(v, cells, colours, k - 1);
        let w = release_cells(v, cells, colours, k);
        let c = cells[k - 1];
        if c != 0 {
            let loc = tile_location(c, colours);
            let s0 = loc.first_slot();
            assert(same_shape(v[s0], w1[s0]));
            lemma_cells_referring_monotone(cells, colours, s0, k, n);
            assert(referenced(w1, loc));
            assert forall|s: int| 0 <= s < v.len() implies same_shape(#[trigger] v[s], w[s]) by {
                assert(same_shape(v[s], w1[s]));
            }
        }
        assert forall|s: int| 0 <= s < w.len() && (#[trigger] w[s]) is Tile implies w[s]->refcount
            == cells_referring(cells, colours, s, n) - cells_referring(cells, colours, s, k) by {
            assert(same_shape(v[s], w1[s]));
        }
    }
}

/// Clearing a layer that is the store's only user gives up every reference:
/// afterwards every resident tile has a count of zero, so the next reclamation
/// frees them all, and nothing leaks.
pub proof fn lemma_clear_releases_all(v: Seq<SlotView>, cells: Seq<u16>, colours: TileFormat)
    requires
        store_wf(v),
        counts_match(v, cells, colours),
    ensures
        ({
            let w = release_cells(v, cells, colours, cells.len() as int);
            forall|s: int| 0 <= s < w.len() && (#[trigger] w[s]) is Tile ==> w[s]->refcount == 0
        }),
{
    lemma_release_prefix(v, cells, colours, cells.len() as int);
}

/// A regular background layer: a grid of committed cells kept in memory, and the
/// run of screenblocks in video memory that `commit` copies it to.
pub struct RegularBackgroundTiles {
    priority: Priority,
    size: RegularBackgroundSize,
    colours: TileFormat,
    tiles: Vec<Tile>,
    is_dirty: bool,
    scroll: Point,
    screenblock_addr: usize,
}

impl RegularBackgroundTiles {
    /// The committed value of each cell; zero is an empty cell.
    pub closed spec fn cells(&self) -> Seq<u16> {
        self.tiles@.map_values(|t: Tile| t.0)
    }

    pub closed spec fn dirty(&self) -> bool {
        self.is_dirty
    }

    pub closed spec fn spec_priority(&self) -> Priority {
        self.priority
    }

    pub closed spec fn spec_size(&self) -> RegularBackgroundSize {
        self.size
    }

    pub closed spec fn colours(&self) -> TileFormat {
        self.colours
    }

    pub closed spec fn spec_scroll(&self) -> Point {
        self.scroll
    }

    /// Address of the layer's first screenblock.
    pub closed spec fn addr(&self) -> int {
        self.screenblock_addr as int
    }

    /// Everything but the cells and the dirty flag agrees.
    pub open spec fn same_config(&self, other: &RegularBackgroundTiles) -> bool {
        &&& self.spec_priority() == other.spec_priority()
        &&& self.spec_size() == other.spec_size()
        &&& self.colours() == other.colours()
        &&& self.spec_scroll() == other.spec_scroll()
        &&& self.addr() == other.addr()
    }

    pub open spec fn wf(&self) -> bool {
        &&& self.cells().len() == self.spec_size().spec_num_tiles()
        &&& SCREENBLOCK_ALLOC_START <= self.addr()
        &&& (self.addr() - SCREENBLOCK_ALLOC_START) % (SCREENBLOCK_SIZE as int) == 0
        &&& (self.addr() - SCREENBLOCK_ALLOC_START) / (SCREENBLOCK_SIZE as int) + blocks_for(
            2 * self.spec_size().spec_num_tiles(),
        ) <= SCREENBLOCK_COUNT
    }

    /// The screenblock number of the layer's storage.
    pub open spec fn spec_screen_base_block(&self) -> int {
        (self.addr() - VRAM_START) / (SCREENBLOCK_SIZE as int)
    }

    /// The layer control-register value: priority in bits 0 and 1, 8-bit colour at
    /// bit 7, screenblock from bit 8, size from bit 14.
    pub open spec fn spec_bg_ctrl(&self) -> u16 {
        let flag: int = match self.colours() {
            TileFormat::FourBpp => 0,
            TileFormat::EightBpp => 1,
        };
        (self.spec_priority().spec_value() + flag * 128 + self.spec_screen_base_block() * 256
            + self.spec_size().spec_size_flag() * 16384) as u16
    }

    /// What the layer registers for a frame.
    pub open spec fn frame_data(&self) -> RegularBackgroundData {
        RegularBackgroundData {
            bg_ctrl: self.spec_bg_ctrl(),
            scroll_x: self.spec_scroll().x as u16,
            scroll_y: self.spec_scroll().y as u16,
        }
    }

    /// Creates an empty layer and reserves video memory for it: the lowest run of
    /// free screenblocks that holds the grid. There must be room
    /// (`ScreenblockAllocator::can_allocate` on `size.layout()`): a layer cannot
    /// exist without its storage.
    pub fn new(
        priority: Priority,
        size: RegularBackgroundSize,
        colours: TileFormat,
        allocator: &mut ScreenblockAllocator,
    ) -> (r: RegularBackgroundTiles)
        requires
            old(allocator).wf(),
            has_room(old(allocator)@, blocks_for(2 * size.spec_num_tiles())),
        ensures
            final(allocator).wf(),
            ({
                let b = r;
                {
                    &&& b.wf()
                    &&& b.spec_priority() == priority
                    &&& b.spec_size() == size
                    &&& b.colours() == colours
                    &&& b.spec_scroll() == Point { x: 0, y: 0 }
                    &&& b.dirty()
                    &&& b.cells() == Seq::new(size.spec_num_tiles() as nat, |i: int| 0u16)
                    &&& exists|k: int|
                        first_fit(old(allocator)@, k, blocks_for(2 * size.spec_num_tiles()))
                            && b.addr() == block_addr(k) && final(allocator)@ == mark(
                            old(allocator)@,
                            k,
                            blocks_for(2 * size.spec_num_tiles()),
                            true,
                        )
                }
            }),
    {
        let addr = match allocator.allocate(size.layout()) {
            Some(a) => a,
            None => {
                assert(!has_room(old(allocator)@, blocks_for(2 * size.spec_num_tiles())));
                unreached()
            },
        };
        let n = size.num_tiles();
        let mut tiles: Vec<Tile> = Vec::new();
        while tiles.len() < n
            invariant
                tiles@.len() <= n,
                forall|i: int| 0 <= i < tiles@.len() ==> (#[trigger] tiles@[i]).0 == 0,
            decreases n - tiles@.len(),
        {
            tiles.push(Tile(0));
        }
        let r = RegularBackgroundTiles {
            priority,
            size,
            colours,
            tiles,
            is_dirty: true,
            scroll: Point { x: 0, y: 0 },
            screenblock_addr: addr,
        };
        assert(r.cells() =~= Seq::new(size.spec_num_tiles() as nat, |i: int| 0u16));
        r
    }

    pub fn set_scroll_pos(&mut self, scroll: Point)
        ensures
            final(self).spec_scroll() == scroll,
            final(self).cells() == old(self).cells(),
            final(self).dirty() == old(self).dirty(),
            final(self).spec_priority() == old(self).spec_priority(),
            final(self).spec_size() == old(self).spec_size(),
            final(self).colours() == old(self).colours(),
            final(self).addr() == old(self).addr(),
    {
        self.scroll = scroll;
    }

    pub fn scroll_pos(&self) -> (r: Point)
        ensures
            r == self.spec_scroll(),
    {
        self.scroll
    }

    /// The colour depth of the layer's tiles.
    pub fn tile_format(&self) -> (r: TileFormat)
        ensures
            r == self.colours(),
    {
        self.colours
    }

    pub fn size(&self) -> (r: RegularBackgroundSize)
        ensures
            r == self.spec_size(),
    {
        self.size
    }

    /// Sets the cell at `pos`, taken modulo the grid, to show `tile_setting` from
    /// `tileset`. Writing the value a cell already has leaves the layer clean.
    /// `false` when the tile store had no room; the cell is then empty.
    #[must_use]
    pub fn set_tile(
        &mut self,
        vram: &mut VramManager,
        pos: Point,
        tileset: &TileSet,
        tile_setting: TileSetting,
    ) -> (r: bool)
        requires
            old(self).wf(),
            old(vram).wf(),
            tileset.spec_format() == old(self).colours(),
            servable(*tileset, tile_setting),
        ensures
            final(self).wf(),
            final(vram).wf(),
            final(self).same_config(old(self)),
            ({
                let p = old(self).spec_size().offset_of(pos.x as int, pos.y as int);
                let (v, t, ok) = set_cell_spec(
                    old(vram)@,
                    old(self).cells()[p],
                    old(self).colours(),
                    tile_setting,
                    tileset.content(tile_setting.spec_index() as int),
                );
                &&& final(vram)@ == v
                &&& final(self).cells() == old(self).cells().update(p, t)
                &&& final(self).dirty() == (old(self).dirty() || t != old(self).cells()[p])
                &&& r == ok
            }),
    {
        let p = self.size.gba_offset(pos);
        self.set_tile_at_pos(vram, p, tileset, tile_setting)
    }

    /// Sets the cell with linear offset `pos`, as `set_tile` does.
    #[must_use]
    pub fn set_tile_at_pos(
        &mut self,
        vram: &mut VramManager,
        pos: usize,
        tileset: &TileSet,
        tile_setting: TileSetting,
    ) -> (r: bool)
        requires
            old(self).wf(),
            old(vram).wf(),
            pos < old(self).cells().len(),
            tileset.spec_format() == old(self).colours(),
            servable(*tileset, tile_setting),
        ensures
            final(self).wf(),
            final(vram).wf(),
            final(self).same_config(old(self)),
            ({
                let (v, t, ok) = set_cell_spec(
                    old(vram)@,
                    old(self).cells()[pos as int],
                    old(self).colours(),
                    tile_setting,
                    tileset.content(tile_setting.spec_index() as int),
                );
                &&& final(vram)@ == v
                &&& final(self).cells() == old(self).cells().update(pos as int, t)
                &&& final(self).dirty() == (old(self).dirty() || t != old(self).cells()[pos as int])
                &&& r == ok
            }),
    {
        let old_tile = self.tiles[pos];
        assert(old_tile.0 == self.cells()[pos as int]);
        if old_tile.0 != 0 {
            vram.remove_tile(old_tile.tile_index(self.colours));
        }
        let tile_index = tile_setting.index();
        let mut ok = true;
        let new_tile = if tile_index != TRANSPARENT_TILE_INDEX {
            match vram.add_tile(tileset, tile_index) {
                Some(idx) => Tile::new(idx, tile_setting),
                None => {
                    ok = false;
                    Tile(0)
                },
            }
        } else {
            Tile(0)
        };
        if old_tile == new_tile {
            assert(self.cells() =~= old(self).cells().update(pos as int, new_tile.0));
            return ok;
        }
        self.tiles.set(pos, new_tile);
        self.is_dirty = true;
        assert(self.cells() =~= old(self).cells().update(pos as int, new_tile.0));
        ok
    }
    /// Sets the visible 30x20 cells from a full screen of settings, row by row,
    /// and stops at the first setting that the tile store has no room for
    /// (`false`).
    #[must_use]
    pub fn fill_with(&mut self, vram: &mut VramManager, tile_data: &TileData) -> (r: bool)
        requires
            old(self).wf(),
            old(vram).wf(),
            tile_data.tile_settings@.len() >= SCREEN_COLUMNS * SCREEN_ROWS,
            tile_data.tiles.spec_format() == old(self).colours(),
            forall|k: int|
                0 <= k < SCREEN_COLUMNS * SCREEN_ROWS ==> servable(
                    tile_data.tiles,
                    #[trigger] tile_data.tile_settings@[k],
                ),
        ensures
            final(self).wf(),
            final(vram).wf(),
            final(self).same_config(old(self)),
            (final(vram)@, final(self).cells(), final(self).dirty(), r) == fill_spec(
                old(vram)@,
                old(self).cells(),
                old(self).dirty(),
                old(self).colours(),
                tile_data.tiles,
                tile_data.tile_settings@,
                (SCREEN_COLUMNS * SCREEN_ROWS) as int,
            ),
    {
        let total = SCREEN_COLUMNS * SCREEN_ROWS;
        let mut k: usize = 0;
        while k < total
            invariant
                self.wf(),
                vram.wf(),
                self.same_config(old(self)),
                total == SCREEN_COLUMNS * SCREEN_ROWS,
                0 <= k <= total,
                tile_data.tile_settings@.len() >= total,
                tile_data.tiles.spec_format() == old(self).colours(),
                forall|j: int|
                    0 <= j < total ==> servable(
                        tile_data.tiles,
                        #[trigger] tile_data.tile_settings@[j],
                    ),
                (vram@, self.cells(), self.dirty(), true) == fill_spec(
                    old(vram)@,
                    old(self).cells(),
                    old(self).dirty(),
                    old(self).colours(),
                    tile_data.tiles,
                    tile_data.tile_settings@,
                    k as int,
                ),
            decreases total - k,
        {
            let pos = (k / SCREEN_COLUMNS) * 32 + k % SCREEN_COLUMNS;
            assert(pos == screen_cell(k as int));
            assert(self.spec_size().spec_num_tiles() >= 1024);
            let setting = tile_data.tile_settings[k];
            assert(servable(tile_data.tiles, setting));
            let ok = self.set_tile_at_pos(vram, pos, &tile_data.tiles, setting);
            k += 1;
            if !ok {
                proof {
                    lemma_fill_stops(
                        old(vram)@,
                        old(self).cells(),
                        old(self).dirty(),
                        old(self).colours(),
                        tile_data.tiles,
                        tile_data.tile_settings@,
                        k as int,
                        total as int,
                    );
                }
                return false;
            }
        }
        true
    }

    /// Marks the layer clean and says whether the grid changed since the last
    /// commit, that is whether it must be copied to its screenblocks now.
    pub fn commit(&mut self) -> (r: bool)
        ensures
            commit_post(*old(self), *final(self), r),
    {
        let r = self.is_dirty;
        self.is_dirty = false;
        r
    }

    /// The committed grid, cell by cell, as copied to video memory.
    pub fn tile_words(&self) -> (r: Vec<u16>)
        ensures
            r@ == self.cells(),
    {
        let mut r: Vec<u16> = Vec::new();
        let mut i: usize = 0;
        while i < self.tiles.len()
            invariant
                0 <= i <= self.tiles@.len(),
                r@ == self.cells().take(i as int),
            decreases self.tiles@.len() - i,
        {
            r.push(self.tiles[i].0);
            i += 1;
            assert(r@ =~= self.cells().take(i as int));
        }
        assert(r@ =~= self.cells());
        r
    }

    /// Registers the layer for this frame and returns the slot it got. The frame
    /// must have a slot left (`BackgroundIterator::has_regular_slot`).
    pub fn show(&self, bg_iter: &mut BackgroundIterator) -> (r: BackgroundId)
        requires
            self.wf(),
            old(bg_iter).wf(),
            old(bg_iter).regular_slot_left(),
        ensures
            final(bg_iter).wf(),
            r == BackgroundId(old(bg_iter).num_regular() as u8),
            final(bg_iter).num_regular() == old(bg_iter).num_regular() + 1,
            final(bg_iter).num_affine() == old(bg_iter).num_affine(),
            final(bg_iter).regular() == old(bg_iter).regular().push(self.frame_data()),
            final(bg_iter).affine() == old(bg_iter).affine(),
    {
        bg_iter.set_next_regular(
            RegularBackgroundData {
                bg_ctrl: self.bg_ctrl_value(),
                scroll_x: self.scroll.x as u16,
                scroll_y: self.scroll.y as u16,
            },
        )
    }

    /// Gives up every cell's reference, in cell order, and empties the grid.
    pub fn clear(&mut self, vram: &mut VramManager)
        requires
            old(self).wf(),
            old(vram).wf(),
        ensures
            final(self).wf(),
            final(vram).wf(),
            final(self).same_config(old(self)),
            final(self).dirty(),
            final(self).cells() == Seq::new(old(self).cells().len(), |i: int| 0u16),
            final(vram)@ == release_cells(
                old(vram)@,
                old(self).cells(),
                old(self).colours(),
                old(self).cells().len() as int,
            ),
    {
        let ghost cells0 = self.cells();
        let ghost tiles0 = self.tiles@;
        let mut i: usize = 0;
        while i < self.tiles.len()
            invariant
                self.wf(),
                vram.wf(),
                self.same_config(old(self)),
                0 <= i <= self.tiles@.len(),
                self.cells().len() == cells0.len(),
                cells0 == old(self).cells(),
                tiles0 == old(self).tiles@,
                self.tiles@.len() == tiles0.len(),
                forall|j: int| 0 <= j < i ==> (#[trigger] self.tiles@[j]).0 == 0,
                forall|j: int| i <= j < tiles0.len() ==> #[trigger] self.tiles@[j] == tiles0[j],
                vram@ == release_cells(old(vram)@, cells0, self.colours, i as int),
            decreases self.tiles@.len() - i,
        {
            let tile = self.tiles[i];
            assert(tile.0 == cells0[i as int]);
            assert(self.cells().len() == cells0.len());
            if tile.0 != 0 {
                vram.remove_tile(tile.tile_index(self.colours));
            }
            self.tiles.set(i, Tile(0));
            i += 1;
        }
        self.is_dirty = true;
        assert(self.cells() =~= Seq::new(old(self).cells().len(), |i: int| 0u16));
    }

    /// Empties the grid, as `clear` does, and gives its screenblocks back.
    pub fn release(self, vram: &mut VramManager, allocator: &mut ScreenblockAllocator)
        requires
            self.wf(),
            old(vram).wf(),
            old(allocator).wf(),
        ensures
            final(vram).wf(),
            final(vram)@ == release_cells(
                old(vram)@,
                self.cells(),
                self.colours(),
                self.cells().len() as int,
            ),
            final(allocator).wf(),
            final(allocator)@ == mark(
                old(allocator)@,
                (self.addr() - SCREENBLOCK_ALLOC_START) / (SCREENBLOCK_SIZE as int),
                blocks_for(2 * self.spec_size().spec_num_tiles()),
                false,
            ),
    {
        let mut layer = self;
        layer.clear(vram);
        allocator.deallocate(layer.screenblock_addr, layer.size.layout());
    }

    /// The layer control-register value.
    pub fn bg_ctrl_value(&self) -> (r: u16)
        requires
            self.wf(),
        ensures
            r == self.spec_bg_ctrl(),
    {
        let tile_colour_flag: u16 = match self.colours {
            TileFormat::FourBpp => 0,
            TileFormat::EightBpp => 1,
        };
        let p = self.priority.value();
        let sbb = self.screen_base_block();
        let sf = self.size.size_flag();
        let r = p | (tile_colour_flag << 7u16) | (sbb << 8u16) | (sf << 14u16);
        assert(r == p + tile_colour_flag * 128 + sbb * 256 + sf * 16384) by (bit_vector)
            requires
                p <= 3,
                tile_colour_flag <= 1,
                sbb < 32,
                sf <= 3,
                r == p | (tile_colour_flag << 7u16) | (sbb << 8u16) | (sf << 14u16),
        ;
        r
    }

    /// The screenblock number of the layer's storage.
    pub fn screen_base_block(&self) -> (r: u16)
        requires
            self.wf(),
        ensures
            r == self.spec_screen_base_block(),
            16 <= r < 24,
    {
        ((self.screenblock_addr - VRAM_START) / SCREENBLOCK_SIZE) as u16
    }
}

/// A full screen of tile settings, row by row, with the tile set they refer to.
pub struct TileData<'a> {
    pub tiles: TileSet<'a>,
    pub tile_settings: &'a [TileSetting],
}

/// Columns and rows of the visible screen, in tiles.
pub const SCREEN_COLUMNS: usize = 30;
pub const SCREEN_ROWS: usize = 20;

/// The cell of a 32-wide grid that the `k`th setting of a screen goes to.
pub open spec fn screen_cell(k: int) -> int {
    (k / 30) * 32 + k % 30
}

/// After a failure, later settings change nothing.
proof fn lemma_fill_stops(
    v: Seq<SlotView>,
    cells: Seq<u16>,
    dirty: bool,
    colours: TileFormat,
    tiles: TileSet,
    settings: Seq<TileSetting>,
    k: int,
    n: int,
)
    requires
        0 <= k <= n,
        !fill_spec(v, cells, dirty, colours, tiles, settings, k).3,
    ensures
        fill_spec(v, cells, dirty, colours, tiles, settings, n) == fill_spec(
            v,
            cells,
            dirty,
            colours,
            tiles,
            settings,
            k,
        ),
    decreases n - k,
{
    if n > k {
        lemma_fill_stops(v, cells, dirty, colours, tiles, settings, k, n - 1);
    }
}

/// Grid state (tile store, cells, dirty flag) and success after the first `k`
/// settings of a screen have been set in turn, stopping at the first failure.
pub open spec fn fill_spec(
    v: Seq<SlotView>,
    cells: Seq<u16>,
    dirty: bool,
    colours: TileFormat,
    tiles: TileSet,
    settings: Seq<TileSetting>,
    k: int,
) -> (Seq<SlotView>, Seq<u16>, bool, bool)
    decreases k,
{
    if k <= 0 {
        (v, cells, dirty, true)
    } else {
        let (v1, c1, d1, ok1) = fill_spec(v, cells, dirty, colours, tiles, settings, k - 1);
        if !ok1 {
            (v1, c1, d1, false)
        } else {
            let p = screen_cell(k - 1);
            let s = settings[k - 1];
            let (v2, t, ok2) = set_cell_spec(
                v1,
                c1[p],
                colours,
                s,
                tiles.content(s.spec_index() as int),
            );
            (v2, c1.update(p, t), d1 || t != c1[p], ok2)
        }
    }
}

/// `v` modulo `n`, for `n` of 32 or 64.
fn wrap(v: i32, n: usize) -> (r: usize)
    requires
        n == 32 || n == 64,
    ensures
        r == v as int % (n as int),
        r < n,
{
    if v >= 0 {
        ((v as u32) % (n as u32)) as usize
    } else {
        let a = (-(v + 1)) as u32;
        let rem = (a % (n as u32)) as usize;
        proof {
            let q = a as int / n as int;
            assert(a as int == q * n + rem) by {
                vstd::arithmetic::div_mod::lemma_fundamental_div_mod(a as int, n as int);
            }
            assert(v as int == (-(q + 1)) * n + (n - 1 - rem)) by (nonlinear_arith)
                requires
                    a as int == q * n + rem,
                    a as int == -(v as int + 1),
            ;
            vstd::arithmetic::div_mod::lemma_fundamental_div_mod_converse(
                v as int,
                n as int,
                -(q + 1),
                n - 1 - rem,
            );
        }
        n - 1 - rem
    }
}

} // verus!
