use vstd::prelude::*;

use crate::dma::DmaControllable;
use crate::memory_mapped::RegisterWrite;
use crate::vram_manager::{gc_spec, TileFormat, TileIndex, VramManager};

verus! {

/// The tile id that marks a cell with no tile at all.
pub const TRANSPARENT_TILE_INDEX: u16 = 0xffff;

/// Address of the display-control register.
pub const DISPLAY_CONTROL_ADDR: usize = 0x0400_0000;

/// Bits of the display-control register that a frame commit leaves alone.
pub const DISPLAY_CONTROL_KEEP: u16 = 0b1111_0000_0111_1000;

/// The hardware layer slot that a regular background was shown in this frame.
#[derive(Clone, Copy, Debug, PartialEq, Eq, Structural)]
pub struct BackgroundId(pub u8);

impl BackgroundId {
    /// The horizontal scroll register of this slot, for scroll effects that a DMA
    /// channel drives line by line.
    pub fn x_scroll_dma(self) -> (r: DmaControllable<u16>)
        ensures
            r.location() == BG_SCROLL_BASE + 4 * self.0,
    {
        DmaControllable::new(BG_SCROLL_BASE + self.0 as usize * 4)
    }
}

/// The hardware layer slot that an affine background was shown in this frame.
#[derive(Clone, Copy, Debug, PartialEq, Eq, Structural)]
pub struct AffineBackgroundId(pub u8);

/// Value of the attribute bits for the given flips and palette; the palette keeps
/// its low four bits.
pub open spec fn effect_value(hflip: bool, vflip: bool, palette_id: u8) -> u16 {
    ((if hflip { 0x400int } else { 0 }) + (if vflip { 0x800int } else { 0 }) + (palette_id % 16)
        * 0x1000) as u16
}

/// What a grid cell should show: a tile id into a tile set, and the attribute
/// bits (horizontal flip at bit 10, vertical flip at bit 11, palette at bits 12
/// to 15) that go with it.
#[derive(Clone, Copy, Debug, PartialEq, Eq, Structural)]
pub struct TileSetting {
    tile_id: u16,
    effect_bits: u16,
}

impl TileSetting {
    pub closed spec fn spec_index(self) -> u16 {
        self.tile_id
    }

    pub closed spec fn spec_setting(self) -> u16 {
        self.effect_bits
    }

    /// A cell with no tile.
    pub fn blank() -> (r: TileSetting)
        ensures
            r.spec_index() == TRANSPARENT_TILE_INDEX,
            r.spec_setting() == 0,
    {
        TileSetting { tile_id: TRANSPARENT_TILE_INDEX, effect_bits: 0 }
    }

    pub fn new(tile_id: u16, hflip: bool, vflip: bool, palette_id: u8) -> (r: TileSetting)
        ensures
            r.spec_index() == tile_id,
            r.spec_setting() == effect_value(hflip, vflip, palette_id),
    {
        let h: u16 = if hflip { 1 } else { 0 };
        let v: u16 = if vflip { 1 } else { 0 };
        let p: u16 = palette_id as u16;
        let effect_bits = (h << 10u16) | (v << 11u16) | (p << 12u16);
        assert(effect_bits == ((h * 0x400 + v * 0x800 + (p % 16) * 0x1000) as u16)) by (bit_vector)
            requires
                h <= 1,
                v <= 1,
                p < 256,
                effect_bits == (h << 10u16) | (v << 11u16) | (p << 12u16),
        ;
        TileSetting { tile_id, effect_bits }
    }

    pub fn from_raw(tile_id: u16, effect_bits: u16) -> (r: TileSetting)
        ensures
            r.spec_index() == tile_id,
            r.spec_setting() == effect_bits,
    {
        TileSetting { tile_id, effect_bits }
    }

    /// Toggles the horizontal flip when `should_flip` holds.
    pub fn hflip(self, should_flip: bool) -> (r: TileSetting)
        ensures
            r.spec_index() == self.spec_index(),
            r.spec_setting() == if should_flip {
                self.spec_setting() ^ 0x400
            } else {
                self.spec_setting()
            },
    {
        let f: u16 = if should_flip { 1 } else { 0 };
        let effect_bits = self.effect_bits ^ (f << 10u16);
        let e = self.effect_bits;
        assert(effect_bits == if f == 1 { e ^ 0x400 } else { e }) by (bit_vector)
            requires
                f <= 1,
                effect_bits == e ^ (f << 10u16),
        ;
        TileSetting { effect_bits, ..self }
    }

    /// Toggles the vertical flip when `should_flip` holds.
    pub fn vflip(self, should_flip: bool) -> (r: TileSetting)
        ensures
            r.spec_index() == self.spec_index(),
            r.spec_setting() == if should_flip {
                self.spec_setting() ^ 0x800
            } else {
                self.spec_setting()
            },
    {
        let f: u16 = if should_flip { 1 } else { 0 };
        let effect_bits = self.effect_bits ^ (f << 11u16);
        let e = self.effect_bits;
        assert(effect_bits == if f == 1 { e ^ 0x800 } else { e }) by (bit_vector)
            requires
                f <= 1,
                effect_bits == e ^ (f << 11u16),
        ;
        TileSetting { effect_bits, ..self }
    }

    /// Combines the palette bits with `palette_id` by exclusive or.
    pub fn palette(self, palette_id: u8) -> (r: TileSetting)
        ensures
            r.spec_index() == self.spec_index(),
            r.spec_setting() == self.spec_setting() ^ (((palette_id % 16) * 0x1000) as u16),
    {
        let p: u16 = palette_id as u16;
        let effect_bits = self.effect_bits ^ (p << 12u16);
        let e = self.effect_bits;
        assert(effect_bits == e ^ (((p % 16) * 0x1000) as u16)) by (bit_vector)
            requires
                p < 256,
                effect_bits == e ^ (p << 12u16),
        ;
        TileSetting { effect_bits, ..self }
    }

    pub fn index(self) -> (r: u16)
        ensures
            r == self.spec_index(),
    {
        self.tile_id
    }

    pub fn setting(self) -> (r: u16)
        ensures
            r == self.spec_setting(),
    {
        self.effect_bits
    }
}

/// A committed grid cell as the hardware reads it: tile location in the low ten
/// bits, attribute bits above. Zero is the empty cell.
#[derive(Clone, Copy, Debug, PartialEq, Eq, Structural)]
pub struct Tile(pub u16);

/// The location that the committed cell `raw` refers to.
pub open spec fn tile_location(raw: u16, format: TileFormat) -> TileIndex {
    match format {
        TileFormat::FourBpp => TileIndex::FourBpp(raw % 1024),
        TileFormat::EightBpp => TileIndex::EightBpp(raw % 1024),
    }
}

impl Tile {
    pub fn new(idx: TileIndex, setting: TileSetting) -> (r: Tile)
        ensures
            r.0 == idx.spec_raw_index() | setting.spec_setting(),
    {
        Tile(idx.raw_index() | setting.setting())
    }

    pub fn tile_index(self, format: TileFormat) -> (r: TileIndex)
        ensures
            r == tile_location(self.0, format),
    {
        let raw = self.0;
        let low = raw & 0x3ff;
        assert(low == raw % 1024) by (bit_vector)
            requires
                low == raw & 0x3ff,
        ;
        TileIndex::new(low as usize, format)
    }
}

/// Control-register value and scroll offset of a regular layer for one frame.
#[derive(Clone, Copy, Debug, PartialEq, Eq, Structural)]
pub struct RegularBackgroundData {
    pub bg_ctrl: u16,
    pub scroll_x: u16,
    pub scroll_y: u16,
}

/// Rotation and scaling of an affine layer, as raw fixed-point values: the four
/// matrix entries with 8 fraction bits, then the reference point.
#[derive(Clone, Copy, Debug, PartialEq, Eq, Structural)]
pub struct AffineMatrixBackground {
    pub a: i16,
    pub b: i16,
    pub c: i16,
    pub d: i16,
    pub x: i32,
    pub y: i32,
}

/// Control-register value, scroll offset (raw fixed point, 8 fraction bits) and
/// transform of an affine layer for one frame.
#[derive(Clone, Copy, Debug, PartialEq, Eq, Structural)]
pub struct AffineBackgroundData {
    pub bg_ctrl: u16,
    pub scroll_x: i32,
    pub scroll_y: i32,
    pub affine_transform: AffineMatrixBackground,
}

/// Address of the control register of layer slot 0; slot `i` is `2 * i` further.
pub const BG_CONTROL_BASE: usize = 0x0400_0008;

/// Address of the horizontal scroll register of regular slot 0; slot `i` is
/// `4 * i` further, and its vertical scroll register 2 after that.
pub const BG_SCROLL_BASE: usize = 0x0400_0010;

/// Address of the transform registers of the first affine slot; the second is 16
/// further.
pub const AFFINE_BASE: usize = 0x0400_0020;

/// A mask of the `n` lowest bits.
pub open spec fn low_bits(n: int) -> int
    decreases n,
{
    if n <= 0 {
        0
    } else {
        2 * low_bits(n - 1) + 1
    }
}

/// The layer-enable bits for `r` regular slots from slot 0 and `a` affine slots
/// from slot 2.
pub open spec fn enable_mask(r: int, a: int) -> int {
    low_bits(r) + low_bits(a) * 4
}

/// The display-control value of a frame: the kept bits of `old`, the video mode
/// (the number of affine layers) in bits 0 and 1, the layer-enable mask from
/// bit 8 on.
pub open spec fn display_control_value(old: u16, r: int, a: int) -> u16 {
    old & DISPLAY_CONTROL_KEEP | ((a + enable_mask(r, a) * 256) as u16)
}

/// The register writes that show regular layer `d` in slot `i`.
pub open spec fn regular_slot_writes(i: int, d: RegularBackgroundData) -> Seq<RegisterWrite> {
    seq![
        RegisterWrite::Half { addr: (BG_CONTROL_BASE + 2 * i) as usize, half: d.bg_ctrl },
        RegisterWrite::Half { addr: (BG_SCROLL_BASE + 4 * i) as usize, half: d.scroll_x },
        RegisterWrite::Half { addr: (BG_SCROLL_BASE + 4 * i + 2) as usize, half: d.scroll_y },
    ]
}

/// The register writes that show affine layer `d` in slot `k + 2`.
pub open spec fn affine_slot_writes(k: int, d: AffineBackgroundData) -> Seq<RegisterWrite> {
    let base = AFFINE_BASE + 16 * k;
    let m = d.affine_transform;
    seq![
        RegisterWrite::Half { addr: (BG_CONTROL_BASE + 2 * (k + 2)) as usize, half: d.bg_ctrl },
        RegisterWrite::Word { addr: (base + 8) as usize, word: d.scroll_x as u32 },
        RegisterWrite::Word { addr: (base + 12) as usize, word: d.scroll_y as u32 },
        RegisterWrite::Half { addr: base as usize, half: m.a as u16 },
        RegisterWrite::Half { addr: (base + 2) as usize, half: m.b as u16 },
        RegisterWrite::Half { addr: (base + 4) as usize, half: m.c as u16 },
        RegisterWrite::Half { addr: (base + 6) as usize, half: m.d as u16 },
        RegisterWrite::Word { addr: (base + 8) as usize, word: m.x as u32 },
        RegisterWrite::Word { addr: (base + 12) as usize, word: m.y as u32 },
    ]
}

/// The writes for the first `n` regular layers, slot by slot.
pub open spec fn regular_writes(ds: Seq<RegularBackgroundData>, n: int) -> Seq<RegisterWrite>
    decreases n,
{
    if n <= 0 {
        seq![]
    } else {
        regular_writes(ds, n - 1) + regular_slot_writes(n - 1, ds[n - 1])
    }
}

/// The writes for the first `n` affine layers, slot by slot.
pub open spec fn affine_writes(ds: Seq<AffineBackgroundData>, n: int) -> Seq<RegisterWrite>
    decreases n,
{
    if n <= 0 {
        seq![]
    } else {
        affine_writes(ds, n - 1) + affine_slot_writes(n - 1, ds[n - 1])
    }
}

/// Every register write of a frame, in order: display control first, then each
/// regular slot, then each affine slot.
pub open spec fn frame_writes(
    display_control: u16,
    regular: Seq<RegularBackgroundData>,
    affine: Seq<AffineBackgroundData>,
) -> Seq<RegisterWrite> {
    seq![
        RegisterWrite::Half {
            addr: DISPLAY_CONTROL_ADDR,
            half: display_control_value(display_control, regular.len() as int, affine.len() as int),
        },
    ] + regular_writes(regular, regular.len() as int) + affine_writes(affine, affine.len() as int)
}

fn low_mask(n: usize) -> (r: u16)
    requires
        n <= 4,
    ensures
        r == low_bits(n as int),
        r <= 15,
        n <= 2 ==> r <= 3,
{
    reveal_with_fuel(low_bits, 5);
    match n {
        0 => 0,
        1 => 1,
        2 => 3,
        3 => 7,
        _ => 15,
    }
}

/// Counts of regular and affine layers after registering `kinds` in order in an
/// empty frame (`true` for an affine layer), and whether every registration had
/// its slots left (`regular_slot_left` / `affine_slots_left`, which
/// `set_next_regular` and `set_next_affine` require). Counting stops at the first
/// registration without room.
pub open spec fn register_all(kinds: Seq<bool>) -> (int, int, bool)
    decreases kinds.len(),
{
    if kinds.len() == 0 {
        (0, 0, true)
    } else {
        let (r, a, ok) = register_all(kinds.drop_last());
        if !ok {
            (r, a, false)
        } else if kinds.last() {
            if slots_used(r, a) + 2 <= 4 {
                (r, a + 1, true)
            } else {
                (r, a, false)
            }
        } else {
            if slots_used(r, a) + 1 <= 4 {
                (r + 1, a, true)
            } else {
                (r, a, false)
            }
        }
    }
}

/// Number of affine layers among `kinds`.
pub open spec fn count_affine(kinds: Seq<bool>) -> int
    decreases kinds.len(),
{
    if kinds.len() == 0 {
        0
    } else {
        count_affine(kinds.drop_last()) + if kinds.last() {
            1int
        } else {
            0
        }
    }
}

/// In any order of registration, `r` regular and `a` affine layers all get their
/// slots in one frame exactly when `r + 2a` is at most four.
pub proof fn lemma_slot_budget(kinds: Seq<bool>)
    ensures
        register_all(kinds).2 <==> slots_used(
            kinds.len() - count_affine(kinds),
            count_affine(kinds),
        ) <= 4,
        register_all(kinds).2 ==> register_all(kinds).0 == kinds.len() - count_affine(kinds)
            && register_all(kinds).1 == count_affine(kinds),
    decreases kinds.len(),
{
    if kinds.len() > 0 {
        let prefix = kinds.drop_last();
        lemma_slot_budget(prefix);
        assert(count_affine(prefix) <= prefix.len()) by {
            lemma_count_affine_bound(prefix);
        }
    }
}

proof fn lemma_count_affine_bound(kinds: Seq<bool>)
    ensures
        0 <= count_affine(kinds) <= kinds.len(),
    decreases kinds.len(),
{
    if kinds.len() > 0 {
        lemma_count_affine_bound(kinds.drop_last());
    }
}

/// The register that `w` writes.
pub open spec fn write_addr(w: RegisterWrite) -> usize {
    match w {
        RegisterWrite::Half { addr, .. } => addr,
        RegisterWrite::Word { addr, .. } => addr,
    }
}

proof fn lemma_regular_writes_above(ds: Seq<RegularBackgroundData>, n: int)
    requires
        0 <= n <= 4,
    ensures
        regular_writes(ds, n).len() == 3 * n,
        forall|i: int|
            0 <= i < 3 * n ==> write_addr(#[trigger] regular_writes(ds, n)[i]) >= BG_CONTROL_BASE,
    decreases n,
{
    if n > 0 {
        lemma_regular_writes_above(ds, n - 1);
        let prev = regular_writes(ds, n - 1);
        let last = regular_slot_writes(n - 1, ds[n - 1]);
        assert forall|i: int| 0 <= i < 3 * n implies write_addr(
            #[trigger] regular_writes(ds, n)[i],
        ) >= BG_CONTROL_BASE by {
            if i < 3 * (n - 1) {
                assert(regular_writes(ds, n)[i] == prev[i]);
            } else {
                assert(regular_writes(ds, n)[i] == last[i - 3 * (n - 1)]);
            }
        }
    }
}

proof fn lemma_affine_writes_above(ds: Seq<AffineBackgroundData>, n: int)
    requires
        0 <= n <= 2,
    ensures
        affine_writes(ds, n).len() == 9 * n,
        forall|i: int|
            0 <= i < 9 * n ==> write_addr(#[trigger] affine_writes(ds, n)[i]) >= BG_CONTROL_BASE,
    decreases n,
{
    if n > 0 {
        lemma_affine_writes_above(ds, n - 1);
        let prev = affine_writes(ds, n - 1);
        let last = affine_slot_writes(n - 1, ds[n - 1]);
        assert forall|i: int| 0 <= i < 9 * n implies write_addr(
            #[trigger] affine_writes(ds, n)[i],
        ) >= BG_CONTROL_BASE by {
            if i < 9 * (n - 1) {
                assert(affine_writes(ds, n)[i] == prev[i]);
            } else {
                assert(affine_writes(ds, n)[i] == last[i - 9 * (n - 1)]);
            }
        }
    }
}

/// A frame writes display control first and only once: no layer slot is written
/// before the mode and enable bits are.
pub proof fn lemma_display_control_first(
    display_control: u16,
    regular: Seq<RegularBackgroundData>,
    affine: Seq<AffineBackgroundData>,
)
    requires
        slots_used(regular.len() as int, affine.len() as int) <= 4,
    ensures
        write_addr(frame_writes(display_control, regular, affine)[0]) == DISPLAY_CONTROL_ADDR,
        forall|i: int|
            1 <= i < frame_writes(display_control, regular, affine).len() ==> write_addr(
                #[trigger] frame_writes(display_control, regular, affine)[i],
            ) != DISPLAY_CONTROL_ADDR,
{
    let r = regular.len() as int;
    let a = affine.len() as int;
    lemma_regular_writes_above(regular, r);
    lemma_affine_writes_above(affine, a);
    let f = frame_writes(display_control, regular, affine);
    let rw = regular_writes(regular, r);
    let aw = affine_writes(affine, a);
    assert forall|i: int| 1 <= i < f.len() implies write_addr(#[trigger] f[i])
        != DISPLAY_CONTROL_ADDR by {
        if i < 1 + 3 * r {
            assert(f[i] == rw[i - 1]);
        } else {
            assert(f[i] == aw[i - 1 - 3 * r]);
        }
    }
}

/// Access to the tiled display modes.
pub struct TiledBackground {}

impl TiledBackground {
    pub fn new() -> (r: TiledBackground) {
        TiledBackground {  }
    }

    /// Starts a frame: no layer shown yet.
    pub fn iter(&mut self) -> (r: BackgroundIterator)
        ensures
            r.wf(),
            r.num_regular() == 0,
            r.num_affine() == 0,
            r.regular() == Seq::<RegularBackgroundData>::empty(),
            r.affine() == Seq::<AffineBackgroundData>::empty(),
    {
        BackgroundIterator::new()
    }
}

/// The layers shown in one frame, in the order they were registered. Regular
/// layers take the slots from 0 up, affine ones the slots from 2 up; an affine
/// layer costs two of the four slots.
pub struct BackgroundIterator {
    num_regular: usize,
    regular_backgrounds: Vec<RegularBackgroundData>,
    num_affine: usize,
    affine_backgrounds: Vec<AffineBackgroundData>,
}

/// Slots in use after `r` regular and `a` affine layers.
pub open spec fn slots_used(r: int, a: int) -> int {
    r + 2 * a
}

impl BackgroundIterator {
    pub closed spec fn num_regular(&self) -> int {
        self.num_regular as int
    }

    pub closed spec fn num_affine(&self) -> int {
        self.num_affine as int
    }

    /// The regular layers shown so far, by slot.
    pub closed spec fn regular(&self) -> Seq<RegularBackgroundData> {
        self.regular_backgrounds@.take(self.num_regular as int)
    }

    /// The affine layers shown so far, by slot from 2 on.
    pub closed spec fn affine(&self) -> Seq<AffineBackgroundData> {
        self.affine_backgrounds@.take(self.num_affine as int)
    }

    /// The slot storage has room for every slot.
    pub closed spec fn storage_wf(&self) -> bool {
        &&& self.regular_backgrounds@.len() == 4
        &&& self.affine_backgrounds@.len() == 2
        &&& 0 <= self.num_regular <= 4
        &&& 0 <= self.num_affine <= 2
    }

    /// One layer per counted slot, and no more than the four slots in use.
    pub open spec fn wf(&self) -> bool {
        &&& self.storage_wf()
        &&& self.regular().len() == self.num_regular()
        &&& self.affine().len() == self.num_affine()
        &&& slots_used(self.num_regular(), self.num_affine()) <= 4
    }

    /// A regular layer can still be shown in this frame.
    pub open spec fn regular_slot_left(&self) -> bool {
        slots_used(self.num_regular(), self.num_affine()) + 1 <= 4
    }

    /// An affine layer can still be shown in this frame.
    pub open spec fn affine_slots_left(&self) -> bool {
        slots_used(self.num_regular(), self.num_affine()) + 2 <= 4
    }

    pub fn new() -> (r: BackgroundIterator)
        ensures
            r.wf(),
            r.num_regular() == 0,
            r.num_affine() == 0,
            r.regular() == Seq::<RegularBackgroundData>::empty(),
            r.affine() == Seq::<AffineBackgroundData>::empty(),
    {
        let empty = RegularBackgroundData { bg_ctrl: 0, scroll_x: 0, scroll_y: 0 };
        let identity = AffineMatrixBackground { a: 0, b: 0, c: 0, d: 0, x: 0, y: 0 };
        let empty_affine = AffineBackgroundData {
            bg_ctrl: 0,
            scroll_x: 0,
            scroll_y: 0,
            affine_transform: identity,
        };
        let r = BackgroundIterator {
            num_regular: 0,
            regular_backgrounds: vec![empty, empty, empty, empty],
            num_affine: 0,
            affine_backgrounds: vec![empty_affine, empty_affine],
        };
        assert(r.regular() =~= Seq::<RegularBackgroundData>::empty());
        assert(r.affine() =~= Seq::<AffineBackgroundData>::empty());
        r
    }

    /// Whether a regular layer can still be shown; showing one when none can is
    /// a caller's error that must stop before the frame is committed.
    pub fn has_regular_slot(&self) -> (r: bool)
        requires
            self.wf(),
        ensures
            r == self.regular_slot_left(),
    {
        self.num_regular + self.num_affine * 2 < 4
    }

    /// Whether an affine layer can still be shown; showing one when none can is
    /// a caller's error that must stop before the frame is committed.
    pub fn has_affine_slots(&self) -> (r: bool)
        requires
            self.wf(),
        ensures
            r == self.affine_slots_left(),
    {
        self.num_affine * 2 + self.num_regular < 3
    }

    /// Takes the next regular slot and returns it.
    pub fn next_regular_index(&mut self) -> (r: usize)
        requires
            old(self).wf(),
            old(self).regular_slot_left(),
        ensures
            final(self).wf(),
            r == old(self).num_regular(),
            final(self).num_regular() == old(self).num_regular() + 1,
            final(self).num_affine() == old(self).num_affine(),
            final(self).affine() == old(self).affine(),
            final(self).regular() == old(self).regular().push(
                final(self).regular()[old(self).num_regular()],
            ),
            final(self).regular_store() == old(self).regular_store(),
    {
        let index = self.num_regular;
        self.num_regular = self.num_regular + 1;
        assert(self.regular() =~= old(self).regular().push(self.regular()[index as int]));
        index
    }

    /// The stored regular slot data, shown or not.
    pub closed spec fn regular_store(&self) -> Seq<RegularBackgroundData> {
        self.regular_backgrounds@
    }

    /// The stored affine slot data, shown or not.
    pub closed spec fn affine_store(&self) -> Seq<AffineBackgroundData> {
        self.affine_backgrounds@
    }

    /// Registers a regular layer in the next slot and returns that slot.
    pub fn set_next_regular(&mut self, data: RegularBackgroundData) -> (r: BackgroundId)
        requires
            old(self).wf(),
            old(self).regular_slot_left(),
        ensures
            final(self).wf(),
            r == BackgroundId(old(self).num_regular() as u8),
            final(self).num_regular() == old(self).num_regular() + 1,
            final(self).num_affine() == old(self).num_affine(),
            final(self).regular() == old(self).regular().push(data),
            final(self).affine() == old(self).affine(),
    {
        let bg_index = self.next_regular_index();
        self.regular_backgrounds.set(bg_index, data);
        assert(self.regular() =~= old(self).regular().push(data));
        BackgroundId(bg_index as u8)
    }

    /// Takes the next affine slot pair and returns the first of the two slots.
    pub fn next_affine_index(&mut self) -> (r: usize)
        requires
            old(self).wf(),
            old(self).affine_slots_left(),
        ensures
            final(self).wf(),
            r == old(self).num_affine() + 2,
            final(self).num_affine() == old(self).num_affine() + 1,
            final(self).num_regular() == old(self).num_regular(),
            final(self).regular() == old(self).regular(),
            final(self).affine() == old(self).affine().push(
                final(self).affine()[old(self).num_affine()],
            ),
            final(self).affine_store() == old(self).affine_store(),
    {
        let index = self.num_affine;
        self.num_affine = self.num_affine + 1;
        assert(self.affine() =~= old(self).affine().push(self.affine()[index as int]));
        index + 2
    }

    /// Registers an affine layer in the next slot pair and returns its first slot.
    pub fn set_next_affine(&mut self, data: AffineBackgroundData) -> (r: AffineBackgroundId)
        requires
            old(self).wf(),
            old(self).affine_slots_left(),
        ensures
            final(self).wf(),
            r == AffineBackgroundId((old(self).num_affine() + 2) as u8),
            final(self).num_affine() == old(self).num_affine() + 1,
            final(self).num_regular() == old(self).num_regular(),
            final(self).affine() == old(self).affine().push(data),
            final(self).regular() == old(self).regular(),
    {
        let bg_index = self.next_affine_index();
        self.affine_backgrounds.set(bg_index - 2, data);
        assert(self.affine() =~= old(self).affine().push(data));
        AffineBackgroundId(bg_index as u8)
    }

    /// Ends the frame: the register writes that show its layers, display control
    /// first, and reclamation of the tile store. The writes are handed back to be
    /// carried out in this order.
    pub fn commit(self, display_control: u16, vram: &mut VramManager) -> (r: Vec<RegisterWrite>)
        requires
            self.wf(),
            old(vram).wf(),
        ensures
            final(vram).wf(),
            final(vram)@ == gc_spec(old(vram)@),
            r@ == frame_writes(display_control, self.regular(), self.affine()),
            r@[0] == (RegisterWrite::Half {
                addr: DISPLAY_CONTROL_ADDR,
                half: display_control_value(display_control, self.num_regular(), self.num_affine()),
            }),
    {
        let video_mode = self.num_affine as u16;
        let rm = low_mask(self.num_regular);
        let am = low_mask(self.num_affine);
        let enabled = rm | (am << 2u16);
        let dc = (display_control & DISPLAY_CONTROL_KEEP) | (video_mode | (enabled << 8u16));
        assert(video_mode | (enabled << 8u16) == ((video_mode + (rm + am * 4) * 256) as u16))
            by (bit_vector)
            requires
                video_mode <= 2,
                rm <= 15,
                am <= 3,
                am == 0 || rm <= 3,
                enabled == rm | (am << 2u16),
        ;
        let mut out: Vec<RegisterWrite> = Vec::new();
        out.push(RegisterWrite::Half { addr: DISPLAY_CONTROL_ADDR, half: dc });
        let ghost head = out@;
        let mut i: usize = 0;
        while i < self.num_regular
            invariant
                self.wf(),
                0 <= i <= self.num_regular,
                out@ == head + regular_writes(self.regular(), i as int),
            decreases self.num_regular - i,
        {
            let d = self.regular_backgrounds[i];
            assert(d == self.regular()[i as int]);
            out.push(RegisterWrite::Half { addr: BG_CONTROL_BASE + i * 2, half: d.bg_ctrl });
            out.push(RegisterWrite::Half { addr: BG_SCROLL_BASE + i * 4, half: d.scroll_x });
            out.push(RegisterWrite::Half { addr: BG_SCROLL_BASE + i * 4 + 2, half: d.scroll_y });
            i += 1;
            assert(out@ =~= head + regular_writes(self.regular(), i as int));
        }
        let ghost mid = out@;
        let mut k: usize = 0;
        while k < self.num_affine
            invariant
                self.wf(),
                0 <= k <= self.num_affine,
                out@ == mid + affine_writes(self.affine(), k as int),
            decreases self.num_affine - k,
        {
            let d = self.affine_backgrounds[k];
            assert(d == self.affine()[k as int]);
            let m = d.affine_transform;
            let base = AFFINE_BASE + k * 16;
            out.push(RegisterWrite::Half { addr: BG_CONTROL_BASE + (k + 2) * 2, half: d.bg_ctrl });
            out.push(RegisterWrite::Word { addr: base + 8, word: d.scroll_x as u32 });
            out.push(RegisterWrite::Word { addr: base + 12, word: d.scroll_y as u32 });
            out.push(RegisterWrite::Half { addr: base, half: m.a as u16 });
            out.push(RegisterWrite::Half { addr: base + 2, half: m.b as u16 });
            out.push(RegisterWrite::Half { addr: base + 4, half: m.c as u16 });
            out.push(RegisterWrite::Half { addr: base + 6, half: m.d as u16 });
            out.push(RegisterWrite::Word { addr: base + 8, word: m.x as u32 });
            out.push(RegisterWrite::Word { addr: base + 12, word: m.y as u32 });
            k += 1;
            assert(out@ =~= mid + affine_writes(self.affine(), k as int));
        }
        assert(out@ =~= frame_writes(display_control, self.regular(), self.affine()));
        vram.gc();
        out
    }
}

} // verus!
