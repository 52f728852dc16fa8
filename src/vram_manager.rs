use vstd::prelude::*;

use crate::block_allocator::VRAM_START;
use crate::memory_mapped::RegisterWrite;

verus! {

/// Address of background palette memory: 16 palettes of 16 colours.
pub const BACKGROUND_PALETTE_ADDR: usize = 0x0500_0000;

/// Number of 32-byte slots in the tile store (two charblocks of video memory).
pub const TILE_STORE_SLOTS: usize = 1024;

/// Colour depth of tile image data.
#[derive(Clone, Copy, Debug, PartialEq, Eq, Structural)]
pub enum TileFormat {
    FourBpp,
    EightBpp,
}

/// Bytes of image data of one tile in format `f`.
pub open spec fn format_bytes(f: TileFormat) -> nat {
    match f {
        TileFormat::FourBpp => 32,
        TileFormat::EightBpp => 64,
    }
}

impl TileFormat {
    /// Bytes of image data of one tile in this format.
    pub fn tile_size(self) -> (r: usize)
        ensures
            r == format_bytes(self),
    {
        match self {
            TileFormat::FourBpp => 32,
            TileFormat::EightBpp => 64,
        }
    }
}

/// Where the image data of a tile lives in the tile store, in the hardware's own
/// numbering for the tile's colour depth.
#[derive(Clone, Copy, Debug, PartialEq, Eq, Structural)]
pub enum TileIndex {
    FourBpp(u16),
    EightBpp(u16),
}

impl TileIndex {
    pub open spec fn spec_raw_index(self) -> u16 {
        match self {
            TileIndex::FourBpp(x) => x,
            TileIndex::EightBpp(x) => x,
        }
    }

    pub open spec fn spec_format(self) -> TileFormat {
        match self {
            TileIndex::FourBpp(_) => TileFormat::FourBpp,
            TileIndex::EightBpp(_) => TileFormat::EightBpp,
        }
    }

    /// The first 32-byte slot of the tile store that the tile occupies.
    pub open spec fn first_slot(self) -> int {
        match self {
            TileIndex::FourBpp(x) => x as int,
            TileIndex::EightBpp(x) => 2 * x as int,
        }
    }

    pub fn new(index: usize, format: TileFormat) -> (r: TileIndex)
        requires
            index < 1024,
        ensures
            r.spec_raw_index() == index,
            r.spec_format() == format,
    {
        match format {
            TileFormat::FourBpp => TileIndex::FourBpp(index as u16),
            TileFormat::EightBpp => TileIndex::EightBpp(index as u16),
        }
    }

    pub fn raw_index(self) -> (r: u16)
        ensures
            r == self.spec_raw_index(),
    {
        match self {
            TileIndex::FourBpp(x) => x,
            TileIndex::EightBpp(x) => x,
        }
    }

    pub fn format(self) -> (r: TileFormat)
        ensures
            r == self.spec_format(),
    {
        match self {
            TileIndex::FourBpp(_) => TileFormat::FourBpp,
            TileIndex::EightBpp(_) => TileFormat::EightBpp,
        }
    }
}

/// The location that names the tile stored from slot `s` on.
pub open spec fn index_of_slot(s: int, f: TileFormat) -> TileIndex {
    match f {
        TileFormat::FourBpp => TileIndex::FourBpp(s as u16),
        TileFormat::EightBpp => TileIndex::EightBpp((s / 2) as u16),
    }
}

/// A block of tile image data as the asset pipeline hands it over: tiles of one
/// format laid out one after another.
pub struct TileSet<'a> {
    tiles: &'a [u8],
    format: TileFormat,
}

impl<'a> TileSet<'a> {
    pub closed spec fn spec_format(&self) -> TileFormat {
        self.format
    }

    pub closed spec fn bytes(&self) -> Seq<u8> {
        self.tiles@
    }

    /// The set holds a whole tile numbered `id`.
    pub open spec fn has_tile(&self, id: int) -> bool {
        0 <= id && (id + 1) * format_bytes(self.spec_format()) <= self.bytes().len()
    }

    /// Image data of the tile numbered `id`.
    pub open spec fn content(&self, id: int) -> Seq<u8> {
        let size = format_bytes(self.spec_format()) as int;
        self.bytes().subrange(id * size, id * size + size)
    }

    pub fn new(tiles: &'a [u8], format: TileFormat) -> (r: TileSet<'a>)
        ensures
            r.bytes() == tiles@,
            r.spec_format() == format,
    {
        TileSet { tiles, format }
    }

    pub fn format(&self) -> (r: TileFormat)
        ensures
            r == self.spec_format(),
    {
        self.format
    }
}

/// What one 32-byte slot of the tile store holds.
pub ghost enum SlotView {
    /// Nothing: the slot can be allocated.
    Free,
    /// Never allocated on its own: slot 0, whose location doubles as the empty
    /// cell, and the second half of an 8-bit tile.
    Reserved,
    /// The first slot of a resident tile.
    Tile { format: TileFormat, data: Seq<u8>, refcount: nat },
}

#[derive(Clone, Copy)]
enum Slot {
    Free,
    Reserved,
    Tile { format: TileFormat, refcount: usize },
}

/// The tile of format `f` with image data `c` is resident from slot `s` on.
pub open spec fn resident(v: Seq<SlotView>, f: TileFormat, c: Seq<u8>, s: int) -> bool {
    0 <= s < v.len() && v[s] == (SlotView::Tile { format: f, data: c, refcount: v[s]->refcount })
}

/// A tile of format `f` can be placed from slot `s` on.
pub open spec fn free_for(v: Seq<SlotView>, f: TileFormat, s: int) -> bool {
    0 <= s < v.len() && v[s] is Free && match f {
        TileFormat::FourBpp => true,
        TileFormat::EightBpp => s % 2 == 0 && s + 1 < v.len() && v[s + 1] is Free,
    }
}

/// `s` is the lowest slot where a tile of format `f` can be placed.
pub open spec fn first_free(v: Seq<SlotView>, f: TileFormat, s: int) -> bool {
    free_for(v, f, s) && forall|t: int| 0 <= t < s ==> !#[trigger] free_for(v, f, t)
}

/// An 8-bit tile at `s` starts on an even slot and owns the reserved slot after
/// it; a reserved slot other than slot 0 is the second half of such a tile.
pub open spec fn halves_paired(v: Seq<SlotView>, s: int) -> bool {
    &&& v[s] is Tile && v[s]->format == TileFormat::EightBpp ==> s % 2 == 0 && s + 1 < v.len()
        && v[s + 1] is Reserved
    &&& 1 <= s && v[s] is Reserved ==> s % 2 == 1 && v[s - 1] is Tile && v[s - 1]->format
        == TileFormat::EightBpp
}

/// Well-formed contents of the tile store.
pub open spec fn store_wf(v: Seq<SlotView>) -> bool {
    &&& v.len() == TILE_STORE_SLOTS
    &&& v[0] is Reserved
    &&& forall|s: int|
        0 <= s < v.len() && (#[trigger] v[s]) is Tile ==> v[s]->data.len() == format_bytes(
            v[s]->format,
        )
    &&& forall|s: int| 0 <= s < v.len() ==> #[trigger] halves_paired(v, s)
    &&& forall|s: int, t: int|
        0 <= s < v.len() && 0 <= t < v.len() && (#[trigger] v[s]) is Tile && (#[trigger] v[t]) is Tile
            && v[s]->format == v[t]->format && v[s]->data == v[t]->data ==> s == t
}

/// The store after admitting tile content `c` of format `f`, and the location it
/// hands back: the resident copy gains a reference; otherwise the lowest free
/// place receives it with one reference. `None` when there is no room, or the
/// resident copy's count cannot grow.
pub open spec fn add_spec(v: Seq<SlotView>, f: TileFormat, c: Seq<u8>) -> (Seq<SlotView>, Option<TileIndex>) {
    if exists|s: int| resident(v, f, c, s) {
        let s = choose|s: int| resident(v, f, c, s);
        if v[s]->refcount >= usize::MAX {
            (v, None)
        } else {
            (
                v.update(s, SlotView::Tile { format: f, data: c, refcount: v[s]->refcount + 1 }),
                Some(index_of_slot(s, f)),
            )
        }
    } else if exists|s: int| first_free(v, f, s) {
        let s = choose|s: int| first_free(v, f, s);
        let v1 = v.update(s, SlotView::Tile { format: f, data: c, refcount: 1 });
        (
            match f {
                TileFormat::FourBpp => v1,
                TileFormat::EightBpp => v1.update(s + 1, SlotView::Reserved),
            },
            Some(index_of_slot(s, f)),
        )
    } else {
        (v, None)
    }
}

/// A live reference to a tile of the location's format starts at its slot.
pub open spec fn referenced(v: Seq<SlotView>, loc: TileIndex) -> bool {
    let s = loc.first_slot();
    0 <= s < v.len() && v[s] is Tile && v[s]->format == loc.spec_format() && v[s]->refcount > 0
}

/// The store after giving up one reference to the tile at `loc`: unchanged when
/// no live reference is there.
pub open spec fn remove_spec(v: Seq<SlotView>, loc: TileIndex) -> Seq<SlotView> {
    if referenced(v, loc) {
        let s = loc.first_slot();
        v.update(s, SlotView::Tile { format: v[s]->format, data: v[s]->data, refcount: (v[s]->refcount - 1) as nat })
    } else {
        v
    }
}

/// Slot `s` holds a tile without references.
pub open spec fn unreferenced(v: Seq<SlotView>, s: int) -> bool {
    0 <= s < v.len() && v[s] is Tile && v[s]->refcount == 0
}

/// The store after reclamation: every tile without references, with the second
/// half of an 8-bit one, is free again; all else is kept.
pub open spec fn gc_spec(v: Seq<SlotView>) -> Seq<SlotView> {
    Seq::new(
        v.len(),
        |s: int|
            if unreferenced(v, s) || (v[s] is Reserved && unreferenced(v, s - 1)) {
                SlotView::Free
            } else {
                v[s]
            },
    )
}

/// `a` and `b` agree in everything but reference counts.
pub open spec fn same_shape(a: SlotView, b: SlotView) -> bool {
    match (a, b) {
        (SlotView::Free, SlotView::Free) => true,
        (SlotView::Reserved, SlotView::Reserved) => true,
        (SlotView::Tile { format: f, data: d, .. }, SlotView::Tile { format: g, data: e, .. }) => f
            == g && d == e,
        _ => false,
    }
}

pub(crate) proof fn lemma_shape_wf(v: Seq<SlotView>, w: Seq<SlotView>)
    requires
        store_wf(v),
        v.len() == w.len(),
        forall|s: int| 0 <= s < v.len() ==> same_shape(#[trigger] v[s], w[s]),
    ensures
        store_wf(w),
{
    assert forall|s: int| 0 <= s < w.len() implies #[trigger] halves_paired(w, s) by {
        assert(halves_paired(v, s));
        assert(same_shape(v[s], w[s]));
        if s + 1 < v.len() {
            assert(same_shape(v[s + 1], w[s + 1]));
        }
        if s >= 1 {
            assert(same_shape(v[s - 1], w[s - 1]));
        }
    }
    assert forall|s: int, t: int|
        0 <= s < w.len() && 0 <= t < w.len() && (#[trigger] w[s]) is Tile && (#[trigger] w[t]) is Tile
            && w[s]->format == w[t]->format && w[s]->data == w[t]->data implies s == t by {
        assert(same_shape(v[s], w[s]));
        assert(same_shape(v[t], w[t]));
    }
    assert(same_shape(v[0], w[0]));
    assert forall|s: int| 0 <= s < w.len() && (#[trigger] w[s]) is Tile implies w[s]->data.len()
        == format_bytes(w[s]->format) by {
        assert(same_shape(v[s], w[s]));
    }
}

pub(crate) proof fn lemma_insert_wf(v: Seq<SlotView>, f: TileFormat, c: Seq<u8>, s: int)
    requires
        store_wf(v),
        first_free(v, f, s),
        forall|t: int| !resident(v, f, c, t),
        c.len() == format_bytes(f),
    ensures
        store_wf(add_spec(v, f, c).0),
        add_spec(v, f, c).1 == Some(index_of_slot(s, f)),
{
    lemma_first_free_unique(v, f, s);
    let v1 = v.update(s, SlotView::Tile { format: f, data: c, refcount: 1 });
    let w = match f {
        TileFormat::FourBpp => v1,
        TileFormat::EightBpp => v1.update(s + 1, SlotView::Reserved),
    };
    assert(add_spec(v, f, c).0 == w);
    assert forall|t: int| 0 <= t < w.len() implies #[trigger] halves_paired(w, t) by {
        assert(halves_paired(v, t));
        if t + 1 < v.len() {
            assert(halves_paired(v, t + 1));
        }
        if t >= 1 {
            assert(halves_paired(v, t - 1));
        }
    }
    assert forall|t: int, u: int|
        0 <= t < w.len() && 0 <= u < w.len() && (#[trigger] w[t]) is Tile && (#[trigger] w[u]) is Tile
            && w[t]->format == w[u]->format && w[t]->data == w[u]->data implies t == u by {
        if t != s && u != s {
            assert(v[t] == w[t]);
            assert(v[u] == w[u]);
        } else if t == s && u != s {
            assert(v[u] == w[u]);
            assert(!resident(v, f, c, u));
        } else if u == s && t != s {
            assert(v[t] == w[t]);
            assert(!resident(v, f, c, t));
        }
    }
}

/// There is at most one lowest free place.
pub(crate) proof fn lemma_first_free_unique(v: Seq<SlotView>, f: TileFormat, s: int)
    requires
        first_free(v, f, s),
    ensures
        exists|t: int| first_free(v, f, t),
        (choose|t: int| first_free(v, f, t)) == s,
{
    let t = choose|t: int| first_free(v, f, t);
    if t < s {
        assert(!free_for(v, f, t));
    } else if s < t {
        assert(!free_for(v, f, s));
    }
}

/// Content is resident in at most one place.
pub(crate) proof fn lemma_resident_unique(v: Seq<SlotView>, f: TileFormat, c: Seq<u8>, s: int)
    requires
        store_wf(v),
        resident(v, f, c, s),
    ensures
        exists|t: int| resident(v, f, c, t),
        (choose|t: int| resident(v, f, c, t)) == s,
{
    let t = choose|t: int| resident(v, f, c, t);
    assert(v[t] is Tile && v[s] is Tile);
}

proof fn lemma_gc_wf(v: Seq<SlotView>)
    requires
        store_wf(v),
    ensures
        store_wf(gc_spec(v)),
{
    let w = gc_spec(v);
    assert forall|t: int| 0 <= t < w.len() implies #[trigger] halves_paired(w, t) by {
        assert(halves_paired(v, t));
        if t + 1 < v.len() {
            assert(halves_paired(v, t + 1));
        }
        if t >= 1 {
            assert(halves_paired(v, t - 1));
        }
    }
    assert forall|t: int, u: int|
        0 <= t < w.len() && 0 <= u < w.len() && (#[trigger] w[t]) is Tile && (#[trigger] w[u]) is Tile
            && w[t]->format == w[u]->format && w[t]->data == w[u]->data implies t == u by {
        assert(v[t] == w[t]);
        assert(v[u] == w[u]);
    }
    assert forall|t: int| 0 <= t < w.len() && (#[trigger] w[t]) is Tile implies w[t]->data.len()
        == format_bytes(w[t]->format) by {
        assert(v[t] == w[t]);
    }
}

/// `a` equals the bytes of `b` from `start` on.
fn bytes_match(a: &Vec<u8>, b: &[u8], start: usize) -> (r: bool)
    requires
        start + a@.len() <= b@.len(),
    ensures
        r == (a@ == b@.subrange(start as int, start + a@.len())),
{
    let blen = b.len();
    let mut i: usize = 0;
    while i < a.len()
        invariant
            blen == b@.len(),
            0 <= i <= a@.len(),
            start + a@.len() <= b@.len(),
            forall|k: int| 0 <= k < i ==> a@[k] == b@[start + k],
        decreases a@.len() - i,
    {
        if a[i] != b[start + i] {
            assert(a@[i as int] != b@.subrange(start as int, start + a@.len())[i as int]);
            return false;
        }
        i += 1;
    }
    assert(a@ =~= b@.subrange(start as int, start + a@.len()));
    true
}

/// A copy of `len` bytes of `b` from `start` on.
fn copy_bytes(b: &[u8], start: usize, len: usize) -> (r: Vec<u8>)
    requires
        start + len <= b@.len(),
    ensures
        r@ == b@.subrange(start as int, start + len),
{
    let blen = b.len();
    let mut r: Vec<u8> = Vec::new();
    let mut i: usize = 0;
    while i < len
        invariant
            blen == b@.len(),
            0 <= i <= len,
            start + len <= b@.len(),
            r@ == b@.subrange(start as int, start + i),
        decreases len - i,
    {
        r.push(b[start + i]);
        i += 1;
        assert(r@ =~= b@.subrange(start as int, start + i));
    }
    r
}

fn index_of(s: usize, f: TileFormat) -> (r: TileIndex)
    requires
        s < TILE_STORE_SLOTS,
    ensures
        r == index_of_slot(s as int, f),
{
    match f {
        TileFormat::FourBpp => TileIndex::FourBpp(s as u16),
        TileFormat::EightBpp => TileIndex::EightBpp((s / 2) as u16),
    }
}

spec fn slot_view(slot: Slot, data: Seq<u8>) -> SlotView {
    match slot {
        Slot::Free => SlotView::Free,
        Slot::Reserved => SlotView::Reserved,
        Slot::Tile { format, refcount } => SlotView::Tile { format, data, refcount: refcount as nat },
    }
}

proof fn lemma_fresh_store_wf(v: Seq<SlotView>)
    requires
        v.len() == TILE_STORE_SLOTS,
        v[0] is Reserved,
        forall|s: int| 1 <= s < TILE_STORE_SLOTS ==> (#[trigger] v[s]) is Free,
    ensures
        store_wf(v),
{
}

/// The location of the tile at slot `s` leads back to `s`.
pub(crate) proof fn lemma_index_round_trip(v: Seq<SlotView>, s: int)
    requires
        store_wf(v),
        0 <= s < v.len(),
        v[s] is Tile,
    ensures
        index_of_slot(s, v[s]->format).first_slot() == s,
        index_of_slot(s, v[s]->format).spec_format() == v[s]->format,
{
    assert(halves_paired(v, s));
}

/// Adding bit-identical content twice gives the same location both times; giving
/// up both references and then reclaiming leaves the store exactly as
/// reclaiming would have left it before the two additions, so that at most the
/// one entry holding that content is reclaimed.
pub proof fn lemma_dedup(v: Seq<SlotView>, f: TileFormat, c: Seq<u8>)
    requires
        store_wf(v),
        c.len() == format_bytes(f),
        add_spec(v, f, c).1 is Some,
        add_spec(add_spec(v, f, c).0, f, c).1 is Some,
    ensures
        add_spec(add_spec(v, f, c).0, f, c).1 == add_spec(v, f, c).1,
        ({
            let l = add_spec(v, f, c).1->0;
            let v2 = add_spec(add_spec(v, f, c).0, f, c).0;
            gc_spec(remove_spec(remove_spec(v2, l), l)) == gc_spec(v)
        }),
{
    let (v1, r1) = add_spec(v, f, c);
    let l = r1->0;
    if exists|s: int| resident(v, f, c, s) {
        let s = choose|s: int| resident(v, f, c, s);
        lemma_resident_unique(v, f, c, s);
        lemma_index_round_trip(v, s);
        assert forall|t: int| 0 <= t < v.len() implies same_shape(#[trigger] v[t], v1[t]) by {}
        lemma_shape_wf(v, v1);
        assert(resident(v1, f, c, s));
        lemma_resident_unique(v1, f, c, s);
        let v2 = add_spec(v1, f, c).0;
        assert(remove_spec(remove_spec(v2, l), l) =~= v);
    } else {
        let s = choose|s: int| first_free(v, f, s);
        lemma_insert_wf(v, f, c, s);
        assert(v1[s] is Tile);
        lemma_index_round_trip(v1, s);
        assert(resident(v1, f, c, s));
        lemma_resident_unique(v1, f, c, s);
        let v2 = add_spec(v1, f, c).0;
        let v4 = remove_spec(remove_spec(v2, l), l);
        assert(v4 =~= v1.update(s, SlotView::Tile { format: f, data: c, refcount: 0 }));
        if s + 1 < v.len() {
            assert(halves_paired(v, s + 1));
        }
        if s + 2 < v.len() {
            assert(halves_paired(v, s + 2));
        }
        assert(gc_spec(v4) =~= gc_spec(v));
    }
}

/// Giving up a tile's only reference and adding the same content again before
/// reclamation hands back the same location and leaves the store as it was
/// after the first addition: nothing is freed and nothing allocated anew.
pub proof fn lemma_readd_before_gc(v: Seq<SlotView>, f: TileFormat, c: Seq<u8>)
    requires
        store_wf(v),
        c.len() == format_bytes(f),
        add_spec(v, f, c).1 is Some,
    ensures
        ({
            let (v1, r1) = add_spec(v, f, c);
            add_spec(remove_spec(v1, r1->0), f, c) == (v1, r1)
        }),
{
    let (v1, r1) = add_spec(v, f, c);
    let l = r1->0;
    let s = if exists|s: int| resident(v, f, c, s) {
        let s = choose|s: int| resident(v, f, c, s);
        lemma_resident_unique(v, f, c, s);
        assert forall|t: int| 0 <= t < v.len() implies same_shape(#[trigger] v[t], v1[t]) by {}
        lemma_shape_wf(v, v1);
        s
    } else {
        let s = choose|s: int| first_free(v, f, s);
        lemma_insert_wf(v, f, c, s);
        s
    };
    assert(v1[s] is Tile);
    lemma_index_round_trip(v1, s);
    let v2 = remove_spec(v1, l);
    assert forall|t: int| 0 <= t < v1.len() implies same_shape(#[trigger] v1[t], v2[t]) by {}
    lemma_shape_wf(v1, v2);
    assert(resident(v2, f, c, s));
    lemma_resident_unique(v2, f, c, s);
    assert(add_spec(v2, f, c).0 =~= v1);
}

/// A count never goes below zero: once content that was new has been added once
/// and removed once, a further removal finds no reference and changes nothing.
pub proof fn lemma_remove_floor(v: Seq<SlotView>, f: TileFormat, c: Seq<u8>)
    requires
        store_wf(v),
        c.len() == format_bytes(f),
        forall|t: int| !resident(v, f, c, t),
        add_spec(v, f, c).1 is Some,
    ensures
        ({
            let (v1, r1) = add_spec(v, f, c);
            let v2 = remove_spec(v1, r1->0);
            &&& referenced(v1, r1->0)
            &&& !referenced(v2, r1->0)
            &&& remove_spec(v2, r1->0) == v2
        }),
{
    let s = choose|s: int| first_free(v, f, s);
    lemma_insert_wf(v, f, c, s);
    let v1 = add_spec(v, f, c).0;
    assert(v1[s] is Tile);
    lemma_index_round_trip(v1, s);
}

/// The store after overwriting, in place, the image data of resident content
/// `old_c` with `new_c`, and whether it was done: the location and reference count
/// stay. Refused, with nothing changed, when `old_c` is not resident or `new_c`
/// already is elsewhere (two locations would then hold the same content).
pub open spec fn replace_spec(v: Seq<SlotView>, f: TileFormat, old_c: Seq<u8>, new_c: Seq<u8>) -> (
    Seq<SlotView>,
    bool,
) {
    if (exists|s: int| resident(v, f, old_c, s)) && (old_c == new_c || forall|t: int|
        !resident(v, f, new_c, t)) {
        let s = choose|s: int| resident(v, f, old_c, s);
        (v.update(s, SlotView::Tile { format: f, data: new_c, refcount: v[s]->refcount }), true)
    } else {
        (v, false)
    }
}

/// Giving up a live reference and adding the same content again hands back the
/// same location and leaves the store exactly as it was.
pub proof fn lemma_remove_then_add(v: Seq<SlotView>, loc: TileIndex, c: Seq<u8>)
    requires
        store_wf(v),
        referenced(v, loc),
        v[loc.first_slot()]->data == c,
        v[loc.first_slot()]->refcount <= usize::MAX,
    ensures
        add_spec(remove_spec(v, loc), loc.spec_format(), c) == (v, Some(loc)),
{
    let s = loc.first_slot();
    let f = loc.spec_format();
    let v1 = remove_spec(v, loc);
    assert forall|t: int| 0 <= t < v.len() implies same_shape(#[trigger] v[t], v1[t]) by {}
    lemma_shape_wf(v, v1);
    assert(resident(v1, f, c, s));
    lemma_resident_unique(v1, f, c, s);
    assert(add_spec(v1, f, c).0 =~= v);
}

/// The writes that put image data `d` into video memory from slot `s` on, two
/// bytes (low byte first) per 16-bit write.
pub open spec fn tile_data_writes(s: int, d: Seq<u8>) -> Seq<RegisterWrite> {
    Seq::new(
        d.len() / 2,
        |i: int|
            RegisterWrite::Half {
                addr: (VRAM_START + 32 * s + 2 * i) as usize,
                half: (d[2 * i] + 256 * d[2 * i + 1]) as u16,
            },
    )
}

/// Number of resident tiles among the first `n` slots.
pub open spec fn count_tiles(v: Seq<SlotView>, n: int) -> int
    decreases n,
{
    if n <= 0 {
        0
    } else {
        count_tiles(v, n - 1) + if v[n - 1] is Tile {
            1int
        } else {
            0
        }
    }
}

/// The tile store: a content-addressed cache of tile image data in video memory,
/// with a reference count per tile and reclamation deferred to `gc`.
pub struct VramManager {
    slots: Vec<Slot>,
    data: Vec<Vec<u8>>,
}

impl VramManager {
    pub closed spec fn view(&self) -> Seq<SlotView> {
        Seq::new(self.slots@.len(), |s: int| slot_view(self.slots@[s], self.data@[s]@))
    }

    pub closed spec fn wf(&self) -> bool {
        &&& self.slots@.len() == self.data@.len()
        &&& store_wf(self@)
    }

    /// An empty store: every slot free but slot 0.
    /// A well-formed store's contents meet `store_wf`, which the laws of this
    /// module take as their premise.
    pub proof fn lemma_wf(&self)
        requires
            self.wf(),
        ensures
            store_wf(self@),
    {
    }

    pub fn new() -> (r: VramManager)
        ensures
            r.wf(),
            r@.len() == TILE_STORE_SLOTS,
            r@[0] is Reserved,
            forall|s: int| 1 <= s < TILE_STORE_SLOTS ==> (#[trigger] r@[s]) is Free,
    {
        let mut slots: Vec<Slot> = Vec::new();
        let mut data: Vec<Vec<u8>> = Vec::new();
        slots.push(Slot::Reserved);
        data.push(Vec::new());
        while slots.len() < TILE_STORE_SLOTS
            invariant
                1 <= slots@.len() <= TILE_STORE_SLOTS,
                slots@.len() == data@.len(),
                slots@[0] is Reserved,
                forall|s: int| 1 <= s < slots@.len() ==> (#[trigger] slots@[s]) is Free,
            decreases TILE_STORE_SLOTS - slots@.len(),
        {
            slots.push(Slot::Free);
            data.push(Vec::new());
        }
        let r = VramManager { slots, data };
        proof {
            assert forall|s: int| 1 <= s < TILE_STORE_SLOTS implies (#[trigger] r@[s]) is Free by {
                assert(r.slots@[s] is Free);
                assert(r@[s] == slot_view(r.slots@[s], r.data@[s]@));
            }
            assert(r@[0] == slot_view(r.slots@[0], r.data@[0]@));
            lemma_fresh_store_wf(r@);
        }
        r
    }
    /// The reference count of the tile at `loc`; `None` when no tile of that
    /// format starts there.
    pub fn reference_count(&self, loc: TileIndex) -> (r: Option<usize>)
        requires
            self.wf(),
        ensures
            ({
                let s = loc.first_slot();
                if 0 <= s < self@.len() && self@[s] is Tile && self@[s]->format == loc.spec_format() {
                    r matches Some(n) && n == self@[s]->refcount
                } else {
                    r is None
                }
            }),
    {
        let s: usize = match loc {
            TileIndex::FourBpp(x) => x as usize,
            TileIndex::EightBpp(x) => 2 * x as usize,
        };
        if s >= self.slots.len() {
            return None;
        }
        assert(self@[s as int] == slot_view(self.slots@[s as int], self.data@[s as int]@));
        match self.slots[s] {
            Slot::Tile { format, refcount } => {
                if format == loc.format() {
                    Some(refcount)
                } else {
                    None
                }
            },
            _ => None,
        }
    }

    /// The writes that copy the image data of the tile at `loc` into video
    /// memory; `None` when no tile of that format starts there. A tile's data must
    /// be copied after `add_tile` or `replace_tile` first places it.
    pub fn tile_writes(&self, loc: TileIndex) -> (r: Option<Vec<RegisterWrite>>)
        requires
            self.wf(),
        ensures
            ({
                let s = loc.first_slot();
                if 0 <= s < self@.len() && self@[s] is Tile && self@[s]->format == loc.spec_format() {
                    r matches Some(w) && w@ == tile_data_writes(s, self@[s]->data)
                } else {
                    r is None
                }
            }),
    {
        let s: usize = match loc {
            TileIndex::FourBpp(x) => x as usize,
            TileIndex::EightBpp(x) => 2 * x as usize,
        };
        if s >= self.slots.len() {
            return None;
        }
        assert(self@[s as int] == slot_view(self.slots@[s as int], self.data@[s as int]@));
        match self.slots[s] {
            Slot::Tile { format, .. } => {
                if format != loc.format() {
                    return None;
                }
                let d = &self.data[s];
                let ghost dv = d@;
                assert(dv.len() == format_bytes(format));
                let half_count = d.len() / 2;
                let mut out: Vec<RegisterWrite> = Vec::new();
                let mut i: usize = 0;
                while i < half_count
                    invariant
                        s < TILE_STORE_SLOTS,
                        dv == d@,
                        dv.len() <= 64,
                        half_count == dv.len() / 2,
                        0 <= i <= half_count,
                        out@ =~= tile_data_writes(s as int, dv).take(i as int),
                    decreases half_count - i,
                {
                    let lo = d[2 * i] as u16;
                    let hi = d[2 * i + 1] as u16;
                    let half = lo | (hi << 8u16);
                    assert(half == lo + 256 * hi) by (bit_vector)
                        requires
                            lo < 256,
                            hi < 256,
                            half == lo | (hi << 8u16),
                    ;
                    out.push(RegisterWrite::Half { addr: VRAM_START + 32 * s + 2 * i, half });
                    i += 1;
                    assert(out@ =~= tile_data_writes(s as int, dv).take(i as int));
                }
                assert(tile_data_writes(s as int, dv).take(i as int) =~= tile_data_writes(
                    s as int,
                    dv,
                ));
                Some(out)
            },
            _ => None,
        }
    }

    /// Number of resident tiles, referenced or not.
    pub fn resident_tiles(&self) -> (r: usize)
        requires
            self.wf(),
        ensures
            r == count_tiles(self@, self@.len() as int),
    {
        let mut n: usize = 0;
        let mut s: usize = 0;
        while s < self.slots.len()
            invariant
                self.wf(),
                0 <= s <= self@.len(),
                n == count_tiles(self@, s as int),
                n <= s,
            decreases self@.len() - s,
        {
            assert(self@[s as int] == slot_view(self.slots@[s as int], self.data@[s as int]@));
            if let Slot::Tile { .. } = self.slots[s] {
                n += 1;
            }
            s += 1;
        }
        n
    }

    /// Admits the tile numbered `tile` of `tileset` and returns where its image data
    /// lives. Content already resident, compared byte for byte, gains a reference and
    /// keeps its location; new content is copied to the lowest free place.
    pub fn add_tile(&mut self, tileset: &TileSet, tile: u16) -> (r: Option<TileIndex>)
        requires
            old(self).wf(),
            tileset.has_tile(tile as int),
        ensures
            final(self).wf(),
            (final(self)@, r) == add_spec(old(self)@, tileset.spec_format(), tileset.content(tile as int)),
    {
        let ghost v = self@;
        let format = tileset.format;
        let size = format.tile_size();
        assert(tile as int * size <= 65535 * 64) by (nonlinear_arith)
            requires
                tile <= 65535,
                size <= 64,
        ;
        let start = tile as usize * size;
        assert(start + size == (tile as int + 1) * size) by (nonlinear_arith)
            requires
                start == tile as int * size,
        ;
        let ghost c = tileset.content(tile as int);
        assert(c == tileset.tiles@.subrange(start as int, start + size));
        let mut s: usize = 0;
        while s < self.slots.len()
            invariant
                self@ == v,
                v == old(self)@,
                self.wf(),
                0 <= s <= self.slots@.len(),
                start + size <= tileset.tiles@.len(),
                size == format_bytes(format),
                format == tileset.spec_format(),
                c == tileset.content(tile as int),
                c == tileset.tiles@.subrange(start as int, start + size),
                forall|t: int| 0 <= t < s ==> !resident(v, format, c, t),
            decreases self.slots@.len() - s,
        {
            assert(self@[s as int] == slot_view(self.slots@[s as int], self.data@[s as int]@));
            if let Slot::Tile { format: f, refcount } = self.slots[s] {
                if f == format && bytes_match(&self.data[s], tileset.tiles, start) {
                    proof {
                        lemma_resident_unique(v, format, c, s as int);
                    }
                    if refcount == usize::MAX {
                        return None;
                    }
                    self.slots.set(s, Slot::Tile { format, refcount: refcount + 1 });
                    proof {
                        let w = v.update(
                            s as int,
                            SlotView::Tile { format, data: c, refcount: v[s as int]->refcount + 1 },
                        );
                        assert(self@ =~= w);
                        assert forall|t: int| 0 <= t < v.len() implies same_shape(#[trigger] v[t], w[t]) by {}
                        lemma_shape_wf(v, w);
                    }
                    return Some(index_of(s, format));
                }
            }
            s += 1;
        }
        assert forall|t: int| !resident(v, format, c, t) by {
            if 0 <= t < v.len() {
            }
        }
        let mut s: usize = 0;
        while s < self.slots.len()
            invariant
                self@ == v,
                v == old(self)@,
                self.wf(),
                0 <= s <= self.slots@.len(),
                start + size <= tileset.tiles@.len(),
                size == format_bytes(format),
                format == tileset.spec_format(),
                c == tileset.content(tile as int),
                c == tileset.tiles@.subrange(start as int, start + size),
                forall|t: int| !resident(v, format, c, t),
                forall|t: int| 0 <= t < s ==> !#[trigger] free_for(v, format, t),
            decreases self.slots@.len() - s,
        {
            assert(self@[s as int] == slot_view(self.slots@[s as int], self.data@[s as int]@));
            let fits = match format {
                TileFormat::FourBpp => matches!(self.slots[s], Slot::Free),
                TileFormat::EightBpp => {
                    if s % 2 == 0 && s + 1 < self.slots.len() {
                        assert(self@[s + 1] == slot_view(
                            self.slots@[s + 1],
                            self.data@[s + 1]@,
                        ));
                        matches!(self.slots[s], Slot::Free) && matches!(self.slots[s + 1], Slot::Free)
                    } else {
                        false
                    }
                },
            };
            if fits {
                assert(first_free(v, format, s as int));
                proof {
                    lemma_insert_wf(v, format, c, s as int);
                }
                let bytes = copy_bytes(tileset.tiles, start, size);
                self.slots.set(s, Slot::Tile { format, refcount: 1 });
                self.data.set(s, bytes);
                if let TileFormat::EightBpp = format {
                    self.slots.set(s + 1, Slot::Reserved);
                }
                assert(self@ =~= add_spec(v, format, c).0);
                return Some(index_of(s, format));
            }
            s += 1;
        }
        None
    }

    /// Where the tile numbered `tile` of `tileset` is resident, if it is.
    fn find(&self, tileset: &TileSet, tile: u16) -> (r: Option<usize>)
        requires
            self.wf(),
            tileset.has_tile(tile as int),
        ensures
            match r {
                Some(s) => resident(
                    self@,
                    tileset.spec_format(),
                    tileset.content(tile as int),
                    s as int,
                ),
                None => forall|t: int|
                    !resident(self@, tileset.spec_format(), tileset.content(tile as int), t),
            },
    {
        let format = tileset.format;
        let size = format.tile_size();
        assert(tile as int * size <= 65535 * 64) by (nonlinear_arith)
            requires
                tile <= 65535,
                size <= 64,
        ;
        let start = tile as usize * size;
        assert(start + size == (tile as int + 1) * size) by (nonlinear_arith)
            requires
                start == tile as int * size,
        ;
        let ghost c = tileset.content(tile as int);
        let mut s: usize = 0;
        while s < self.slots.len()
            invariant
                self.wf(),
                0 <= s <= self.slots@.len(),
                start + size <= tileset.tiles@.len(),
                size == format_bytes(format),
                format == tileset.spec_format(),
                c == tileset.content(tile as int),
                c == tileset.tiles@.subrange(start as int, start + size),
                forall|t: int| 0 <= t < s ==> !resident(self@, format, c, t),
            decreases self.slots@.len() - s,
        {
            assert(self@[s as int] == slot_view(self.slots@[s as int], self.data@[s as int]@));
            if let Slot::Tile { format: f, .. } = self.slots[s] {
                if f == format && bytes_match(&self.data[s], tileset.tiles, start) {
                    return Some(s);
                }
            }
            s += 1;
        }
        assert forall|t: int| !resident(self@, format, c, t) by {
            if 0 <= t < self@.len() {
            }
        }
        None
    }

    /// Overwrites the image data of a resident tile with that of another tile of
    /// the same format, keeping its location and reference count, so that every
    /// cell showing it changes at once. `false`, with nothing changed, when the
    /// old content is not resident or the new content is already resident
    /// elsewhere.
    pub fn replace_tile(
        &mut self,
        source_tile_set: &TileSet,
        source_tile: u16,
        target_tile_set: &TileSet,
        target_tile: u16,
    ) -> (r: bool)
        requires
            old(self).wf(),
            source_tile_set.has_tile(source_tile as int),
            target_tile_set.has_tile(target_tile as int),
            source_tile_set.spec_format() == target_tile_set.spec_format(),
        ensures
            final(self).wf(),
            (final(self)@, r) == replace_spec(
                old(self)@,
                source_tile_set.spec_format(),
                source_tile_set.content(source_tile as int),
                target_tile_set.content(target_tile as int),
            ),
    {
        let ghost v = self@;
        let ghost f = source_tile_set.spec_format();
        let ghost old_c = source_tile_set.content(source_tile as int);
        let ghost new_c = target_tile_set.content(target_tile as int);
        let s = match self.find(source_tile_set, source_tile) {
            Some(s) => s,
            None => return false,
        };
        proof {
            lemma_resident_unique(v, f, old_c, s as int);
        }
        let size = target_tile_set.format.tile_size();
        assert(target_tile as int * size <= 65535 * 64) by (nonlinear_arith)
            requires
                target_tile <= 65535,
                size <= 64,
        ;
        let start = target_tile as usize * size;
        assert(start + size == (target_tile as int + 1) * size) by (nonlinear_arith)
            requires
                start == target_tile as int * size,
        ;
        let same = bytes_match(&self.data[s], target_tile_set.tiles, start);
        assert(self@[s as int] == slot_view(self.slots@[s as int], self.data@[s as int]@));
        if !same {
            if let Some(_) = self.find(target_tile_set, target_tile) {
                return false;
            }
        }
        let bytes = copy_bytes(target_tile_set.tiles, start, size);
        self.data.set(s, bytes);
        proof {
            let w = v.update(s as int, SlotView::Tile { format: f, data: new_c, refcount: v[s as int]->refcount });
            assert(self@ =~= w);
            assert forall|t: int| 0 <= t < w.len() implies #[trigger] halves_paired(w, t) by {
                assert(halves_paired(v, t));
                if t + 1 < v.len() {
                    assert(halves_paired(v, t + 1));
                }
                if t >= 1 {
                    assert(halves_paired(v, t - 1));
                }
            }
            assert forall|t: int, u: int|
                0 <= t < w.len() && 0 <= u < w.len() && (#[trigger] w[t]) is Tile && (#[trigger] w[u]) is Tile
                    && w[t]->format == w[u]->format && w[t]->data == w[u]->data implies t == u by {
                if t != s && u != s {
                    assert(v[t] == w[t]);
                    assert(v[u] == w[u]);
                } else if t == s && u != s {
                    assert(v[u] == w[u]);
                    assert(!resident(v, f, new_c, u) || old_c == new_c);
                } else if u == s && t != s {
                    assert(v[t] == w[t]);
                    assert(!resident(v, f, new_c, t) || old_c == new_c);
                }
            }
        }
        true
    }

    /// The writes that install `colours` as the background palettes, colour by
    /// colour from palette 0, colour 0.
    pub fn set_background_palettes(&self, colours: &[u16]) -> (r: Vec<RegisterWrite>)
        requires
            colours@.len() <= 256,
        ensures
            r@.len() == colours@.len(),
            forall|i: int|
                0 <= i < colours@.len() ==> #[trigger] r@[i] == (RegisterWrite::Half {
                    addr: (BACKGROUND_PALETTE_ADDR + 2 * i) as usize,
                    half: colours@[i],
                }),
    {
        let mut r: Vec<RegisterWrite> = Vec::new();
        let mut i: usize = 0;
        while i < colours.len()
            invariant
                colours@.len() <= 256,
                0 <= i <= colours@.len(),
                r@.len() == i,
                forall|j: int|
                    0 <= j < i ==> #[trigger] r@[j] == (RegisterWrite::Half {
                        addr: (BACKGROUND_PALETTE_ADDR + 2 * j) as usize,
                        half: colours@[j],
                    }),
            decreases colours@.len() - i,
        {
            r.push(RegisterWrite::Half { addr: BACKGROUND_PALETTE_ADDR + 2 * i, half: colours[i] });
            i += 1;
        }
        r
    }

    /// Gives up one reference to the tile at `loc`. The tile stays resident, also
    /// at zero references, until the next `gc`. `false`, with nothing changed, when
    /// no live reference is there: a count never goes below zero.
    pub fn remove_tile(&mut self, loc: TileIndex) -> (r: bool)
        requires
            old(self).wf(),
        ensures
            final(self).wf(),
            r == referenced(old(self)@, loc),
            final(self)@ == remove_spec(old(self)@, loc),
    {
        let ghost v = self@;
        let s: usize = match loc {
            TileIndex::FourBpp(x) => x as usize,
            TileIndex::EightBpp(x) => 2 * x as usize,
        };
        if s >= self.slots.len() {
            return false;
        }
        assert(self@[s as int] == slot_view(self.slots@[s as int], self.data@[s as int]@));
        if let Slot::Tile { format, refcount } = self.slots[s] {
            if format == loc.format() && refcount > 0 {
                self.slots.set(s, Slot::Tile { format, refcount: refcount - 1 });
                proof {
                    let w = remove_spec(v, loc);
                    assert(self@ =~= w);
                    assert forall|t: int| 0 <= t < v.len() implies same_shape(#[trigger] v[t], w[t]) by {}
                    lemma_shape_wf(v, w);
                }
                return true;
            }
        }
        false
    }

    /// Reclaims every tile without references, returning its place to the free
    /// pool. Tiles with references keep their location.
    pub fn gc(&mut self)
        requires
            old(self).wf(),
        ensures
            final(self).wf(),
            final(self)@ == gc_spec(old(self)@),
    {
        let ghost v = self@;
        let mut prev_freed = false;
        let mut s: usize = 0;
        while s < self.slots.len()
            invariant
                store_wf(v),
                self.slots@.len() == self.data@.len() == v.len(),
                0 <= s <= v.len(),
                prev_freed == (s >= 1 && unreferenced(v, s - 1)),
                forall|t: int| 0 <= t < s ==> #[trigger] self@[t] == gc_spec(v)[t],
                forall|t: int| s <= t < v.len() ==> #[trigger] self@[t] == v[t],
            decreases v.len() - s,
        {
            assert(self@[s as int] == slot_view(self.slots@[s as int], self.data@[s as int]@));
            assert(v[s as int] == self@[s as int]);
            let slot = self.slots[s];
            let freed_here = match slot {
                Slot::Tile { refcount, .. } => refcount == 0,
                _ => false,
            };
            let tail = match slot {
                Slot::Reserved => prev_freed,
                _ => false,
            };
            let ghost before = self@;
            let ghost before_slots = self.slots@;
            assert(before =~= Seq::new(
                before_slots.len(),
                |t: int| slot_view(before_slots[t], self.data@[t]@),
            ));
            if freed_here || tail {
                self.slots.set(s, Slot::Free);
            }
            assert forall|t: int| 0 <= t < v.len() && t != s implies #[trigger] self@[t] == before[t] by {
                assert(self@[t] == slot_view(self.slots@[t], self.data@[t]@));
                assert(self.slots@[t] == before_slots[t]);
            }
            assert(self@[s as int] == slot_view(self.slots@[s as int], self.data@[s as int]@));
            assert(self@[s as int] == gc_spec(v)[s as int]);
            prev_freed = freed_here;
            s += 1;
        }
        assert(self@ =~= gc_spec(v));
        proof {
            lemma_gc_wf(v);
        }
    }
}

} // verus!
