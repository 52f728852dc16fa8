use vstd::prelude::*;

use crate::regular_background::{
    servable, set_cell_spec, Point, RegularBackgroundSize, RegularBackgroundTiles,
};
use crate::tiled::TileSetting;
use crate::vram_manager::{TileSet, VramManager};

verus! {

/// Columns of tiles that a view can touch: 30 on screen and one more while
/// scrolled part way through a tile.
pub const VIEW_COLUMNS: i32 = 31;

/// Rows of tiles that a view can touch: 20 on screen and one more.
pub const VIEW_ROWS: i32 = 21;

/// What a move of the view asks to be redrawn.
#[derive(Clone, Copy, Debug, PartialEq, Eq, Structural)]
pub enum PartialUpdateStatus {
    /// The view shows the same tiles: nothing to draw.
    NoChange,
    /// Only the tiles that came into view are to be drawn.
    Partial,
    /// The move was too long for the old tiles to stay: the whole view is to be
    /// drawn.
    Full,
}

/// The tile that pixel coordinate `p` falls in.
pub open spec fn tile_of(p: int) -> int {
    p / 8
}

/// Tile `p` is in the view whose top-left tile is (`tx`, `ty`).
pub open spec fn in_view(p: Point, tx: int, ty: int) -> bool {
    tx <= p.x < tx + VIEW_COLUMNS && ty <= p.y < ty + VIEW_ROWS
}

/// The move from top-left tile (`ox`, `oy`) to (`tx`, `ty`) is too long for any
/// drawn tile to stay.
pub open spec fn needs_full(tx: int, ty: int, ox: int, oy: int) -> bool {
    tx - ox >= VIEW_COLUMNS || ox - tx >= VIEW_COLUMNS || ty - oy >= VIEW_ROWS || oy - ty
        >= VIEW_ROWS
}

/// `v` divided by 8, rounded down.
fn tile_floor(v: i32) -> (r: i32)
    ensures
        r == tile_of(v as int),
{
    if v >= 0 {
        v / 8
    } else {
        let a = -(v + 1);
        let q = a / 8;
        proof {
            assert(a as int == q * 8 + a % 8) by {
                vstd::arithmetic::div_mod::lemma_fundamental_div_mod(a as int, 8);
            }
            vstd::arithmetic::div_mod::lemma_fundamental_div_mod_converse(
                v as int,
                8,
                -(q + 1),
                7 - a % 8,
            );
        }
        -q - 1
    }
}

proof fn lemma_push_contains(s: Seq<Point>, x: Point)
    requires
        s.no_duplicates(),
        !s.contains(x),
    ensures
        forall|p: Point| #[trigger] s.push(x).contains(p) <==> s.contains(p) || p == x,
        s.push(x).no_duplicates(),
{
    assert forall|p: Point| #[trigger] s.push(x).contains(p) <==> s.contains(p) || p == x by {
        if s.contains(p) {
            let i = choose|i: int| 0 <= i < s.len() && s[i] == p;
            assert(s.push(x)[i] == p);
        }
        if p == x {
            assert(s.push(x)[s.len() as int] == p);
        }
    }
    assert forall|i: int, j: int|
        0 <= i < s.push(x).len() && 0 <= j < s.push(x).len() && i != j implies s.push(x)[i]
        != s.push(x)[j] by {
        if i < s.len() && j == s.len() {
            assert(s.contains(s[i]));
        }
        if j < s.len() && i == s.len() {
            assert(s.contains(s[j]));
        }
    }
}

/// The tiles of the view at (`tx`, `ty`), each once, leaving out those of the
/// view at (`ox`, `oy`) unless `full`.
fn view_cells(tx: i32, ty: i32, ox: i32, oy: i32, full: bool) -> (r: Vec<Point>)
    requires
        -0x1000_0000 <= tx < 0x1000_0000,
        -0x1000_0000 <= ty < 0x1000_0000,
    ensures
        r@.no_duplicates(),
        forall|p: Point|
            #[trigger] r@.contains(p) <==> in_view(p, tx as int, ty as int) && (full || !in_view(
                p,
                ox as int,
                oy as int,
            )),
{
    let mut out: Vec<Point> = Vec::new();
    let mut row: i32 = 0;
    while row < VIEW_ROWS
        invariant
            -0x1000_0000 <= tx < 0x1000_0000,
            -0x1000_0000 <= ty < 0x1000_0000,
            0 <= row <= VIEW_ROWS,
            out@.no_duplicates(),
            forall|p: Point|
                #[trigger] out@.contains(p) <==> in_view(p, tx as int, ty as int) && (full
                    || !in_view(p, ox as int, oy as int)) && p.y < ty + row,
        decreases VIEW_ROWS - row,
    {
        let mut col: i32 = 0;
        while col < VIEW_COLUMNS
            invariant
                -0x1000_0000 <= tx < 0x1000_0000,
                -0x1000_0000 <= ty < 0x1000_0000,
                0 <= row < VIEW_ROWS,
                0 <= col <= VIEW_COLUMNS,
                out@.no_duplicates(),
                forall|p: Point|
                    #[trigger] out@.contains(p) <==> in_view(p, tx as int, ty as int) && (full
                        || !in_view(p, ox as int, oy as int)) && (p.y < ty + row || (p.y == ty
                        + row && p.x < tx + col)),
            decreases VIEW_COLUMNS - col,
        {
            let p = Point { x: tx + col, y: ty + row };
            let in_old = ox <= p.x && p.x < ox + VIEW_COLUMNS && oy <= p.y && p.y < oy + VIEW_ROWS;
            if full || !in_old {
                proof {
                    lemma_push_contains(out@, p);
                }
                out.push(p);
            }
            col += 1;
        }
        row += 1;
    }
    out
}

/// Numbers less than `m` apart with the same remainder modulo `m` are equal.
proof fn lemma_close_same_mod(a: int, b: int, m: int)
    requires
        m > 0,
        a % m == b % m,
        -m < a - b < m,
    ensures
        a == b,
{
    vstd::arithmetic::div_mod::lemma_fundamental_div_mod(a, m);
    vstd::arithmetic::div_mod::lemma_fundamental_div_mod(b, m);
    assert(a - b == (a / m - b / m) * m) by (nonlinear_arith)
        requires
            a == m * (a / m) + a % m,
            b == m * (b / m) + b % m,
            a % m == b % m,
    ;
    if a / m - b / m >= 1 {
        assert((a / m - b / m) * m >= m) by (nonlinear_arith)
            requires
                a / m - b / m >= 1,
                m > 0,
        ;
    } else if a / m - b / m <= -1 {
        assert((a / m - b / m) * m <= -m) by (nonlinear_arith)
            requires
                a / m - b / m <= -1,
                m > 0,
        ;
    }
}

/// Two tiles of one view never share a grid cell, whatever the grid size: a
/// move's redrawn tiles never land on the cells of tiles that stayed in view.
pub proof fn lemma_view_cells_distinct(
    size: RegularBackgroundSize,
    tx: int,
    ty: int,
    p: Point,
    q: Point,
)
    requires
        in_view(p, tx, ty),
        in_view(q, tx, ty),
        p != q,
    ensures
        size.offset_of(p.x as int, p.y as int) != size.offset_of(q.x as int, q.y as int),
{
    let w = size.spec_width();
    let h = size.spec_height();
    let (xm, ym) = (p.x as int % w, p.y as int % h);
    let (xn, yn) = (q.x as int % w, q.y as int % h);
    if size.offset_of(p.x as int, p.y as int) == size.offset_of(q.x as int, q.y as int) {
        assert(0 <= xm < w && 0 <= xn < w && 0 <= ym < h && 0 <= yn < h);
        assert(xm % 32 == xn % 32 && ym % 32 == yn % 32 && xm / 32 == xn / 32 && ym / 32 == yn
            / 32);
        assert(xm == xn) by {
            vstd::arithmetic::div_mod::lemma_fundamental_div_mod(xm, 32);
            vstd::arithmetic::div_mod::lemma_fundamental_div_mod(xn, 32);
        }
        assert(ym == yn) by {
            vstd::arithmetic::div_mod::lemma_fundamental_div_mod(ym, 32);
            vstd::arithmetic::div_mod::lemma_fundamental_div_mod(yn, 32);
        }
        lemma_close_same_mod(p.x as int, q.x as int, w);
        lemma_close_same_mod(p.y as int, q.y as int, h);
    }
}

/// A background grid used as a window onto a map larger than the grid: as the
/// view moves, only the tiles that come into view are drawn, over the grid cells
/// of those that left it.
pub struct InfiniteScrolledMap {
    map: RegularBackgroundTiles,
    current_pos: Point,
}

impl InfiniteScrolledMap {
    pub closed spec fn spec_map(&self) -> RegularBackgroundTiles {
        self.map
    }

    /// The view's position in pixels.
    pub closed spec fn position(&self) -> Point {
        self.current_pos
    }

    pub open spec fn wf(&self) -> bool {
        self.spec_map().wf()
    }

    pub fn new(map: RegularBackgroundTiles) -> (r: InfiniteScrolledMap)
        ensures
            r.spec_map() == map,
            r.position() == (Point { x: 0, y: 0 }),
    {
        InfiniteScrolledMap { map, current_pos: Point { x: 0, y: 0 } }
    }

    /// Moves the view to `pos` and returns every tile of the new view, to be
    /// drawn in full.
    pub fn init(&mut self, pos: Point) -> (r: Vec<Point>)
        requires
            old(self).wf(),
        ensures
            final(self).wf(),
            final(self).position() == pos,
            final(self).spec_map().spec_scroll() == pos,
            final(self).spec_map().cells() == old(self).spec_map().cells(),
            r@.no_duplicates(),
            forall|p: Point|
                #[trigger] r@.contains(p) <==> in_view(
                    p,
                    tile_of(pos.x as int),
                    tile_of(pos.y as int),
                ),
    {
        self.current_pos = pos;
        self.map.set_scroll_pos(pos);
        let tx = tile_floor(pos.x);
        let ty = tile_floor(pos.y);
        view_cells(tx, ty, tx, ty, true)
    }

    /// Moves the view to `new_pos` and returns which tiles to draw: none when it
    /// shows the same tiles, those that came into view after a short move, the
    /// whole view after a move too long for any drawn tile to stay.
    pub fn set_pos(&mut self, new_pos: Point) -> (r: (PartialUpdateStatus, Vec<Point>))
        requires
            old(self).wf(),
        ensures
            final(self).wf(),
            final(self).position() == new_pos,
            final(self).spec_map().spec_scroll() == new_pos,
            final(self).spec_map().cells() == old(self).spec_map().cells(),
            r.1@.no_duplicates(),
            ({
                let tx = tile_of(new_pos.x as int);
                let ty = tile_of(new_pos.y as int);
                let ox = tile_of(old(self).position().x as int);
                let oy = tile_of(old(self).position().y as int);
                &&& r.0 == if tx == ox && ty == oy {
                    PartialUpdateStatus::NoChange
                } else if needs_full(tx, ty, ox, oy) {
                    PartialUpdateStatus::Full
                } else {
                    PartialUpdateStatus::Partial
                }
                &&& forall|p: Point|
                    #[trigger] r.1@.contains(p) <==> in_view(p, tx, ty) && (r.0
                        == PartialUpdateStatus::Full || !in_view(p, ox, oy))
            }),
    {
        let ox = tile_floor(self.current_pos.x);
        let oy = tile_floor(self.current_pos.y);
        let tx = tile_floor(new_pos.x);
        let ty = tile_floor(new_pos.y);
        self.current_pos = new_pos;
        self.map.set_scroll_pos(new_pos);
        if tx == ox && ty == oy {
            let none: Vec<Point> = Vec::new();
            assert forall|p: Point| #[trigger] none@.contains(p) <==> in_view(
                p,
                tx as int,
                ty as int,
            ) && !in_view(p, ox as int, oy as int) by {}
            return (PartialUpdateStatus::NoChange, none);
        }
        let full = tx as i64 - ox as i64 >= VIEW_COLUMNS as i64 || ox as i64 - tx as i64
            >= VIEW_COLUMNS as i64 || ty as i64 - oy as i64 >= VIEW_ROWS as i64 || oy as i64
            - ty as i64 >= VIEW_ROWS as i64;
        let cells = view_cells(tx, ty, ox, oy, full);
        if full {
            (PartialUpdateStatus::Full, cells)
        } else {
            (PartialUpdateStatus::Partial, cells)
        }
    }

    /// Draws `tile_setting` at tile `pos` of the map; see
    /// `RegularBackgroundTiles::set_tile`.
    #[must_use]
    pub fn set_tile(
        &mut self,
        vram: &mut VramManager,
        pos: Point,
        tileset: &TileSet,
        tile_setting: TileSetting,
    ) -> (r: bool)
        requires
            old(self).wf(),
            old(vram).wf(),
            tileset.spec_format() == old(self).spec_map().colours(),
            servable(*tileset, tile_setting),
        ensures
            final(self).wf(),
            final(vram).wf(),
            final(self).position() == old(self).position(),
            final(self).spec_map().same_config(&old(self).spec_map()),
            ({
                let m = old(self).spec_map();
                let p = m.spec_size().offset_of(pos.x as int, pos.y as int);
                let (v, t, ok) = set_cell_spec(
                    old(vram)@,
                    m.cells()[p],
                    m.colours(),
                    tile_setting,
                    tileset.content(tile_setting.spec_index() as int),
                );
                &&& final(vram)@ == v
                &&& final(self).spec_map().cells() == m.cells().update(p, t)
                &&& final(self).spec_map().dirty() == (m.dirty() || t != m.cells()[p])
                &&& r == ok
            }),
    {
        self.map.set_tile(vram, pos, tileset, tile_setting)
    }

    pub fn map(&self) -> (r: &RegularBackgroundTiles)
        ensures
            *r == self.spec_map(),
    {
        &self.map
    }

    pub fn into_inner(self) -> (r: RegularBackgroundTiles)
        ensures
            r == self.spec_map(),
    {
        self.map
    }
}

} // verus!
