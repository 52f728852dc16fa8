use agb::tiled::{Tile, TileSetting, TRANSPARENT_TILE_INDEX};
use agb::vram_manager::{TileFormat, TileIndex};

#[test]
fn new_packs_attribute_bits() {
    let s = TileSetting::new(12, true, true, 3);
    assert_eq!(s.index(), 12);
    assert_eq!(s.setting(), 0x400 | 0x800 | 0x3000);
    assert_eq!(TileSetting::new(1, false, false, 0x1f).setting(), 0xf000);
}

#[test]
fn flips_and_palette_toggle() {
    let s = TileSetting::from_raw(7, 0x0400);
    assert_eq!(s.hflip(true).setting(), 0);
    assert_eq!(s.hflip(false).setting(), 0x0400);
    assert_eq!(s.vflip(true).setting(), 0x0c00);
    assert_eq!(s.palette(5).setting(), 0x5400);
    assert_eq!(s.palette(5).palette(5).setting(), 0x0400);
    assert_eq!(s.palette(5).index(), 7);
}

#[test]
fn blank_is_transparent() {
    assert_eq!(TileSetting::blank().index(), TRANSPARENT_TILE_INDEX);
    assert_eq!(TileSetting::blank().setting(), 0);
}

#[test]
fn tile_packs_and_unpacks_location() {
    let t = Tile::new(TileIndex::FourBpp(300), TileSetting::new(0, true, false, 9));
    assert_eq!(t, Tile(300 | 0x400 | 0x9000));
    assert_eq!(t.tile_index(TileFormat::FourBpp), TileIndex::FourBpp(300));
    assert_eq!(t.tile_index(TileFormat::EightBpp), TileIndex::EightBpp(300));
}
