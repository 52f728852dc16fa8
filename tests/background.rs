use agb::block_allocator::{Layout, ScreenblockAllocator};
use agb::regular_background::{
    Point, Priority, RegularBackgroundSize, RegularBackgroundTiles, TileData,
};
use agb::tiled::{BackgroundIterator, TileSetting};
use agb::vram_manager::{TileFormat, TileIndex, TileSet, VramManager};

fn tile_bytes(count: usize) -> Vec<u8> {
    let mut bytes = Vec::new();
    for t in 0..count {
        for b in 0..32 {
            bytes.push((t * 31 + b) as u8);
        }
    }
    bytes
}

fn layer(
    size: RegularBackgroundSize,
    allocator: &mut ScreenblockAllocator,
) -> RegularBackgroundTiles {
    RegularBackgroundTiles::new(Priority::Level0, size, TileFormat::FourBpp, allocator)
}

#[test]
fn grid_sizes() {
    assert_eq!(RegularBackgroundSize::Background32x32.num_tiles(), 1024);
    assert_eq!(RegularBackgroundSize::Background64x32.width(), 64);
    assert_eq!(RegularBackgroundSize::Background64x32.height(), 32);
    assert_eq!(RegularBackgroundSize::Background32x64.size_in_bytes(), 4096);
    assert_eq!(RegularBackgroundSize::Background64x64.size_flag(), 3);
    assert_eq!(
        RegularBackgroundSize::Background64x64.layout(),
        Layout { size: 8192, align: 0x800 }
    );
}

#[test]
fn wrap_addressing_on_small_grid() {
    let size = RegularBackgroundSize::Background32x32;
    assert_eq!(size.gba_offset(Point { x: 32, y: 0 }), size.gba_offset(Point { x: 0, y: 0 }));
    assert_eq!(size.gba_offset(Point { x: 0, y: 0 }), 0);
    assert_eq!(size.gba_offset(Point { x: -1, y: -1 }), 31 + 32 * 31);
    assert_eq!(size.gba_offset(Point { x: 5, y: 33 }), 5 + 32);
}

#[test]
fn wide_grid_addresses_second_screenblock() {
    let size = RegularBackgroundSize::Background64x32;
    assert_eq!(size.gba_offset(Point { x: 32, y: 0 }), 1024);
    assert_eq!(size.gba_offset(Point { x: 64, y: 0 }), 0);
    assert_eq!(size.gba_offset(Point { x: 33, y: 2 }), 1024 + 1 + 64);
    let tall = RegularBackgroundSize::Background64x64;
    assert_eq!(tall.gba_offset(Point { x: 0, y: 32 }), 2048);
    assert_eq!(tall.gba_offset(Point { x: 40, y: 40 }), 3 * 1024 + 8 + 32 * 8);
    assert_eq!(
        RegularBackgroundSize::Background32x64.gba_offset(Point { x: 0, y: 32 }),
        1024
    );
}

#[test]
fn set_tile_packs_location_and_attributes() {
    let bytes = tile_bytes(8);
    let tileset = TileSet::new(&bytes, TileFormat::FourBpp);
    let mut vram = VramManager::new();
    let mut allocator = ScreenblockAllocator::new();
    let mut bg = layer(RegularBackgroundSize::Background32x32, &mut allocator);
    assert!(bg.commit());

    assert!(bg.set_tile(&mut vram, Point { x: 3, y: 1 }, &tileset, TileSetting::new(5, true, false, 2)));
    let words = bg.tile_words();
    assert_eq!(words[35], 1 | 0x400 | 0x2000);
    assert_eq!(vram.reference_count(TileIndex::FourBpp(1)), Some(1));
}

#[test]
fn commit_copies_at_most_once() {
    let bytes = tile_bytes(8);
    let tileset = TileSet::new(&bytes, TileFormat::FourBpp);
    let mut vram = VramManager::new();
    let mut allocator = ScreenblockAllocator::new();
    let mut bg = layer(RegularBackgroundSize::Background32x32, &mut allocator);
    let mut copies = 0;
    if bg.commit() {
        copies += 1;
    }
    assert!(bg.set_tile(&mut vram, Point { x: 0, y: 0 }, &tileset, TileSetting::new(5, false, false, 0)));
    if bg.commit() {
        copies += 1;
    }
    if bg.commit() {
        copies += 1;
    }
    assert_eq!(copies, 2);
}

#[test]
fn unchanged_value_leaves_layer_clean() {
    let bytes = tile_bytes(8);
    let tileset = TileSet::new(&bytes, TileFormat::FourBpp);
    let mut vram = VramManager::new();
    let mut allocator = ScreenblockAllocator::new();
    let mut bg = layer(RegularBackgroundSize::Background32x32, &mut allocator);
    let setting = TileSetting::new(4, false, true, 1);
    assert!(bg.set_tile(&mut vram, Point { x: 1, y: 1 }, &tileset, setting));
    assert!(bg.commit());
    assert!(bg.set_tile(&mut vram, Point { x: 33, y: 1 }, &tileset, setting));
    assert!(!bg.commit());
    assert_eq!(vram.reference_count(TileIndex::FourBpp(1)), Some(1));
}

#[test]
fn transparent_setting_empties_cell() {
    let bytes = tile_bytes(8);
    let tileset = TileSet::new(&bytes, TileFormat::FourBpp);
    let mut vram = VramManager::new();
    let mut allocator = ScreenblockAllocator::new();
    let mut bg = layer(RegularBackgroundSize::Background32x32, &mut allocator);
    assert!(bg.set_tile(&mut vram, Point { x: 2, y: 0 }, &tileset, TileSetting::new(3, false, false, 0)));
    assert!(bg.set_tile(&mut vram, Point { x: 2, y: 0 }, &tileset, TileSetting::blank()));
    assert_eq!(bg.tile_words()[2], 0);
    assert_eq!(vram.reference_count(TileIndex::FourBpp(1)), Some(0));
    vram.gc();
    assert_eq!(vram.resident_tiles(), 0);
}

#[test]
fn clear_gives_up_every_reference() {
    let bytes = tile_bytes(8);
    let tileset = TileSet::new(&bytes, TileFormat::FourBpp);
    let mut vram = VramManager::new();
    let mut allocator = ScreenblockAllocator::new();
    let mut bg = layer(RegularBackgroundSize::Background64x32, &mut allocator);
    for x in 0..10 {
        assert!(bg.set_tile(&mut vram, Point { x, y: 0 }, &tileset, TileSetting::new(1, false, false, 0)));
    }
    assert!(bg.set_tile(&mut vram, Point { x: 40, y: 3 }, &tileset, TileSetting::new(2, false, false, 0)));
    assert_eq!(vram.reference_count(TileIndex::FourBpp(1)), Some(10));
    bg.commit();
    bg.clear(&mut vram);
    assert!(bg.commit());
    assert!(bg.tile_words().iter().all(|w| *w == 0));
    assert_eq!(vram.reference_count(TileIndex::FourBpp(1)), Some(0));
    assert_eq!(vram.reference_count(TileIndex::FourBpp(2)), Some(0));
    vram.gc();
    assert_eq!(vram.resident_tiles(), 0);
}

#[test]
fn screenblocks_are_allocated_and_released() {
    let mut vram = VramManager::new();
    let mut allocator = ScreenblockAllocator::new();
    let a = layer(RegularBackgroundSize::Background32x32, &mut allocator);
    let b = layer(RegularBackgroundSize::Background64x64, &mut allocator);
    assert_eq!(a.screen_base_block(), 16);
    assert_eq!(b.screen_base_block(), 17);
    let c = layer(RegularBackgroundSize::Background64x32, &mut allocator);
    assert_eq!(c.screen_base_block(), 21);
    assert!(!allocator.can_allocate(RegularBackgroundSize::Background64x32.layout()));
    assert!(allocator.can_allocate(RegularBackgroundSize::Background32x32.layout()));
    let d = layer(RegularBackgroundSize::Background32x32, &mut allocator);
    assert_eq!(d.screen_base_block(), 23);
    b.release(&mut vram, &mut allocator);
    let e = layer(RegularBackgroundSize::Background64x32, &mut allocator);
    assert_eq!(e.screen_base_block(), 17);
}

#[test]
fn control_value_fields() {
    let mut allocator = ScreenblockAllocator::new();
    let _first = layer(RegularBackgroundSize::Background32x32, &mut allocator);
    let bg = RegularBackgroundTiles::new(
        Priority::Level2,
        RegularBackgroundSize::Background64x32,
        TileFormat::EightBpp,
        &mut allocator,
    );
    assert_eq!(bg.bg_ctrl_value(), 2 | (1 << 7) | (17 << 8) | (1 << 14));
    assert_eq!(bg.size(), RegularBackgroundSize::Background64x32);
}

#[test]
fn show_registers_control_and_scroll() {
    let mut allocator = ScreenblockAllocator::new();
    let mut bg = layer(RegularBackgroundSize::Background32x32, &mut allocator);
    bg.set_scroll_pos(Point { x: -3, y: 70000 });
    assert_eq!(bg.scroll_pos(), Point { x: -3, y: 70000 });
    let mut frame = BackgroundIterator::new();
    let id = bg.show(&mut frame);
    assert_eq!(id.0, 0);
    let mut vram = VramManager::new();
    let writes = frame.commit(0, &mut vram);
    assert_eq!(writes.len(), 4);
    assert_eq!(
        writes[2],
        agb::memory_mapped::RegisterWrite::Half { addr: 0x0400_0010, half: 0xfffd }
    );
    assert_eq!(
        writes[3],
        agb::memory_mapped::RegisterWrite::Half { addr: 0x0400_0012, half: (70000u32 & 0xffff) as u16 }
    );
}

#[test]
fn fill_with_sets_visible_screen() {
    let bytes = tile_bytes(4);
    let tileset = TileSet::new(&bytes, TileFormat::FourBpp);
    let mut settings = Vec::new();
    for k in 0..600u16 {
        settings.push(TileSetting::new(k % 4, false, false, 0));
    }
    let data = TileData { tiles: tileset, tile_settings: &settings };
    let mut vram = VramManager::new();
    let mut allocator = ScreenblockAllocator::new();
    let mut bg = layer(RegularBackgroundSize::Background32x32, &mut allocator);
    assert!(bg.fill_with(&mut vram, &data));
    let words = bg.tile_words();
    assert_eq!(words[0], 1);
    assert_eq!(words[1], 2);
    assert_eq!(words[29], 2);
    assert_eq!(words[30], 0);
    assert_eq!(words[32], 3);
    assert_eq!(words[19 * 32 + 29], 4);
    assert_eq!(vram.resident_tiles(), 4);
    assert_eq!(vram.reference_count(TileIndex::FourBpp(1)), Some(150));
}
