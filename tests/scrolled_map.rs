use agb::block_allocator::ScreenblockAllocator;
use agb::infinite_scrolled_map::{InfiniteScrolledMap, PartialUpdateStatus};
use agb::regular_background::{Point, Priority, RegularBackgroundSize, RegularBackgroundTiles};
use agb::tiled::TileSetting;
use agb::vram_manager::{TileFormat, TileSet, VramManager};

fn scrolled_map(allocator: &mut ScreenblockAllocator) -> InfiniteScrolledMap {
    let bg = RegularBackgroundTiles::new(
        Priority::Level0,
        RegularBackgroundSize::Background32x32,
        TileFormat::FourBpp,
        allocator,
    );
    InfiniteScrolledMap::new(bg)
}

#[test]
fn init_draws_whole_view() {
    let mut allocator = ScreenblockAllocator::new();
    let mut map = scrolled_map(&mut allocator);
    let cells = map.init(Point { x: -9, y: 17 });
    assert_eq!(cells.len(), 31 * 21);
    assert!(cells.contains(&Point { x: -2, y: 2 }));
    assert!(cells.contains(&Point { x: 28, y: 22 }));
    assert!(!cells.contains(&Point { x: 29, y: 2 }));
    assert_eq!(map.map().scroll_pos(), Point { x: -9, y: 17 });
}

#[test]
fn move_within_a_tile_draws_nothing() {
    let mut allocator = ScreenblockAllocator::new();
    let mut map = scrolled_map(&mut allocator);
    map.init(Point { x: 8, y: 8 });
    let (status, cells) = map.set_pos(Point { x: 15, y: 9 });
    assert_eq!(status, PartialUpdateStatus::NoChange);
    assert!(cells.is_empty());
}

#[test]
fn short_move_draws_new_edge() {
    let mut allocator = ScreenblockAllocator::new();
    let mut map = scrolled_map(&mut allocator);
    map.init(Point { x: 0, y: 0 });
    let (status, cells) = map.set_pos(Point { x: 8, y: 0 });
    assert_eq!(status, PartialUpdateStatus::Partial);
    assert_eq!(cells.len(), 21);
    assert!(cells.iter().all(|p| p.x == 31));

    let (status, cells) = map.set_pos(Point { x: 0, y: -16 });
    assert_eq!(status, PartialUpdateStatus::Partial);
    assert_eq!(cells.len(), 2 * 31 + 19);
    assert!(cells.contains(&Point { x: 0, y: -2 }));
    assert!(cells.contains(&Point { x: 0, y: 5 }));
    assert!(!cells.contains(&Point { x: 1, y: 5 }));
}

#[test]
fn long_move_draws_everything() {
    let mut allocator = ScreenblockAllocator::new();
    let mut map = scrolled_map(&mut allocator);
    map.init(Point { x: 0, y: 0 });
    let (status, cells) = map.set_pos(Point { x: 0, y: 21 * 8 });
    assert_eq!(status, PartialUpdateStatus::Full);
    assert_eq!(cells.len(), 31 * 21);
}

#[test]
fn drawing_goes_through_wrapped_grid() {
    let bytes: Vec<u8> = (0..64u32).map(|b| b as u8).collect();
    let tileset = TileSet::new(&bytes, TileFormat::FourBpp);
    let mut vram = VramManager::new();
    let mut allocator = ScreenblockAllocator::new();
    let mut map = scrolled_map(&mut allocator);
    map.init(Point { x: 0, y: 0 });
    assert!(map.set_tile(&mut vram, Point { x: 33, y: -1 }, &tileset, TileSetting::new(1, false, false, 0)));
    let words = map.into_inner().tile_words();
    assert_eq!(words[1 + 31 * 32], 1);
}
