use agb::block_allocator::ScreenblockAllocator;
use agb::memory_mapped::RegisterWrite;
use agb::regular_background::{Point, Priority, RegularBackgroundSize, RegularBackgroundTiles};
use agb::tiled::{
    AffineBackgroundData, AffineBackgroundId, AffineMatrixBackground, BackgroundId,
    BackgroundIterator, RegularBackgroundData, TiledBackground, TileSetting,
};
use agb::video::Video;
use agb::vram_manager::{TileFormat, TileSet, VramManager};

fn regular(bg_ctrl: u16) -> RegularBackgroundData {
    RegularBackgroundData { bg_ctrl, scroll_x: 1, scroll_y: 2 }
}

fn affine(bg_ctrl: u16) -> AffineBackgroundData {
    AffineBackgroundData {
        bg_ctrl,
        scroll_x: -256,
        scroll_y: 512,
        affine_transform: AffineMatrixBackground { a: 256, b: 0, c: 0, d: -256, x: 10, y: -10 },
    }
}

fn register(kinds: &[bool]) -> bool {
    let mut frame = BackgroundIterator::new();
    kinds.iter().all(|affine_layer| {
        if *affine_layer {
            if !frame.has_affine_slots() {
                return false;
            }
            frame.set_next_affine(affine(0));
        } else {
            if !frame.has_regular_slot() {
                return false;
            }
            frame.set_next_regular(regular(0));
        }
        true
    })
}

#[test]
fn slot_budget_holds_for_every_combination() {
    for r in 0..6usize {
        for a in 0..4usize {
            let mut regular_first = vec![false; r];
            regular_first.extend(vec![true; a]);
            let mut affine_first = vec![true; a];
            affine_first.extend(vec![false; r]);
            let fits = r + 2 * a <= 4;
            assert_eq!(register(&regular_first), fits, "r={} a={}", r, a);
            assert_eq!(register(&affine_first), fits, "r={} a={}", r, a);
        }
    }
}

#[test]
fn full_frame_refuses_more_layers() {
    let mut frame = BackgroundIterator::new();
    assert!(frame.has_affine_slots());
    assert_eq!(frame.set_next_affine(affine(1)), AffineBackgroundId(2));
    assert_eq!(frame.set_next_affine(affine(2)), AffineBackgroundId(3));
    assert!(!frame.has_regular_slot());
    assert!(!frame.has_affine_slots());
    let mut vram = VramManager::new();
    let writes = frame.commit(0, &mut vram);
    assert_eq!(writes.len(), 1 + 2 * 9);
    assert_eq!(writes[0], RegisterWrite::Half { addr: 0x0400_0000, half: 2 | (0b1100 << 8) });
}

#[test]
fn end_to_end_single_regular_layer() {
    let bytes: Vec<u8> = (0..6 * 32).map(|b: u32| (b % 200) as u8).collect();
    let tileset = TileSet::new(&bytes, TileFormat::FourBpp);
    let mut vram = VramManager::new();
    let mut allocator = ScreenblockAllocator::new();
    let mut video = Video::new();
    let mut tiled = video.tiled();
    let mut bg = RegularBackgroundTiles::new(
        Priority::Level0,
        RegularBackgroundSize::Background32x32,
        TileFormat::FourBpp,
        &mut allocator,
    );
    assert!(bg.set_tile(&mut vram, Point { x: 0, y: 0 }, &tileset, TileSetting::new(5, false, false, 0)));
    assert!(bg.commit());
    let mut frame = tiled.iter();
    assert_eq!(bg.show(&mut frame), BackgroundId(0));
    let writes = frame.commit(0, &mut vram);
    match writes[0] {
        RegisterWrite::Half { addr, half } => {
            assert_eq!(addr, 0x0400_0000);
            assert_eq!(half & (1 << 8), 1 << 8);
        }
        _ => panic!("display control is a half-word register"),
    }
    match writes[1] {
        RegisterWrite::Half { addr, half } => {
            assert_eq!(addr, 0x0400_0008);
            assert_eq!(half >> 14, 0);
        }
        _ => panic!("layer control is a half-word register"),
    }
}

#[test]
fn end_to_end_affine_and_regular_layer() {
    let mut tiled = TiledBackground::new();
    let mut frame = tiled.iter();
    assert_eq!(frame.set_next_affine(affine(0x80)), AffineBackgroundId(2));
    assert_eq!(frame.set_next_regular(regular(0x81)), BackgroundId(0));
    let mut vram = VramManager::new();
    let writes = frame.commit(0, &mut vram);
    match writes[0] {
        RegisterWrite::Half { half, .. } => {
            assert_eq!(half & 0b11, 1);
            assert_eq!((half >> 8) & 0xf, 0b0101);
        }
        _ => panic!("display control is a half-word register"),
    }
    assert_eq!(writes[1], RegisterWrite::Half { addr: 0x0400_0008, half: 0x81 });
    assert_eq!(writes[4], RegisterWrite::Half { addr: 0x0400_000c, half: 0x80 });
    assert_eq!(writes[5], RegisterWrite::Word { addr: 0x0400_0028, word: (-256i32) as u32 });
    assert_eq!(writes[6], RegisterWrite::Word { addr: 0x0400_002c, word: 512 });
    assert_eq!(writes[7], RegisterWrite::Half { addr: 0x0400_0020, half: 256 });
    assert_eq!(writes[10], RegisterWrite::Half { addr: 0x0400_0026, half: (-256i16) as u16 });
    assert_eq!(writes[12], RegisterWrite::Word { addr: 0x0400_002c, word: (-10i32) as u32 });
    assert_eq!(writes.len(), 13);
}

#[test]
fn display_control_keeps_unrelated_bits() {
    let mut frame = BackgroundIterator::new();
    assert_eq!(frame.set_next_regular(regular(0)), BackgroundId(0));
    assert_eq!(frame.set_next_regular(regular(0)), BackgroundId(1));
    let mut vram = VramManager::new();
    let writes = frame.commit(0xffff, &mut vram);
    assert_eq!(writes[0], RegisterWrite::Half { addr: 0x0400_0000, half: 0xf078 | 0x0300 });
    assert_eq!(writes[4], RegisterWrite::Half { addr: 0x0400_000a, half: 0 });
    assert_eq!(writes[5], RegisterWrite::Half { addr: 0x0400_0014, half: 1 });
}

#[test]
fn frame_commit_reclaims_tiles() {
    let bytes: Vec<u8> = vec![7; 32];
    let tileset = TileSet::new(&bytes, TileFormat::FourBpp);
    let mut vram = VramManager::new();
    let loc = vram.add_tile(&tileset, 0).unwrap();
    assert!(vram.remove_tile(loc));
    let frame = BackgroundIterator::new();
    let writes = frame.commit(0, &mut vram);
    assert_eq!(writes, vec![RegisterWrite::Half { addr: 0x0400_0000, half: 0 }]);
    assert_eq!(vram.resident_tiles(), 0);
}

#[test]
fn scroll_register_for_dma() {
    assert_eq!(BackgroundId(0).x_scroll_dma().memory_location(), 0x0400_0010);
    assert_eq!(BackgroundId(3).x_scroll_dma().memory_location(), 0x0400_001c);
}
