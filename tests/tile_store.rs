use agb::vram_manager::{TileFormat, TileIndex, TileSet, VramManager};

fn four_bpp_tiles(count: usize) -> Vec<u8> {
    let mut bytes = Vec::new();
    for t in 0..count {
        bytes.push((t & 0xff) as u8);
        bytes.push((t >> 8) as u8);
        for b in 2..32 {
            bytes.push(((t * 7 + b) % 251) as u8);
        }
    }
    bytes
}

#[test]
fn adding_identical_content_twice_gives_one_location() {
    let bytes = four_bpp_tiles(2);
    let mut doubled = bytes.clone();
    doubled.extend_from_slice(&bytes[0..32]);
    let tileset = TileSet::new(&doubled, TileFormat::FourBpp);
    let mut vram = VramManager::new();

    let first = vram.add_tile(&tileset, 0).unwrap();
    let second = vram.add_tile(&tileset, 2).unwrap();
    assert_eq!(first, second);
    assert_eq!(first, TileIndex::FourBpp(1));
    assert_eq!(vram.reference_count(first), Some(2));
    assert_eq!(vram.resident_tiles(), 1);
}

#[test]
fn removing_twice_then_reclaiming_frees_one_entry() {
    let bytes = four_bpp_tiles(2);
    let tileset = TileSet::new(&bytes, TileFormat::FourBpp);
    let mut vram = VramManager::new();

    let kept = vram.add_tile(&tileset, 1).unwrap();
    let loc = vram.add_tile(&tileset, 0).unwrap();
    assert_eq!(vram.add_tile(&tileset, 0), Some(loc));
    assert_eq!(vram.resident_tiles(), 2);

    assert!(vram.remove_tile(loc));
    assert!(vram.remove_tile(loc));
    assert_eq!(vram.resident_tiles(), 2);
    vram.gc();
    assert_eq!(vram.resident_tiles(), 1);
    assert_eq!(vram.reference_count(loc), None);
    assert_eq!(vram.reference_count(kept), Some(1));
}

#[test]
fn count_never_goes_below_zero() {
    let bytes = four_bpp_tiles(1);
    let tileset = TileSet::new(&bytes, TileFormat::FourBpp);
    let mut vram = VramManager::new();

    let loc = vram.add_tile(&tileset, 0).unwrap();
    assert!(vram.remove_tile(loc));
    assert_eq!(vram.reference_count(loc), Some(0));
    assert!(!vram.remove_tile(loc));
    assert_eq!(vram.reference_count(loc), Some(0));
    assert!(!vram.remove_tile(TileIndex::FourBpp(500)));
}

#[test]
fn readding_before_reclamation_keeps_location() {
    let bytes = four_bpp_tiles(3);
    let tileset = TileSet::new(&bytes, TileFormat::FourBpp);
    let mut vram = VramManager::new();

    let loc = vram.add_tile(&tileset, 2).unwrap();
    assert!(vram.remove_tile(loc));
    assert_eq!(vram.add_tile(&tileset, 2), Some(loc));
    assert_eq!(vram.reference_count(loc), Some(1));
    assert_eq!(vram.resident_tiles(), 1);
    vram.gc();
    assert_eq!(vram.reference_count(loc), Some(1));
}

#[test]
fn reclaimed_place_is_reused() {
    let bytes = four_bpp_tiles(2);
    let tileset = TileSet::new(&bytes, TileFormat::FourBpp);
    let mut vram = VramManager::new();

    let loc = vram.add_tile(&tileset, 0).unwrap();
    assert!(vram.remove_tile(loc));
    vram.gc();
    assert_eq!(vram.add_tile(&tileset, 1), Some(loc));
}

#[test]
fn eight_bit_tiles_take_two_slots() {
    let four = four_bpp_tiles(1);
    let four_set = TileSet::new(&four, TileFormat::FourBpp);
    let eight: Vec<u8> = (0..128u32).map(|b| (b * 3) as u8).collect();
    let eight_set = TileSet::new(&eight, TileFormat::EightBpp);
    let mut vram = VramManager::new();

    assert_eq!(vram.add_tile(&four_set, 0), Some(TileIndex::FourBpp(1)));
    assert_eq!(vram.add_tile(&eight_set, 0), Some(TileIndex::EightBpp(1)));
    assert_eq!(vram.add_tile(&eight_set, 1), Some(TileIndex::EightBpp(2)));
    assert_eq!(vram.add_tile(&four_set, 0), Some(TileIndex::FourBpp(1)));
    assert_eq!(vram.reference_count(TileIndex::EightBpp(1)), Some(1));
    assert_eq!(vram.reference_count(TileIndex::FourBpp(2)), None);
}

#[test]
fn same_bytes_in_other_format_are_other_content() {
    let bytes: Vec<u8> = vec![9; 64];
    let four_set = TileSet::new(&bytes, TileFormat::FourBpp);
    let mut vram = VramManager::new();
    let a = vram.add_tile(&four_set, 0).unwrap();
    let b = vram.add_tile(&four_set, 1).unwrap();
    assert_eq!(a, b);
    let eight_set = TileSet::new(&bytes, TileFormat::EightBpp);
    let c = vram.add_tile(&eight_set, 0).unwrap();
    assert_eq!(c, TileIndex::EightBpp(1));
}

#[test]
fn full_store_refuses_new_content() {
    let bytes = four_bpp_tiles(1024);
    let tileset = TileSet::new(&bytes, TileFormat::FourBpp);
    let mut vram = VramManager::new();
    for id in 0..1023u16 {
        assert_eq!(vram.add_tile(&tileset, id), Some(TileIndex::FourBpp(id + 1)));
    }
    assert_eq!(vram.add_tile(&tileset, 1023), None);
    assert_eq!(vram.resident_tiles(), 1023);
    assert_eq!(vram.add_tile(&tileset, 5), Some(TileIndex::FourBpp(6)));
}

#[test]
fn tile_sizes_by_format() {
    assert_eq!(TileFormat::FourBpp.tile_size(), 32);
    assert_eq!(TileFormat::EightBpp.tile_size(), 64);
    let i = TileIndex::new(17, TileFormat::EightBpp);
    assert_eq!(i, TileIndex::EightBpp(17));
    assert_eq!(i.raw_index(), 17);
    assert_eq!(i.format(), TileFormat::EightBpp);
}

#[test]
fn replace_tile_keeps_location_and_count() {
    let bytes = four_bpp_tiles(4);
    let tileset = TileSet::new(&bytes, TileFormat::FourBpp);
    let mut vram = VramManager::new();
    let loc = vram.add_tile(&tileset, 0).unwrap();
    assert_eq!(vram.add_tile(&tileset, 0), Some(loc));
    assert!(vram.replace_tile(&tileset, 0, &tileset, 3));
    assert_eq!(vram.reference_count(loc), Some(2));
    assert_eq!(vram.add_tile(&tileset, 3), Some(loc));
    assert_eq!(vram.reference_count(loc), Some(3));
    assert_eq!(vram.resident_tiles(), 1);
    let fresh = vram.add_tile(&tileset, 0).unwrap();
    assert_ne!(fresh, loc);
}

#[test]
fn replace_tile_refuses_absent_or_duplicate_content() {
    let bytes = four_bpp_tiles(4);
    let tileset = TileSet::new(&bytes, TileFormat::FourBpp);
    let mut vram = VramManager::new();
    assert!(!vram.replace_tile(&tileset, 1, &tileset, 2));
    let a = vram.add_tile(&tileset, 1).unwrap();
    let b = vram.add_tile(&tileset, 2).unwrap();
    assert!(!vram.replace_tile(&tileset, 1, &tileset, 2));
    assert!(vram.replace_tile(&tileset, 1, &tileset, 1));
    assert_eq!(vram.add_tile(&tileset, 1), Some(a));
    assert_eq!(vram.add_tile(&tileset, 2), Some(b));
}

#[test]
fn palettes_are_written_colour_by_colour() {
    let vram = VramManager::new();
    let colours: Vec<u16> = (0..32).map(|c| c * 3).collect();
    let writes = vram.set_background_palettes(&colours);
    assert_eq!(writes.len(), 32);
    assert_eq!(
        writes[0],
        agb::memory_mapped::RegisterWrite::Half { addr: 0x0500_0000, half: 0 }
    );
    assert_eq!(
        writes[17],
        agb::memory_mapped::RegisterWrite::Half { addr: 0x0500_0022, half: 51 }
    );
}

#[test]
fn tile_writes_copy_image_data_to_video_memory() {
    let bytes: Vec<u8> = (0..32u32).map(|b| b as u8).collect();
    let tileset = TileSet::new(&bytes, TileFormat::FourBpp);
    let mut vram = VramManager::new();
    assert_eq!(vram.tile_writes(TileIndex::FourBpp(1)), None);
    let loc = vram.add_tile(&tileset, 0).unwrap();
    let writes = vram.tile_writes(loc).unwrap();
    assert_eq!(writes.len(), 16);
    assert_eq!(
        writes[0],
        agb::memory_mapped::RegisterWrite::Half { addr: 0x0600_0020, half: 0x0100 }
    );
    assert_eq!(
        writes[15],
        agb::memory_mapped::RegisterWrite::Half { addr: 0x0600_003e, half: 0x1f1e }
    );
    assert_eq!(vram.tile_writes(TileIndex::EightBpp(0)), None);
}
