use agb::dma::{
    dma3_exclusive_pause, dma3_exclusive_resume, dma_control_addr, dma_copy16, dma_dest_addr,
    dma_source_addr, hblank_values_suffice, DmaControllable, DmaController,
};
use agb::memory_mapped::RegisterWrite;

#[test]
fn channel_register_addresses() {
    assert_eq!(dma_source_addr(0), 0x0400_00b0);
    assert_eq!(dma_dest_addr(1), 0x0400_00c0);
    assert_eq!(dma_control_addr(3), 0x0400_00dc);
}

#[test]
fn short_scanline_transfer_is_refused() {
    assert!(!hblank_values_suffice(0));
    assert!(!hblank_values_suffice(159));
    assert!(hblank_values_suffice(160));
    assert!(hblank_values_suffice(1000));
}

#[test]
fn scanline_transfer_programs_channel() {
    let mut controller = DmaController::new();
    let dmas = controller.dma();
    let target: DmaControllable<u16> = DmaControllable::new(0x0400_0010);
    let values: Vec<u16> = (0..160).collect();
    let handle = dmas.dma0.hblank_transfer(&target, &values);
    assert_eq!(handle.number, 0);
    assert_eq!(handle.data, values);
    assert_eq!(handle.dest, RegisterWrite::Word { addr: 0x0400_00b4, word: 0x0400_0010 });
    assert_eq!(handle.control, RegisterWrite::Word { addr: 0x0400_00b8, word: 0xa240_0001 });

    let wide: Vec<u32> = vec![1; 200];
    let wide_target: DmaControllable<u32> = DmaControllable::new(0x0400_0028);
    let handle = dmas.dma3.hblank_transfer(&wide_target, &wide);
    assert_eq!(handle.control, RegisterWrite::Word { addr: 0x0400_00dc, word: 0xa240_0002 });
    assert_eq!(dmas.dma3.disable(), RegisterWrite::Word { addr: 0x0400_00dc, word: 0 });
}

#[test]
fn copy16_writes_channel_three() {
    let writes = dma_copy16(0x0200_0000, 0x0600_0000, 16);
    assert_eq!(
        writes,
        vec![
            RegisterWrite::Word { addr: 0x0400_00d4, word: 0x0200_0000 },
            RegisterWrite::Word { addr: 0x0400_00d8, word: 0x0600_0000 },
            RegisterWrite::Word { addr: 0x0400_00dc, word: 0x8000_0010 },
        ]
    );
}

#[test]
fn exclusive_pause_clears_enable_bits() {
    let pause = dma3_exclusive_pause(0x8001, 0x0002, 0xffff);
    assert_eq!(pause[0], RegisterWrite::Half { addr: 0x0400_00ba, half: 0x0001 });
    assert_eq!(pause[1], RegisterWrite::Half { addr: 0x0400_00c6, half: 0x0002 });
    assert_eq!(pause[2], RegisterWrite::Half { addr: 0x0400_00d2, half: 0x7fff });
    let resume = dma3_exclusive_resume(0x8001, 0x0002, 0xffff);
    assert_eq!(resume[0], RegisterWrite::Half { addr: 0x0400_00ba, half: 0x8001 });
}
