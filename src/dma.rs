use vstd::prelude::*;

use core::marker::PhantomData;

use crate::memory_mapped::RegisterWrite;

verus! {

/// Address of the source-address register of DMA channel 0.
pub const DMA_SOURCE_BASE: usize = 0x0400_00b0;

/// Address of the destination-address register of DMA channel 0.
pub const DMA_DEST_BASE: usize = 0x0400_00b4;

/// Address of the control register of DMA channel 0.
pub const DMA_CONTROL_BASE: usize = 0x0400_00b8;

/// Distance in bytes between the register blocks of two DMA channels.
pub const DMA_CHANNEL_STRIDE: usize = 0x0c;

/// Values a scanline transfer needs at least: one per visible line.
pub const HBLANK_MIN_VALUES: usize = 160;

/// Control bits of a scanline transfer: destination fixed, source incrementing,
/// repeated and started at every horizontal blank, enabled.
pub const HBLANK_CONTROL: u32 = 0xa240_0000;

/// Address of the source-address register of channel `dma`.
pub fn dma_source_addr(dma: usize) -> (r: usize)
    requires
        dma < 4,
    ensures
        r == 0x0400_00b0 + 0x0c * dma,
{
    DMA_SOURCE_BASE + DMA_CHANNEL_STRIDE * dma
}

/// Address of the destination-address register of channel `dma`.
pub fn dma_dest_addr(dma: usize) -> (r: usize)
    requires
        dma < 4,
    ensures
        r == 0x0400_00b4 + 0x0c * dma,
{
    DMA_DEST_BASE + DMA_CHANNEL_STRIDE * dma
}

/// Address of the control register of channel `dma`.
pub fn dma_control_addr(dma: usize) -> (r: usize)
    requires
        dma < 4,
    ensures
        r == 0x0400_00b8 + 0x0c * dma,
{
    DMA_CONTROL_BASE + DMA_CHANNEL_STRIDE * dma
}

/// Access to the DMA channels.
pub struct DmaController {}

impl DmaController {
    pub fn new() -> (r: DmaController) {
        DmaController {  }
    }

    pub fn dma(&mut self) -> (r: Dmas)
        ensures
            r.dma0.channel() == 0,
            r.dma3.channel() == 3,
    {
        Dmas::new()
    }
}

/// The DMA channels that clients may drive.
pub struct Dmas {
    pub dma0: Dma,
    pub dma3: Dma,
}

impl Dmas {
    pub fn new() -> (r: Dmas)
        ensures
            r.dma0.channel() == 0,
            r.dma3.channel() == 3,
    {
        Dmas { dma0: Dma::new(0), dma3: Dma::new(3) }
    }
}

/// One DMA channel and the addresses of its registers.
pub struct Dma {
    number: usize,
    source_addr: usize,
    dest_addr: usize,
    ctrl_addr: usize,
}

/// A register that a DMA channel may write into, such as a scroll register.
pub struct DmaControllable<Item> {
    memory_location: usize,
    phantom: PhantomData<Item>,
}

impl<Item> DmaControllable<Item> {
    pub closed spec fn location(&self) -> usize {
        self.memory_location
    }

    pub fn new(memory_location: usize) -> (r: DmaControllable<Item>)
        ensures
            r.location() == memory_location,
    {
        DmaControllable { memory_location, phantom: PhantomData }
    }

    pub fn memory_location(&self) -> (r: usize)
        ensures
            r == self.location(),
    {
        self.memory_location
    }
}

/// A scanline transfer that has been set up: the copy of the values that the
/// channel reads from, and the writes of the destination and control registers.
/// The source register is to be pointed at `data` itself, which must stay in
/// place while the transfer runs; the channel is disabled when the handle goes.
pub struct DmaTransferHandle<T> {
    pub number: usize,
    pub data: Vec<T>,
    pub dest: RegisterWrite,
    pub control: RegisterWrite,
}

impl Dma {
    pub closed spec fn channel(&self) -> usize {
        self.number
    }

    pub closed spec fn wf(&self) -> bool {
        &&& self.number < 4
        &&& self.source_addr == 0x0400_00b0 + 0x0c * self.number
        &&& self.dest_addr == 0x0400_00b4 + 0x0c * self.number
        &&& self.ctrl_addr == 0x0400_00b8 + 0x0c * self.number
    }

    pub fn new(number: usize) -> (r: Dma)
        requires
            number < 4,
        ensures
            r.wf(),
            r.channel() == number,
    {
        Dma {
            number,
            source_addr: dma_source_addr(number),
            dest_addr: dma_dest_addr(number),
            ctrl_addr: dma_control_addr(number),
        }
    }

    /// The write that stops the channel.
    pub fn disable(&self) -> (r: RegisterWrite)
        requires
            self.wf(),
        ensures
            r == (RegisterWrite::Word { addr: (0x0400_00b8 + 0x0c * self.channel()) as usize, word: 0 }),
    {
        RegisterWrite::Word { addr: self.ctrl_addr, word: 0 }
    }

    /// Sets up a copy of one value into `location` at every horizontal blank,
    /// walking through `values`, which must hold one value per visible line at
    /// least (`hblank_values_suffice`).
    pub fn hblank_transfer<T: Copy>(&self, location: &DmaControllable<T>, values: &[T]) -> (r:
        DmaTransferHandle<T>)
        requires
            self.wf(),
            values@.len() >= HBLANK_MIN_VALUES,
        ensures
            ({
                let h = r;
                &&& h.number == self.channel()
                &&& h.data@ == values@
                &&& h.dest == (RegisterWrite::Word {
                    addr: (0x0400_00b4 + 0x0c * self.channel()) as usize,
                    word: location.location() as u32,
                })
                &&& h.control == (RegisterWrite::Word {
                    addr: (0x0400_00b8 + 0x0c * self.channel()) as usize,
                    word: HBLANK_CONTROL | ((vstd::layout::size_of::<T>() / 2) as u32),
                })
            }),
    {
        let mut data: Vec<T> = Vec::new();
        let mut i: usize = 0;
        while i < values.len()
            invariant
                0 <= i <= values@.len(),
                data@ == values@.take(i as int),
            decreases values@.len() - i,
        {
            data.push(values[i]);
            i += 1;
            assert(data@ =~= values@.take(i as int));
        }
        assert(data@ =~= values@);
        let n_transfers = (core::mem::size_of::<T>() / 2) as u32;
        DmaTransferHandle {
            number: self.number,
            data,
            dest: RegisterWrite::Word { addr: self.dest_addr, word: location.memory_location as u32 },
            control: RegisterWrite::Word { addr: self.ctrl_addr, word: HBLANK_CONTROL | n_transfers },
        }
    }
}

/// Whether `len` values are enough for a scanline transfer: one per visible line.
pub fn hblank_values_suffice(len: usize) -> (r: bool)
    ensures
        r == (len >= HBLANK_MIN_VALUES),
{
    len >= HBLANK_MIN_VALUES
}

/// The writes of a 16-bit copy of `count` values on channel 3 from `src` to
/// `dest`: source, destination, then control, which starts it.
pub fn dma_copy16(src: u32, dest: u32, count: usize) -> (r: Vec<RegisterWrite>)
    requires
        count < 0xffff,
    ensures
        r@ == seq![
            RegisterWrite::Word { addr: 0x0400_00d4, word: src },
            RegisterWrite::Word { addr: 0x0400_00d8, word: dest },
            RegisterWrite::Word { addr: 0x0400_00dc, word: (count + 0x8000_0000) as u32 },
        ],
{
    let c = count as u32;
    let control = c | 0x8000_0000u32;
    assert(control == c + 0x8000_0000) by (bit_vector)
        requires
            c < 0xffff,
            control == c | 0x8000_0000u32,
    ;
    vec![
        RegisterWrite::Word { addr: dma_source_addr(3), word: src },
        RegisterWrite::Word { addr: dma_dest_addr(3), word: dest },
        RegisterWrite::Word { addr: dma_control_addr(3), word: control },
    ]
}

/// Address of the upper half of channel `dma`'s control register, which holds
/// its enable bit (bit 15).
pub open spec fn control_hi_addr(dma: int) -> usize {
    (0x0400_00b8 + 0x0c * dma + 2) as usize
}

/// The writes that pause channels 0 to 2, given the upper halves of their control
/// registers: each keeps its bits but the enable bit.
pub fn dma3_exclusive_pause(dma0: u16, dma1: u16, dma2: u16) -> (r: Vec<RegisterWrite>)
    ensures
        r@ == seq![
            RegisterWrite::Half { addr: control_hi_addr(0), half: dma0 & 0x7fff },
            RegisterWrite::Half { addr: control_hi_addr(1), half: dma1 & 0x7fff },
            RegisterWrite::Half { addr: control_hi_addr(2), half: dma2 & 0x7fff },
        ],
{
    vec![
        RegisterWrite::Half { addr: dma_control_addr(0) + 2, half: dma0 & 0x7fff },
        RegisterWrite::Half { addr: dma_control_addr(1) + 2, half: dma1 & 0x7fff },
        RegisterWrite::Half { addr: dma_control_addr(2) + 2, half: dma2 & 0x7fff },
    ]
}

/// The writes that restore channels 0 to 2 to the control values read before a
/// pause.
pub fn dma3_exclusive_resume(dma0: u16, dma1: u16, dma2: u16) -> (r: Vec<RegisterWrite>)
    ensures
        r@ == seq![
            RegisterWrite::Half { addr: control_hi_addr(0), half: dma0 },
            RegisterWrite::Half { addr: control_hi_addr(1), half: dma1 },
            RegisterWrite::Half { addr: control_hi_addr(2), half: dma2 },
        ],
{
    vec![
        RegisterWrite::Half { addr: dma_control_addr(0) + 2, half: dma0 },
        RegisterWrite::Half { addr: dma_control_addr(1) + 2, half: dma1 },
        RegisterWrite::Half { addr: dma_control_addr(2) + 2, half: dma2 },
    ]
}

} // verus!
