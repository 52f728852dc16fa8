use vstd::prelude::*;

verus! {

/// A write of a memory-mapped register, handed back by the library for the
/// platform layer to carry out in order: all hardware access goes through
/// values of this type.
#[derive(Clone, Copy, Debug, PartialEq, Eq, Structural)]
pub enum RegisterWrite {
    Half { addr: usize, half: u16 },
    Word { addr: usize, word: u32 },
}

} // verus!
