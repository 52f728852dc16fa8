use vstd::prelude::*;

use crate::tiled::TiledBackground;

verus! {

/// Access to the video hardware.
pub struct Video {}

impl Video {
    pub fn new() -> (r: Video) {
        Video {  }
    }

    /// The tiled modes, with up to four background layers.
    pub fn tiled(&mut self) -> (r: TiledBackground) {
        TiledBackground::new()
    }
}

} // verus!
