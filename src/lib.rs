//! Tile-based background display for a handheld console: a content-addressed
//! tile store in video memory with deduplication, reference counts and deferred
//! reclamation; background grids with wrap-around addressing and dirty
//! tracking; the per-frame assignment of layers to hardware slots and the
//! register writes that show them; scanline DMA set-up; region allocators.

pub mod block_allocator;
pub mod bump_allocator;
pub mod dma;
pub mod infinite_scrolled_map;
pub mod memory_mapped;
pub mod regular_background;
pub mod tiled;
pub mod video;
pub mod vram_manager;
