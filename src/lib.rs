//! A layered character-grid compositor: layers of glyph cells, a palette of
//! named colors, and deferred draw batches replayed in z-order.
pub mod batch;
pub mod color;
pub mod console;
pub mod context;
pub mod geometry;
pub mod palette;
pub mod sorting;
