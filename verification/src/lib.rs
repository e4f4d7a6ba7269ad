pub mod bounded_grid;
pub mod decoder;
pub mod dense_grid;
pub mod format;
pub mod grid;
pub mod playback;
pub mod rle;
pub mod rule;
pub mod universe;
