//! Multi-layer float images held as interleaved per-pixel buffers, with the
//! channel reshaping used around an external denoising filter.
pub mod channels;
pub mod image;
pub mod decode;
pub mod encode;
pub mod sequence;
