//! Early-boot diagnostics: a bitmap-font text console for a linear
//! framebuffer, a bounded formatting buffer, memory-region labels and a
//! leveled log-line format.
//!
//! Nothing in this crate touches hardware.  Rasterizing yields the list of
//! 32-bit stores to perform, formatting fills a caller-supplied byte buffer,
//! and the caller decides where the pixels and the text go.

pub mod console;
pub mod entry_type;
pub mod exit;
pub mod framebuffer;
pub mod log;
pub mod psf_font;
pub mod utils;
