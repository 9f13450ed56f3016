//! Decoding of WOFF2 font data: the buffer readers that the format's
//! variable-length integers need, the Brotli stage, and the reconstruction of
//! the `glyf` and `loca` tables from the transformed `glyf` table.

pub mod brotli;
pub mod buffer;
pub mod decode;
pub mod glyf;
