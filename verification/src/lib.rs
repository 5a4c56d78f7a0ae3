//! A verified decoder for a compact, lossless, run/delta-coded pixel image
//! format: a byte stream is turned into a width x height raster of RGB or
//! RGBA samples, or a typed decode error.
//!
//! The decoder's behaviour is pinned down by a mathematical model of the
//! chunk stream (`stream::decode_chunks` and friends); the executable
//! decoder (`decode::Img::from_bytes`) is proved to return exactly what the
//! model says for every input buffer.

pub mod decode;
pub mod laws;
pub mod pixel;
pub mod render;
pub mod stream;
