//! An in-memory video-editing engine.
//!
//! A video is an ordered sequence of equally sized raster frames. The library
//! offers per-frame pixel operations (tint, monochrome, chroma-key
//! compositing), whole-video structural edits (crop, splice, concatenate,
//! fade, overlay), and the pure bookkeeping around handing frames to an
//! external encoder (scratch names, numbered image file names). Every
//! operation carries a contract, and the stated properties of the engine are
//! proved alongside the code.

pub mod error;
pub mod frame;
pub mod naming;
pub mod pixel;
pub mod scratch;
pub mod video;

pub use error::VfxError;
pub use frame::Frame;
pub use pixel::Pixel;
pub use video::{Video, VideoPosition};
