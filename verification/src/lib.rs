//! Verified tile compatibility and composition engine.
//!
//! The library checks whether square image tiles can be joined seamlessly
//! along a shared edge, scores the perceptual similarity of seam-adjacent
//! edge bands, and composes nine tiles into a 3x3 grid that is resampled
//! to a requested size. Decoding, encoding and resampling are delegated to
//! the `image` crate through a small set of trusted wrappers; everything
//! else is verified.

pub mod align;
pub mod bitmap;
pub mod codec;
pub mod edge;
pub mod error;
pub mod grid;
pub mod resize;
pub mod seam;

pub use align::check_edge_alignment;
pub use grid::create_image_grid;
pub use resize::resize_image;
pub use seam::compare_images;
