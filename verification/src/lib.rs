//! Percentile-based intensity clipping for flat 8-bit pixel-channel buffers.
//!
//! The core computes order-statistic (percentile) cutoffs over a flat buffer
//! of byte intensities and applies clamping policies: two-sided clipping and
//! one-sided hot-pixel suppression. Image container decoding and encoding are
//! delegated to an external image library behind a small trusted boundary.

pub mod percentile;
pub mod clip;
pub mod image_ops;
