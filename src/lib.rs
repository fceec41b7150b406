//! Dominant-colour extraction and palette transfer on pixel buffers.
//!
//! `pixel` handles RGBA byte pixels and buffers; `clustering` and
//! `dispersion` summarise a population of fixed-point colour vectors with
//! k-means, the latter with per-cluster spreads; `transfer` recombines the
//! cluster statistics of two populations.
pub mod clustering;
pub mod dispersion;
pub mod error;
pub mod pixel;
pub mod transfer;

pub use clustering::{k_means, KMeans};
pub use dispersion::{k_means_std, KMeansStd};
pub use error::TransferError;
pub use pixel::{bytes_from_pixels, pixels_from_bytes, threshold_alpha, threshold_pixels};
