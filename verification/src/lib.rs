//! Finding duplicate and near-duplicate images: perceptual bit hashes, the
//! kernels that produce them, a vantage-point tree over Hamming distance,
//! and the bookkeeping of a parallel load-and-hash run.

pub mod error;
pub mod text;
pub mod base64;
pub mod bithash;
pub mod hash;
pub mod pixels;
pub mod clock;
pub mod imaging;
pub mod kernels;
pub mod hasher;
pub mod model;
pub mod loader;
pub mod status;
pub mod pool;
pub mod search;
pub mod format;
pub mod args;
pub mod report;
pub mod settings;
pub mod util;
pub mod vptree;
pub mod tree_laws;
pub mod collate;
pub mod manage;
pub mod pipeline;
