//! Assembles animated character sprites from a sprite atlas and its
//! part-geometry and frame-sequence tables.

pub mod animation;
pub mod cgg;
pub mod cgs;
pub mod character_db;
pub mod cli;
pub mod constants;
pub mod discovery;
pub mod error;
pub mod imageops;
pub mod metadata;
pub mod raster;
pub mod rounding;
pub mod sheet;
pub mod text;
pub mod unit;
pub mod validation;

pub use error::FfbeError;
pub use unit::{Frames, Unit};
