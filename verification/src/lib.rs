//! Verified core of a labeled-object patch-extraction pipeline.
//!
//! Given a grayscale raster and a co-registered integer label mask, the
//! library discovers each label's bounding box, derives one global square
//! patch size, crops each object into a zero-padded patch, produces
//! lossless rotation/reflection variants, and lays patches out for the
//! persisted image container. Everything here is element-type agnostic or
//! integer logic; decoding, threading and file output live outside.

pub mod aggregate;
pub mod augment;
pub mod extent;
pub mod patch;
pub mod schedule;
pub mod writer;
