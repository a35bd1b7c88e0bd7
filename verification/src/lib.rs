//! Verified core of an out-of-core octree builder for colored 3D point
//! clouds.
//!
//! The library holds the pure logic of the build pipeline: node addressing,
//! bounding-box geometry over order-preserving coordinate codes, the octant
//! splitter, the level-synchronous subsampler, progress accounting, the
//! on-disk point-record codec and the metadata descriptor. All file, channel
//! and thread plumbing lives outside the library and hands it plain values.

pub mod bbox;
pub mod meta;
pub mod names;
pub mod point;
pub mod progress;
pub mod record;
pub mod split;
pub mod subsample;

use vstd::prelude::*;

verus! {

/// Number of points between two progress notifications.
pub const UPDATE_COUNT: i64 = 100000;

/// A node whose file holds fewer points than this is a leaf of the split
/// phase; nodes at or above it are split further.
pub const LEAF_THRESHOLD: i64 = 100000;

/// Default number of worker threads driving the pipeline.
pub const DEFAULT_POOL_SIZE: usize = 10;

} // verus!
