//! Content-addressed thumbnail cache and catalog for a personal media
//! library: identity hashing, bucketed blob storage, an image transcode
//! policy, and a relational catalog with a filename index.

pub mod bucket;
pub mod cache;
pub mod catalog;
pub mod collect;
pub mod config;
pub mod errors;
pub mod identity;
pub mod root;
pub mod sqldb;
pub mod store;
pub mod transcode;
pub mod text;

use vstd::prelude::*;

verus! {

/// The fixed maximum thumbnail height, in pixels.
pub const MAX_THUMB_HEIGHT: u32 = 300;

} // verus!
