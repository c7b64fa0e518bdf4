//! Plain records the library hands out.
use vstd::prelude::*;

verus! {

/// Totals of the library shown on the statistics page.
pub struct MediaCounts {
    pub total: i64,
    pub images: i64,
    pub videos: i64,
    pub total_size_bytes: i64,
}

/// A tag and how many media items carry it.
pub struct TagCount {
    pub name: String,
    pub count: i64,
}

} // verus!
