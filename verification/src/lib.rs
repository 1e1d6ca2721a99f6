//! A verified directory-listing library.
//!
//! The library models a directory tree as plain data (names, sizes,
//! modification times, entry kinds), classifies entries into buckets,
//! sorts them by a chosen key, and renders the listing as a sequence
//! of lines, exactly as a small `ls`-like tool prints them.

use vstd::prelude::*;

pub mod entry;
pub mod laws;
pub mod listing;
pub mod options;
pub mod order;
pub mod render;
pub mod text;

verus! {

/// Marker character that makes an entry hidden.
pub open spec fn hidden_marker() -> char {
    '.'
}

} // verus!
