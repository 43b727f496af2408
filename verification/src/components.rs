//! Values shown by the interface.
use vstd::prelude::*;

verus! {

/// An audio, subtitle or video track as listed in the interface.
#[derive(Clone, Debug, PartialEq)]
pub struct TrackItem {
    pub id: i64,
    pub title: String,
    pub lang: String,
    pub track_type: String,
}

} // verus!
