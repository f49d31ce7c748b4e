//! Plain data records that travel alongside the layout engine's callers.

use vstd::prelude::*;

verus! {

/// A user's personal prize setting: what to search for and how to name it.
#[derive(Clone, Debug, PartialEq, Eq)]
pub struct SpecialPrize {
    pub search_tag: String,
    pub display_name: String,
}

/// Where a stored prize came from, in a form that can be persisted.
#[derive(Debug, Clone, PartialEq, Eq)]
pub enum PrizeSource {
    Telegram { post_id: i32 },
    File { file_name: String },
    Url { photo_url: String },
}

} // verus!
