//! Verified core of a Bible reading and search service: rendering of
//! stored words, search-term selection, search query construction,
//! grouping of search hits into verses, and the JSON API replies.
use vstd::prelude::*;

pub mod api;
pub mod db;
pub mod templates;
pub mod text;

verus! {

/// What the search help page lists: the short and long name of each book.
pub struct SearchHelp {
    pub bible_books: Vec<(String, String)>,
}

} // verus!
