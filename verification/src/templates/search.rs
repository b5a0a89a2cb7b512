//! The search page: which query is run, and how the verses found are shown.
use vstd::prelude::*;
use crate::db::query_types::{word_text, Word};
use crate::text::push_char;

verus! {

/// The query parameters of the search page.
pub struct SearchQuery {
    pub search: String,
}

/// A verse found by a search, as shown on the search page.
pub struct Verse {
    pub book: String,
    pub chapter_nr: i32,
    pub verse_nr: i32,
    pub verse: String,
}

/// What the search page shows: the verses found.
pub struct SearchContext {
    pub results: Vec<Verse>,
}

/// The query searched for when the search field is left empty.
pub open spec fn default_search() -> Seq<char> {
    "Jeesus elää"@
}

/// The query to run for the text of the search field: the text itself, or
/// the default query when the field is empty.
pub fn effective_search(search: &str) -> (res: &str)
    ensures
        res@ == if search@.len() == 0 {
            default_search()
        } else {
            search@
        },
{
    if search.is_empty() {
        "Jeesus elää"
    } else {
        search
    }
}

/// The text of a verse: each word's display text followed by one space.
pub open spec fn verse_text_spec(words: Seq<Word>) -> Seq<char>
    decreases words.len(),
{
    if words.len() == 0 {
        seq![]
    } else {
        verse_text_spec(words.drop_last()) + word_text(words.last()) + seq![' ']
    }
}

/// Adding a word to a verse adds that word's display text and then exactly
/// one space, whatever punctuation the word carries; so the text of a verse
/// holds every word's text, each followed by one space.
pub proof fn law_verse_text_appends_word_and_space(words: Seq<Word>, w: Word)
    ensures
        verse_text_spec(words.push(w)) == verse_text_spec(words) + word_text(w) + seq![' '],
        verse_text_spec(words.push(w)).len() == verse_text_spec(words).len() + word_text(w).len()
            + 1,
        verse_text_spec(words.push(w)).last() == ' ',
        verse_text_spec(seq![]) == Seq::<char>::empty(),
{
    assert(words.push(w).drop_last() =~= words);
    assert(words.push(w).last() == w);
}

/// The text of a verse made of `words`.
pub fn verse_text(words: &Vec<Word>) -> (res: String)
    ensures
        res@ == verse_text_spec(words@),
{
    let mut res = String::new();
    let mut i: usize = 0;
    while i < words.len()
        invariant
            i <= words@.len(),
            res@ == verse_text_spec(words@.subrange(0, i as int)),
        decreases words.len() - i,
    {
        let text = words[i].display_text();
        res.append(text.as_str());
        push_char(&mut res, ' ');
        assert(words@.subrange(0, i + 1).drop_last() =~= words@.subrange(0, i as int));
        i += 1;
    }
    assert(words@.subrange(0, i as int) =~= words@);
    res
}

/// How a named verse found by a search is shown.
pub open spec fn shown_verse(found: ((String, i32, i32, i32), Vec<Word>), shown: Verse) -> bool {
    &&& shown.book@ == found.0.0@
    &&& shown.chapter_nr == found.0.2
    &&& shown.verse_nr == found.0.3
    &&& shown.verse@ == verse_text_spec(found.1@)
}

/// The verses found by a search, in order, as the search page shows them.
pub fn search_results(found: &Vec<((String, i32, i32, i32), Vec<Word>)>) -> (res: Vec<Verse>)
    ensures
        res@.len() == found@.len(),
        forall|i: int| 0 <= i < res@.len() ==> shown_verse(found@[i], #[trigger] res@[i]),
        forall|i: int|
            0 <= i < res@.len() ==> {
                &&& (#[trigger] res@[i]).book@ == found@[i].0.0@
                &&& res@[i].chapter_nr == found@[i].0.2
                &&& res@[i].verse_nr == found@[i].0.3
                &&& res@[i].verse@ == verse_text_spec(found@[i].1@)
            },
{
    let mut res: Vec<Verse> = Vec::new();
    let mut i: usize = 0;
    while i < found.len()
        invariant
            i <= found@.len(),
            res@.len() == i,
            forall|k: int| 0 <= k < i ==> shown_verse(found@[k], #[trigger] res@[k]),
        decreases found.len() - i,
    {
        let entry = &found[i];
        let verse = verse_text(&entry.1);
        res.push(
            Verse {
                book: entry.0.0.clone(),
                chapter_nr: entry.0.2,
                verse_nr: entry.0.3,
                verse,
            },
        );
        i += 1;
    }
    res
}

} // verus!
