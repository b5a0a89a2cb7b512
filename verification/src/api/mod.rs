//! Replies of the JSON API used by the phone app.
use vstd::prelude::*;
pub use crate::db::query::Book;

verus! {

/// The body of an error reply: a status code and an explanation.
pub struct ErrorReply {
    pub code: u16,
    pub explanation: String,
}

/// Reply to a question for the number of chapters of a book.
pub enum NumChapters {
    NumChapters(u16),
    Error(ErrorReply),
}

/// Reply to a question for the verses of a chapter.
pub enum Chapter {
    Verses(Vec<Verse>),
    Error(ErrorReply),
}

/// A verse of a chapter: its number and its text.
pub struct Verse {
    pub num: u16,
    pub text: String,
}

/// Explanation sent when a book name is not known.
pub open spec fn invalid_book_explanation() -> Seq<char> {
    "Invalid book name. /api/v1/enumerate_books gives list of books."@
}

/// Explanation sent when a chapter cannot be given.
pub open spec fn invalid_chapter_explanation() -> Seq<char> {
    "Invalid chapter definition. Get book names from /api/v1/enumerate_books and number of chapters for books from /api/v1/:book/num_chapters"@
}

impl Book {
    /// The reply for the chapter count of a book: the count where the book
    /// was found, else an error with code 400.
    pub fn num_chapters(count: Option<u16>) -> (res: NumChapters)
        ensures
            count matches Some(n) ==> res == NumChapters::NumChapters(n),
            count is None ==> (res matches NumChapters::Error(e) && e.code == 400
                && e.explanation@ == invalid_book_explanation()),
    {
        match count {
            Some(n) => NumChapters::NumChapters(n),
            None => NumChapters::Error(
                ErrorReply {
                    code: 400,
                    explanation: String::from_str(
                        "Invalid book name. /api/v1/enumerate_books gives list of books.",
                    ),
                },
            ),
        }
    }

    /// The reply for the verses of a chapter: each verse with its number
    /// and text, in order, where the chapter was found; else an error with
    /// code 400.
    pub fn chapter(verses: Option<Vec<(u16, String)>>) -> (res: Chapter)
        ensures
            verses matches Some(vs) ==> (res matches Chapter::Verses(out) && out@.len()
                == vs@.len() && forall|i: int|
                0 <= i < vs@.len() ==> (#[trigger] out@[i]).num == vs@[i].0 && out@[i].text@
                    == vs@[i].1@),
            verses is None ==> (res matches Chapter::Error(e) && e.code == 400
                && e.explanation@ == invalid_chapter_explanation()),
    {
        match verses {
            Some(vs) => {
                let mut out: Vec<Verse> = Vec::new();
                let mut i: usize = 0;
                while i < vs.len()
                    invariant
                        i <= vs@.len(),
                        out@.len() == i,
                        forall|k: int|
                            0 <= k < i ==> (#[trigger] out@[k]).num == vs@[k].0 && out@[k].text@
                                == vs@[k].1@,
                    decreases vs.len() - i,
                {
                    out.push(Verse { num: vs[i].0, text: vs[i].1.clone() });
                    i += 1;
                }
                Chapter::Verses(out)
            },
            None => Chapter::Error(
                ErrorReply {
                    code: 400,
                    explanation: String::from_str(
                        "Invalid chapter definition. Get book names from /api/v1/enumerate_books and number of chapters for books from /api/v1/:book/num_chapters",
                    ),
                },
            ),
        }
    }
}

} // verus!
