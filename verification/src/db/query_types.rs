//! A stored word of the text, with the punctuation that surrounds it, and
//! its rendering as display text.
use vstd::prelude::*;
use crate::text::{
    all_white_space, is_white_space, law_trim_ignores_trailing_white_space, law_trim_keeps_front,
    trim_spec, trimmed_string,
};

verus! {

/// One word of a verse as stored in the `words` table.
///
/// The `starts_with_*` flags are nonzero when the word is preceded by that
/// character. An `ends_with_*` flag of `2` puts the mark after the word with a
/// space between; any other nonzero value attaches the mark to the word.
#[derive(Debug, Clone)]
pub struct Word {
    pub index: u64,
    pub word: String,
    pub ends_with_rparen: u8,
    pub ends_with_colon: u8,
    pub ends_with_period: u8,
    pub ends_with_comma: u8,
    pub ends_with_quote: u8,
    pub ends_with_dquote: u8,
    pub ends_with_semicolon: u8,
    pub starts_with_quote: u8,
    pub starts_with_dquote: u8,
    pub starts_with_lparen: u8,
    pub book_number: i32,
    pub chapter_number: i32,
    pub verse_number: i32,
}

/// The single character put before the word: an opening parenthesis, else
/// a quote, else a double quote, else nothing.
pub open spec fn opening_mark(w: Word) -> Seq<char> {
    if w.starts_with_lparen > 0 {
        seq!['(']
    } else if w.starts_with_quote > 0 {
        seq!['\'']
    } else if w.starts_with_dquote > 0 {
        seq!['"']
    } else {
        seq![]
    }
}

/// Places `mark` in the last two positions of `s`: with `flag == 2` it
/// replaces the last character; with another nonzero flag it replaces the
/// second to last one and the last character moves after it; with `0`
/// nothing changes.
pub open spec fn place_mark(s: Seq<char>, flag: u8, mark: char) -> Seq<char> {
    if flag == 0 {
        s
    } else if flag == 2 {
        s.drop_last().push(mark)
    } else {
        s.drop_last().drop_last().push(mark).push(s.last())
    }
}

/// The word with its opening mark and two trailing spaces, before any
/// closing mark is placed.
pub open spec fn padded_word(w: Word) -> Seq<char> {
    opening_mark(w) + w.word@ + seq![' ', ' ']
}

/// The word with all closing marks placed, in the order right
/// parenthesis, colon, period, comma, quote, double quote, semicolon.
pub open spec fn marked_word(w: Word) -> Seq<char> {
    let s0 = padded_word(w);
    let s1 = place_mark(s0, w.ends_with_rparen, ')');
    let s2 = place_mark(s1, w.ends_with_colon, ':');
    let s3 = place_mark(s2, w.ends_with_period, '.');
    let s4 = place_mark(s3, w.ends_with_comma, ',');
    let s5 = place_mark(s4, w.ends_with_quote, '\'');
    let s6 = place_mark(s5, w.ends_with_dquote, '"');
    place_mark(s6, w.ends_with_semicolon, ';')
}

/// How a word is displayed: the marked word without surrounding white space.
pub open spec fn word_text(w: Word) -> Seq<char> {
    trim_spec(marked_word(w))
}

/// The closing-mark flags of a word, in the order in which the marks are placed.
pub open spec fn closing_flags(w: Word) -> Seq<u8> {
    seq![
        w.ends_with_rparen,
        w.ends_with_colon,
        w.ends_with_period,
        w.ends_with_comma,
        w.ends_with_quote,
        w.ends_with_dquote,
        w.ends_with_semicolon,
    ]
}

/// The closing marks, in the order of `closing_flags`.
pub open spec fn closing_marks() -> Seq<char> {
    seq![')', ':', '.', ',', '\'', '"', ';']
}

/// A word without closing marks is displayed as its opening mark followed
/// by the word, without surrounding white space.
pub proof fn law_word_without_closing_marks(w: Word)
    requires
        forall|k: int| 0 <= k < 7 ==> #[trigger] closing_flags(w)[k] == 0,
    ensures
        word_text(w) == trim_spec(opening_mark(w) + w.word@),
{
    assert(closing_flags(w)[0] == 0 && closing_flags(w)[1] == 0 && closing_flags(w)[2] == 0
        && closing_flags(w)[3] == 0 && closing_flags(w)[4] == 0 && closing_flags(w)[5] == 0
        && closing_flags(w)[6] == 0);
    let base = opening_mark(w) + w.word@;
    let pad = seq![' ', ' '];
    assert(marked_word(w) =~= base + pad);
    assert(is_white_space(' '));
    assert(all_white_space(pad));
    law_trim_ignores_trailing_white_space(base, pad);
}

/// A word with one closing mark: a flag of `2` sets the mark off from the
/// word by a space, any other nonzero flag attaches the mark to the word.
pub proof fn law_word_with_one_closing_mark(w: Word, k: int)
    requires
        0 <= k < 7,
        closing_flags(w)[k] != 0,
        forall|j: int| 0 <= j < 7 && j != k ==> #[trigger] closing_flags(w)[j] == 0,
    ensures
        closing_flags(w)[k] == 2 ==> word_text(w) == trim_spec(
            opening_mark(w) + w.word@ + seq![' ', closing_marks()[k]],
        ),
        closing_flags(w)[k] != 2 ==> word_text(w) == trim_spec(
            opening_mark(w) + w.word@ + seq![closing_marks()[k]],
        ),
{
    let base = opening_mark(w) + w.word@;
    let m = closing_marks()[k];
    let f = closing_flags(w)[k];
    assert(marked_word(w) == place_mark(padded_word(w), f, m)) by {
        assert(k == 0 || closing_flags(w)[0] == 0);
        assert(k == 1 || closing_flags(w)[1] == 0);
        assert(k == 2 || closing_flags(w)[2] == 0);
        assert(k == 3 || closing_flags(w)[3] == 0);
        assert(k == 4 || closing_flags(w)[4] == 0);
        assert(k == 5 || closing_flags(w)[5] == 0);
        assert(k == 6 || closing_flags(w)[6] == 0);
    }
    if f == 2 {
        assert(place_mark(padded_word(w), f, m) =~= base + seq![' ', m]);
    } else {
        assert(place_mark(padded_word(w), f, m) =~= (base + seq![m]) + seq![' ']);
        assert(is_white_space(' '));
        assert(all_white_space(seq![' ']));
        law_trim_ignores_trailing_white_space(base + seq![m], seq![' ']);
    }
}

proof fn lemma_place_mark_keeps_front(s: Seq<char>, flag: u8, mark: char)
    requires
        s.len() >= 2,
    ensures
        place_mark(s, flag, mark).len() == s.len(),
        place_mark(s, flag, mark).subrange(0, s.len() - 2) == s.subrange(0, s.len() - 2),
{
    assert(place_mark(s, flag, mark).subrange(0, s.len() - 2) =~= s.subrange(0, s.len() - 2));
}

proof fn lemma_marks_keep_front(w: Word)
    ensures
        marked_word(w).len() == opening_mark(w).len() + w.word@.len() + 2,
        marked_word(w).subrange(0, marked_word(w).len() - 2) == opening_mark(w) + w.word@,
{
    let s0 = padded_word(w);
    let n = s0.len() - 2;
    let s1 = place_mark(s0, w.ends_with_rparen, ')');
    let s2 = place_mark(s1, w.ends_with_colon, ':');
    let s3 = place_mark(s2, w.ends_with_period, '.');
    let s4 = place_mark(s3, w.ends_with_comma, ',');
    let s5 = place_mark(s4, w.ends_with_quote, '\'');
    let s6 = place_mark(s5, w.ends_with_dquote, '"');
    lemma_place_mark_keeps_front(s0, w.ends_with_rparen, ')');
    lemma_place_mark_keeps_front(s1, w.ends_with_colon, ':');
    lemma_place_mark_keeps_front(s2, w.ends_with_period, '.');
    lemma_place_mark_keeps_front(s3, w.ends_with_comma, ',');
    lemma_place_mark_keeps_front(s4, w.ends_with_quote, '\'');
    lemma_place_mark_keeps_front(s5, w.ends_with_dquote, '"');
    lemma_place_mark_keeps_front(s6, w.ends_with_semicolon, ';');
    assert(s0.subrange(0, n) =~= opening_mark(w) + w.word@);
}

/// How a displayed word begins, whatever its closing marks: an opening
/// parenthesis when that flag is set, else a single quote, else a double
/// quote, each directly followed by the word; without an opening mark the
/// word itself. Where the word ends in white space the closing marks may
/// follow it instead, so the whole word is promised only for words that
/// are empty or end in another character.
pub proof fn law_display_begins_with_opening_mark(w: Word)
    ensures
        w.starts_with_lparen > 0 ==> word_text(w).len() >= 1 && word_text(w)[0] == '(',
        w.starts_with_lparen == 0 && w.starts_with_quote > 0 ==> word_text(w).len() >= 1
            && word_text(w)[0] == '\'',
        w.starts_with_lparen == 0 && w.starts_with_quote == 0 && w.starts_with_dquote > 0
            ==> word_text(w).len() >= 1 && word_text(w)[0] == '"',
        (w.word@.len() == 0 || !is_white_space(w.word@.last())) ==> {
            let n = w.word@.len() as int;
            &&& w.starts_with_lparen > 0 ==> word_text(w).len() >= n + 1 && word_text(
                w,
            ).subrange(0, n + 1) == seq!['('] + w.word@
            &&& w.starts_with_lparen == 0 && w.starts_with_quote > 0 ==> word_text(w).len() >= n
                + 1 && word_text(w).subrange(0, n + 1) == seq!['\''] + w.word@
            &&& w.starts_with_lparen == 0 && w.starts_with_quote == 0 && w.starts_with_dquote > 0
                ==> word_text(w).len() >= n + 1 && word_text(w).subrange(0, n + 1) == seq!['"']
                + w.word@
        },
        w.starts_with_lparen == 0 && w.starts_with_quote == 0 && w.starts_with_dquote == 0
            && w.word@.len() > 0 && !is_white_space(w.word@[0]) && !is_white_space(
            w.word@.last(),
        ) ==> word_text(w).len() >= w.word@.len() && word_text(w).subrange(
            0,
            w.word@.len() as int,
        ) == w.word@,
{
    lemma_marks_keep_front(w);
    let m = marked_word(w);
    let front = opening_mark(w) + w.word@;
    let n = w.word@.len() as int;
    assert forall|i: int| 0 <= i < front.len() implies m[i] == front[i] by {
        assert(m.subrange(0, m.len() - 2)[i] == m[i]);
    }
    assert(!is_white_space('('));
    assert(!is_white_space('\''));
    assert(!is_white_space('"'));
    if opening_mark(w).len() == 1 {
        law_trim_keeps_front(m, 1);
        assert(word_text(w)[0] == word_text(w).subrange(0, 1)[0]);
        if n == 0 || !is_white_space(w.word@.last()) {
            if n > 0 {
                assert(front[n] == w.word@.last());
            }
            law_trim_keeps_front(m, n + 1);
            assert(m.subrange(0, n + 1) =~= front);
        }
    } else if n > 0 && !is_white_space(w.word@[0]) && !is_white_space(w.word@.last()) {
        assert(front =~= w.word@);
        assert(front[n - 1] == w.word@.last());
        law_trim_keeps_front(m, n);
        assert(m.subrange(0, n) =~= w.word@);
    }
}

/// Applies one closing mark to the buffer.
fn place_mark_in(buf: &mut Vec<char>, flag: u8, mark: char)
    requires
        old(buf)@.len() >= 2,
    ensures
        final(buf)@ == place_mark(old(buf)@, flag, mark),
        final(buf)@.len() == old(buf)@.len(),
{
    if flag > 0 {
        if flag == 2 {
            let _ = buf.pop();
            buf.push(mark);
        } else {
            let last = buf.pop();
            let _ = buf.pop();
            buf.push(mark);
            match last {
                Some(c) => buf.push(c),
                None => {},
            }
        }
    }
    proof {
        if flag != 0 && flag != 2 {
            assert(final(buf)@ =~= place_mark(old(buf)@, flag, mark));
        }
    }
}

impl Word {
    /// The key of the verse this word belongs to: book, chapter and verse number.
    pub open spec fn verse_key_spec(self) -> (i32, i32, i32) {
        (self.book_number, self.chapter_number, self.verse_number)
    }

    /// The book, chapter and verse number of this word.
    pub fn verse_key(&self) -> (res: (i32, i32, i32))
        ensures
            res == self.verse_key_spec(),
    {
        (self.book_number, self.chapter_number, self.verse_number)
    }

    /// The word as it is displayed in a verse: its opening mark, the word,
    /// its closing marks, trimmed of surrounding white space.
    pub fn display_text(&self) -> (res: String)
        ensures
            res@ == word_text(*self),
    {
        let mut buf: Vec<char> = Vec::new();
        if self.starts_with_lparen > 0 {
            buf.push('(');
        } else if self.starts_with_quote > 0 {
            buf.push('\'');
        } else if self.starts_with_dquote > 0 {
            buf.push('"');
        }
        assert(buf@ == opening_mark(*self));
        let ghost start = buf@;
        let word = self.word.as_str();
        let n = word.unicode_len();
        let mut i: usize = 0;
        while i < n
            invariant
                i <= n == word@.len(),
                word@ == self.word@,
                buf@ == start + word@.subrange(0, i as int),
            decreases n - i,
        {
            buf.push(word.get_char(i));
            i += 1;
            assert(buf@ =~= start + word@.subrange(0, i as int));
        }
        buf.push(' ');
        buf.push(' ');
        assert(buf@ =~= padded_word(*self));
        place_mark_in(&mut buf, self.ends_with_rparen, ')');
        place_mark_in(&mut buf, self.ends_with_colon, ':');
        place_mark_in(&mut buf, self.ends_with_period, '.');
        place_mark_in(&mut buf, self.ends_with_comma, ',');
        place_mark_in(&mut buf, self.ends_with_quote, '\'');
        place_mark_in(&mut buf, self.ends_with_dquote, '"');
        place_mark_in(&mut buf, self.ends_with_semicolon, ';');
        trimmed_string(&buf)
    }
}

} // verus!
