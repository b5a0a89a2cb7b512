use raamattu::db::query_types::Word;
use raamattu::text::{is_white_space_char, split_chars, trimmed_string};

fn word(text: &str) -> Word {
    Word {
        index: 1,
        word: text.to_string(),
        ends_with_rparen: 0,
        ends_with_colon: 0,
        ends_with_period: 0,
        ends_with_comma: 0,
        ends_with_quote: 0,
        ends_with_dquote: 0,
        ends_with_semicolon: 0,
        starts_with_quote: 0,
        starts_with_dquote: 0,
        starts_with_lparen: 0,
        book_number: 1,
        chapter_number: 1,
        verse_number: 1,
    }
}

#[test]
fn white_space_matches_std() {
    for u in 0u32..=0x10FFFF {
        if let Some(c) = char::from_u32(u) {
            assert_eq!(is_white_space_char(c), c.is_whitespace(), "code point {:x}", u);
        }
    }
}

#[test]
fn trimming_matches_std() {
    for s in ["", "   ", "  a b  ", "\u{3000}x\u{a0}", "abc", "\ty\n"] {
        let chars: Vec<char> = s.chars().collect();
        assert_eq!(trimmed_string(&chars), s.trim());
    }
}

#[test]
fn splitting_matches_std() {
    for s in ["", " ", "a", "Jeesus elää", "  two  spaces ", "a b c"] {
        let expected: Vec<String> = s.split(' ').map(|p| p.to_string()).collect();
        assert_eq!(split_chars(s, ' '), expected);
    }
}

#[test]
fn plain_word() {
    assert_eq!(word("Alussa").display_text(), "Alussa");
}

#[test]
fn opening_marks_take_precedence_in_order() {
    let mut w = word("sana");
    w.starts_with_quote = 1;
    w.starts_with_dquote = 1;
    assert_eq!(w.display_text(), "'sana");
    w.starts_with_lparen = 1;
    assert_eq!(w.display_text(), "(sana");
    w.starts_with_lparen = 0;
    w.starts_with_quote = 0;
    assert_eq!(w.display_text(), "\"sana");
}

#[test]
fn attached_closing_mark() {
    let mut w = word("maan");
    w.ends_with_period = 1;
    assert_eq!(w.display_text(), "maan.");
    let mut w = word("sanoi");
    w.ends_with_colon = 1;
    assert_eq!(w.display_text(), "sanoi:");
}

#[test]
fn detached_closing_mark() {
    let mut w = word("sana");
    w.ends_with_rparen = 2;
    assert_eq!(w.display_text(), "sana )");
    let mut w = word("sana");
    w.ends_with_dquote = 2;
    assert_eq!(w.display_text(), "sana \"");
}

#[test]
fn flag_values_other_than_two_attach() {
    let mut w = word("sana");
    w.ends_with_comma = 7;
    assert_eq!(w.display_text(), "sana,");
}

#[test]
fn two_attached_marks_keep_the_later_one() {
    // The second mark takes the place of the first attached one.
    let mut w = word("loppu");
    w.ends_with_rparen = 1;
    w.ends_with_period = 1;
    assert_eq!(w.display_text(), "loppu.");
}

#[test]
fn attached_then_detached_mark() {
    let mut w = word("loppu");
    w.ends_with_rparen = 1;
    w.ends_with_period = 2;
    assert_eq!(w.display_text(), "loppu).");
}

#[test]
fn detached_then_attached_mark() {
    let mut w = word("loppu");
    w.ends_with_comma = 2;
    w.ends_with_quote = 1;
    assert_eq!(w.display_text(), "loppu',");
}

#[test]
fn opening_and_closing_marks() {
    let mut w = word("sana");
    w.starts_with_lparen = 1;
    w.ends_with_rparen = 1;
    assert_eq!(w.display_text(), "(sana)");
}

#[test]
fn empty_word_with_mark() {
    let mut w = word("");
    w.ends_with_semicolon = 1;
    assert_eq!(w.display_text(), ";");
    assert_eq!(word("").display_text(), "");
}

#[test]
fn word_with_surrounding_white_space_is_trimmed() {
    assert_eq!(word("  sana ").display_text(), "sana");
}

#[test]
fn verse_key_of_word() {
    let mut w = word("x");
    w.book_number = 3;
    w.chapter_number = 4;
    w.verse_number = 5;
    assert_eq!(w.verse_key(), (3, 4, 5));
}

#[test]
fn law_no_closing_marks_on_example() {
    // Without closing marks the text is the opening mark and the word, trimmed.
    let mut w = word(" hyvä ");
    w.starts_with_dquote = 1;
    assert_eq!(w.display_text(), "\" hyvä");
}

#[test]
fn law_one_closing_mark_on_example() {
    let marks = [')', ':', '.', ',', '\'', '"', ';'];
    for (k, m) in marks.iter().enumerate() {
        for flag in [1u8, 2u8] {
            let mut w = word("sana");
            match k {
                0 => w.ends_with_rparen = flag,
                1 => w.ends_with_colon = flag,
                2 => w.ends_with_period = flag,
                3 => w.ends_with_comma = flag,
                4 => w.ends_with_quote = flag,
                5 => w.ends_with_dquote = flag,
                _ => w.ends_with_semicolon = flag,
            }
            let expected = if flag == 2 { format!("sana {}", m) } else { format!("sana{}", m) };
            assert_eq!(w.display_text(), expected);
        }
    }
}
