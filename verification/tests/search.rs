use raamattu::api::{Book, Chapter, NumChapters};
use raamattu::db::query::{attach_book_names, book_numbers, group_by_verse, search_terms, text_search_query};
use raamattu::db::query_types::Word;
use raamattu::templates::search::{effective_search, search_results, verse_text};

fn word_at(text: &str, book: i32, chapter: i32, verse: i32) -> Word {
    Word {
        index: 0,
        word: text.to_string(),
        ends_with_rparen: 0,
        ends_with_colon: 0,
        ends_with_period: 0,
        ends_with_comma: 0,
        ends_with_quote: 0,
        ends_with_dquote: 0,
        ends_with_semicolon: 0,
        starts_with_quote: 0,
        starts_with_dquote: 0,
        starts_with_lparen: 0,
        book_number: book,
        chapter_number: chapter,
        verse_number: verse,
    }
}

const HEAD: &str = "\n    SELECT * FROM words WHERE (book_number, chapter_number, verse_number) IN (SELECT book_number, chapter_number, verse_number FROM words WHERE word LIKE CONCAT(";
const AND: &str = "AND (book_number, chapter_number, verse_number) IN (SELECT book_number, chapter_number, verse_number FROM words WHERE word LIKE CONCAT(";

#[test]
fn terms_of_default_query() {
    assert_eq!(search_terms("Jeesus elää"), vec!["Jeesus", "elää"]);
}

#[test]
fn short_later_terms_are_dropped() {
    assert_eq!(search_terms("ja ja ja isä"), vec!["ja", "isä"]);
    assert_eq!(search_terms("a b cd efg"), vec!["a", "efg"]);
}

#[test]
fn terms_are_counted_in_characters() {
    // Two characters, three bytes: not longer than two characters.
    assert_eq!(search_terms("maa eä"), vec!["maa"]);
    assert_eq!(search_terms("maa elä"), vec!["maa", "elä"]);
}

#[test]
fn empty_pieces_are_dropped_after_the_first() {
    assert_eq!(search_terms(""), vec![""]);
    assert_eq!(search_terms(" Herra  Jumala "), vec!["", "Herra", "Jumala"]);
}

#[test]
fn query_for_one_term() {
    let q = text_search_query("valo");
    assert_eq!(q.builder.sql(), format!("{}?, '%')) ;", HEAD));
}

#[test]
fn query_for_two_terms() {
    let q = text_search_query("Jeesus elää");
    assert_eq!(q.builder.sql(), format!("{}?, '%')) {}?,'%')) ;", HEAD, AND));
}

#[test]
fn law_one_placeholder_per_term_on_example() {
    for query in ["a", "Jeesus elää", "yksi kaksi kolme neljä", "x y z"] {
        let q = text_search_query(query);
        let placeholders = q.builder.sql().chars().filter(|c| *c == '?').count();
        assert_eq!(placeholders, search_terms(query).len());
    }
}

#[test]
fn grouping_by_verse() {
    let words = vec![
        word_at("a", 1, 1, 1),
        word_at("b", 1, 1, 1),
        word_at("c", 1, 1, 2),
        word_at("d", 2, 1, 1),
        word_at("e", 1, 1, 1),
    ];
    let groups = group_by_verse(words);
    let shape: Vec<((i32, i32, i32), Vec<String>)> = groups
        .iter()
        .map(|(k, ws)| (*k, ws.iter().map(|w| w.word.clone()).collect()))
        .collect();
    assert_eq!(
        shape,
        vec![
            ((1, 1, 1), vec!["a".to_string(), "b".to_string()]),
            ((1, 1, 2), vec!["c".to_string()]),
            ((2, 1, 1), vec!["d".to_string()]),
            ((1, 1, 1), vec!["e".to_string()]),
        ]
    );
}

#[test]
fn grouping_nothing() {
    assert!(group_by_verse(Vec::new()).is_empty());
}

#[test]
fn book_numbers_of_groups() {
    let groups = group_by_verse(vec![word_at("a", 40, 1, 1), word_at("b", 43, 3, 16)]);
    assert_eq!(book_numbers(&groups), vec![40, 43]);
}

#[test]
fn naming_verses() {
    let groups = group_by_verse(vec![word_at("a", 40, 2, 3), word_at("b", 43, 3, 16)]);
    let named = attach_book_names(groups, vec!["Matt".to_string(), "Joh".to_string()]);
    assert_eq!(named.len(), 2);
    assert_eq!(named[0].0, ("Matt".to_string(), 40, 2, 3));
    assert_eq!(named[1].0, ("Joh".to_string(), 43, 3, 16));
    assert_eq!(named[1].1[0].word, "b");
}

#[test]
fn naming_stops_at_the_shorter_list() {
    let groups = group_by_verse(vec![word_at("a", 1, 1, 1), word_at("b", 1, 1, 2)]);
    let named = attach_book_names(groups, vec!["1Moos".to_string()]);
    assert_eq!(named.len(), 1);
    let groups = group_by_verse(vec![word_at("a", 1, 1, 1)]);
    assert_eq!(attach_book_names(groups, vec!["x".to_string(), "y".to_string()]).len(), 1);
}

#[test]
fn empty_search_uses_default() {
    assert_eq!(effective_search(""), "Jeesus elää");
    assert_eq!(effective_search("valo"), "valo");
}

#[test]
fn verse_text_has_a_space_after_each_word() {
    let mut last = word_at("elää", 1, 1, 1);
    last.ends_with_period = 1;
    assert_eq!(verse_text(&vec![word_at("Jeesus", 1, 1, 1), last]), "Jeesus elää. ");
    assert_eq!(verse_text(&Vec::new()), "");
}

#[test]
fn search_results_show_book_chapter_and_verse() {
    let groups = group_by_verse(vec![word_at("Alussa", 1, 1, 1), word_at("oli", 1, 1, 1)]);
    let named = attach_book_names(groups, vec!["1Moos".to_string()]);
    let shown = search_results(&named);
    assert_eq!(shown.len(), 1);
    assert_eq!(shown[0].book, "1Moos");
    assert_eq!(shown[0].chapter_nr, 1);
    assert_eq!(shown[0].verse_nr, 1);
    assert_eq!(shown[0].verse, "Alussa oli ");
}

#[test]
fn chapter_count_reply() {
    assert!(matches!(Book::num_chapters(Some(50)), NumChapters::NumChapters(50)));
    match Book::num_chapters(None) {
        NumChapters::Error(e) => {
            assert_eq!(e.code, 400);
            assert_eq!(e.explanation, "Invalid book name. /api/v1/enumerate_books gives list of books.");
        }
        _ => panic!("expected an error reply"),
    }
}

#[test]
fn chapter_reply() {
    match Book::chapter(Some(vec![(1, "Alussa".to_string()), (2, "Ja maa".to_string())])) {
        Chapter::Verses(vs) => {
            assert_eq!(vs.len(), 2);
            assert_eq!(vs[0].num, 1);
            assert_eq!(vs[1].text, "Ja maa");
        }
        _ => panic!("expected verses"),
    }
    match Book::chapter(None) {
        Chapter::Error(e) => {
            assert_eq!(e.code, 400);
            assert!(e.explanation.starts_with("Invalid chapter definition."));
        }
        _ => panic!("expected an error reply"),
    }
}
