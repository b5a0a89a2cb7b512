//! Search-term selection, construction of the free-text search query,
//! grouping of the words found into verses, and naming of those verses.
use vstd::prelude::*;
use itertools::Itertools;
use sqlx::{QueryBuilder, Sqlite};
use crate::db::query_types::Word;
use crate::text::{
    count_char, law_split_at_every_separator, lemma_count_char_absent, lemma_count_char_concat,
    lemma_split_nonempty, split_chars, split_spec,
};

verus! {

// ---------------------------------------------------------------------------
// Outside types and the trusted items of the query builder

/// A SQLite query under construction. The builder is kept behind this type
/// so that its contents can be named in contracts; the caller that runs the
/// query takes it out of the public field.
#[verifier::external_body]
pub struct SqlQuery {
    pub builder: QueryBuilder<'static, Sqlite>,
}

/// The SQL text that a query builder holds.
pub uninterp spec fn builder_sql(qb: SqlQuery) -> Seq<char>;

/// The text values bound to the placeholders of a query builder, in order.
pub uninterp spec fn builder_binds(qb: SqlQuery) -> Seq<Seq<char>>;

/// Whether a query builder still accepts fragments (it has not been built).
pub uninterp spec fn builder_open(qb: SqlQuery) -> bool;

/// `QueryBuilder::new`: a builder whose SQL text is `init`, with no bound
/// values, that accepts further fragments.
#[verifier::external_body]
fn builder_new(init: &str) -> (qb: SqlQuery)
    ensures
        builder_sql(qb) == init@,
        builder_binds(qb) == Seq::<Seq<char>>::empty(),
        builder_open(qb),
{
    SqlQuery { builder: QueryBuilder::new(init) }
}

/// `QueryBuilder::push`: appends `sql` to the SQL text; the bound values stay.
/// It panics on a builder that has been built, which `requires` rules out.
#[verifier::external_body]
fn builder_push(qb: &mut SqlQuery, sql: &str)
    requires
        builder_open(*old(qb)),
    ensures
        builder_sql(*final(qb)) == builder_sql(*old(qb)) + sql@,
        builder_binds(*final(qb)) == builder_binds(*old(qb)),
        builder_open(*final(qb)),
{
    qb.builder.push(sql);
}

/// `QueryBuilder::push_bind` on SQLite with a `String`: appends the
/// placeholder `?` to the SQL text and binds `value` as the next text argument
/// (encoding a `String` for SQLite cannot fail).
#[verifier::external_body]
fn builder_push_bind(qb: &mut SqlQuery, value: String)
    requires
        builder_open(*old(qb)),
    ensures
        builder_sql(*final(qb)) == builder_sql(*old(qb)).push('?'),
        builder_binds(*final(qb)) == builder_binds(*old(qb)).push(value@),
        builder_open(*final(qb)),
{
    qb.builder.push_bind(value);
}

// ---------------------------------------------------------------------------
// Search terms

/// The pieces among `pieces` that are longer than two characters, in order.
pub open spec fn long_pieces(pieces: Seq<Seq<char>>) -> Seq<Seq<char>>
    decreases pieces.len(),
{
    if pieces.len() == 0 {
        seq![]
    } else {
        let rest = long_pieces(pieces.drop_last());
        if pieces.last().len() > 2 {
            rest.push(pieces.last())
        } else {
            rest
        }
    }
}

/// The terms searched for: the query split at spaces; the first piece always,
/// each later one only when it is longer than two characters.
pub open spec fn search_terms_spec(query: Seq<char>) -> Seq<Seq<char>> {
    let pieces = split_spec(query, ' ');
    seq![pieces[0]] + long_pieces(pieces.drop_first())
}

/// The terms of a free-text search query, in the order they are bound.
pub fn search_terms(query: &str) -> (res: Vec<String>)
    ensures
        res.deep_view() == search_terms_spec(query@),
        res@.len() >= 1,
{
    let pieces = split_chars(query, ' ');
    let ghost ps = split_spec(query@, ' ');
    proof {
        lemma_split_nonempty(query@, ' ');
    }
    let mut res: Vec<String> = Vec::new();
    res.push(pieces[0].clone());
    assert(res.deep_view() =~= seq![ps[0]] + long_pieces(ps.subrange(1, 1)));
    let mut i: usize = 1;
    while i < pieces.len()
        invariant
            1 <= i <= pieces@.len() == ps.len(),
            forall|k: int| 0 <= k < pieces@.len() ==> #[trigger] pieces@[k]@ == ps[k],
            res.deep_view() == seq![ps[0]] + long_pieces(ps.subrange(1, i as int)),
        decreases pieces.len() - i,
    {
        let piece = pieces[i].clone();
        assert(ps.subrange(1, i + 1).drop_last() =~= ps.subrange(1, i as int));
        let n = piece.as_str().unicode_len();
        let ghost before = res.deep_view();
        assert(ps.subrange(1, i + 1).last() == ps[i as int]);
        if n > 2 {
            res.push(piece);
            assert(res.deep_view() =~= before.push(ps[i as int]));
            assert(res.deep_view() =~= seq![ps[0]] + long_pieces(ps.subrange(1, i + 1)));
        } else {
            assert(res.deep_view() =~= seq![ps[0]] + long_pieces(ps.subrange(1, i + 1)));
        }
        i += 1;
    }
    assert(ps.subrange(1, i as int) =~= ps.drop_first());
    res
}

// ---------------------------------------------------------------------------
// The search query

/// Start of the search query, up to the first term's placeholder.
pub open spec fn head_sql() -> Seq<char> {
    "\n    SELECT * FROM words WHERE (book_number, chapter_number, verse_number) IN (SELECT book_number, chapter_number, verse_number FROM words WHERE word LIKE CONCAT("@
}

/// Closes the first term's condition.
pub open spec fn first_close_sql() -> Seq<char> {
    ", '%')) "@
}

/// Opens the condition of a later term, up to its placeholder.
pub open spec fn and_sql() -> Seq<char> {
    "AND (book_number, chapter_number, verse_number) IN (SELECT book_number, chapter_number, verse_number FROM words WHERE word LIKE CONCAT("@
}

/// Closes the condition of a later term.
pub open spec fn later_close_sql() -> Seq<char> {
    ",'%')) "@
}

/// The SQL text for a first term and `extra` later terms, before the
/// final semicolon: each term is a prefix match (`LIKE term || '%'`) that a
/// word of the verse must satisfy.
pub open spec fn conditions_sql(extra: nat) -> Seq<char>
    decreases extra,
{
    if extra == 0 {
        head_sql() + seq!['?'] + first_close_sql()
    } else {
        conditions_sql((extra - 1) as nat) + and_sql() + seq!['?'] + later_close_sql()
    }
}

/// The SQL text of a search for `terms` (at least one).
pub open spec fn search_sql(terms: nat) -> Seq<char> {
    conditions_sql((terms - 1) as nat) + ";"@
}

/// A query builder for the words of every verse in which each search term
/// of `query_str` starts some word; the terms are bound in order.
pub fn text_search_query(query_str: &str) -> (qb: SqlQuery)
    ensures
        builder_sql(qb) == search_sql(search_terms_spec(query_str@).len()),
        builder_binds(qb) == search_terms_spec(query_str@),
        builder_open(qb),
{
    let terms = search_terms(query_str);
    let ghost ts = terms.deep_view();
    let mut qb = builder_new(
        "\n    SELECT * FROM words WHERE (book_number, chapter_number, verse_number) IN (SELECT book_number, chapter_number, verse_number FROM words WHERE word LIKE CONCAT(",
    );
    builder_push_bind(&mut qb, terms[0].clone());
    builder_push(&mut qb, ", '%')) ");
    assert(builder_sql(qb) =~= conditions_sql(0));
    assert(builder_binds(qb) =~= ts.subrange(0, 1));
    let mut i: usize = 1;
    while i < terms.len()
        invariant
            1 <= i <= terms@.len() == ts.len(),
            ts == terms.deep_view(),
            builder_open(qb),
            builder_sql(qb) == conditions_sql((i - 1) as nat),
            builder_binds(qb) == ts.subrange(0, i as int),
        decreases terms.len() - i,
    {
        builder_push(
            &mut qb,
            "AND (book_number, chapter_number, verse_number) IN (SELECT book_number, chapter_number, verse_number FROM words WHERE word LIKE CONCAT(",
        );
        builder_push_bind(&mut qb, terms[i].clone());
        builder_push(&mut qb, ",'%')) ");
        assert(builder_sql(qb) =~= conditions_sql(i as nat));
        assert(builder_binds(qb) =~= ts.subrange(0, i + 1));
        i += 1;
    }
    builder_push(&mut qb, ";");
    assert(builder_sql(qb) =~= search_sql(ts.len()));
    assert(ts.subrange(0, ts.len() as int) =~= ts);
    qb
}


// ---------------------------------------------------------------------------
// What the search looks for

proof fn lemma_long_pieces(pieces: Seq<Seq<char>>)
    ensures
        forall|k: int|
            0 <= k < long_pieces(pieces).len() ==> #[trigger] long_pieces(pieces)[k].len() > 2,
        forall|j: int|
            0 <= j < pieces.len() && (#[trigger] pieces[j]).len() > 2 ==> long_pieces(
                pieces,
            ).contains(pieces[j]),
        forall|k: int|
            0 <= k < long_pieces(pieces).len() ==> pieces.contains(#[trigger] long_pieces(pieces)[k]),
    decreases pieces.len(),
{
    if pieces.len() > 0 {
        let init = pieces.drop_last();
        lemma_long_pieces(init);
        let rest = long_pieces(init);
        assert forall|j: int| 0 <= j < pieces.len() && (#[trigger] pieces[j]).len() > 2 implies long_pieces(
            pieces,
        ).contains(pieces[j]) by {
            if j < pieces.len() - 1 {
                assert(init[j] == pieces[j]);
                let k = choose|k: int| 0 <= k < rest.len() && rest[k] == init[j];
                assert(long_pieces(pieces)[k] == rest[k]);
            } else {
                assert(long_pieces(pieces)[rest.len() as int] == pieces[j]);
            }
        }
        assert forall|k: int| 0 <= k < long_pieces(pieces).len() implies pieces.contains(
            #[trigger] long_pieces(pieces)[k],
        ) by {
            if k < rest.len() {
                assert(long_pieces(pieces)[k] == rest[k]);
                let j = choose|j: int| 0 <= j < init.len() && init[j] == rest[k];
                assert(pieces[j] == init[j]);
            } else {
                assert(long_pieces(pieces)[k] == pieces.last());
                assert(pieces[pieces.len() - 1] == pieces.last());
            }
        }
    }
}

/// The terms searched for: the first space-separated piece of the query,
/// then exactly those later pieces that are longer than two characters.
pub proof fn law_search_terms(query: Seq<char>)
    ensures
        search_terms_spec(query).len() >= 1,
        search_terms_spec(query)[0] == split_spec(query, ' ')[0],
        forall|k: int|
            1 <= k < search_terms_spec(query).len() ==> (#[trigger] search_terms_spec(query)[k]).len()
                > 2,
        forall|k: int|
            1 <= k < search_terms_spec(query).len() ==> split_spec(query, ' ').drop_first().contains(
                #[trigger] search_terms_spec(query)[k],
            ),
        forall|j: int|
            1 <= j < split_spec(query, ' ').len() && (#[trigger] split_spec(query, ' ')[j]).len() > 2
                ==> search_terms_spec(query).drop_first().contains(split_spec(query, ' ')[j]),
{
    let pieces = split_spec(query, ' ');
    lemma_split_nonempty(query, ' ');
    let later = pieces.drop_first();
    lemma_long_pieces(later);
    let terms = search_terms_spec(query);
    assert(terms.drop_first() =~= long_pieces(later));
    assert forall|k: int| 1 <= k < terms.len() implies (#[trigger] terms[k]).len() > 2 by {
        assert(terms[k] == long_pieces(later)[k - 1]);
    }
    assert forall|k: int| 1 <= k < terms.len() implies later.contains(#[trigger] terms[k]) by {
        assert(terms[k] == long_pieces(later)[k - 1]);
    }
    assert forall|j: int| 1 <= j < pieces.len() && (#[trigger] pieces[j]).len() > 2 implies terms.drop_first().contains(
        pieces[j],
    ) by {
        assert(later[j - 1] == pieces[j]);
    }
}

/// No search term holds a space: the query is cut at every space.
pub proof fn law_search_terms_have_no_spaces(query: Seq<char>)
    ensures
        forall|k: int, j: int|
            0 <= k < search_terms_spec(query).len() && 0 <= j < search_terms_spec(query)[k].len()
                ==> #[trigger] search_terms_spec(query)[k][j] != ' ',
{
    law_split_at_every_separator(query, ' ');
    law_search_terms(query);
    let pieces = split_spec(query, ' ');
    let terms = search_terms_spec(query);
    assert forall|k: int, j: int| 0 <= k < terms.len() && 0 <= j < terms[k].len() implies #[trigger] terms[k][j]
        != ' ' by {
        if k == 0 {
            assert(terms[0] == pieces[0]);
        } else {
            assert(pieces.drop_first().contains(terms[k]));
            let m = choose|m: int| 0 <= m < pieces.drop_first().len() && pieces.drop_first()[m] == terms[k];
            assert(pieces.drop_first()[m] == pieces[m + 1]);
        }
    }
}

/// The search SQL, spelled out: the first term's condition opens the query,
/// every later term adds a condition joined with `AND`, so a verse is found
/// only when each term starts one of its words; a semicolon ends the query.
pub proof fn law_search_sql_text(terms: nat)
    ensures
        conditions_sql(0) == "\n    SELECT * FROM words WHERE (book_number, chapter_number, verse_number) IN (SELECT book_number, chapter_number, verse_number FROM words WHERE word LIKE CONCAT("@
            + "?, '%')) "@,
        conditions_sql(terms + 1) == conditions_sql(terms)
            + "AND (book_number, chapter_number, verse_number) IN (SELECT book_number, chapter_number, verse_number FROM words WHERE word LIKE CONCAT("@
            + "?,'%')) "@,
        terms >= 1 ==> search_sql(terms) == conditions_sql((terms - 1) as nat) + ";"@,
{
    reveal_strlit("?, '%')) ");
    reveal_strlit(", '%')) ");
    reveal_strlit("?,'%')) ");
    reveal_strlit(",'%')) ");
    let h = "\n    SELECT * FROM words WHERE (book_number, chapter_number, verse_number) IN (SELECT book_number, chapter_number, verse_number FROM words WHERE word LIKE CONCAT("@;
    let a = "AND (book_number, chapter_number, verse_number) IN (SELECT book_number, chapter_number, verse_number FROM words WHERE word LIKE CONCAT("@;
    assert(h + seq!['?'] + first_close_sql() =~= h + "?, '%')) "@);
    assert(conditions_sql(terms + 1) == conditions_sql(terms) + a + seq!['?'] + later_close_sql());
    assert(conditions_sql(terms) + a + seq!['?'] + later_close_sql() =~= conditions_sql(terms) + a
        + "?,'%')) "@);
}

proof fn lemma_conditions_placeholders(extra: nat)
    ensures
        count_char(conditions_sql(extra), '?') == extra + 1,
    decreases extra,
{
    reveal_strlit("\n    SELECT * FROM words WHERE (book_number, chapter_number, verse_number) IN (SELECT book_number, chapter_number, verse_number FROM words WHERE word LIKE CONCAT(");
    reveal_strlit(", '%')) ");
    reveal_strlit("AND (book_number, chapter_number, verse_number) IN (SELECT book_number, chapter_number, verse_number FROM words WHERE word LIKE CONCAT(");
    reveal_strlit(",'%')) ");
    lemma_count_char_absent(head_sql(), '?');
    lemma_count_char_absent(first_close_sql(), '?');
    lemma_count_char_absent(and_sql(), '?');
    lemma_count_char_absent(later_close_sql(), '?');
    assert(count_char(seq!['?'], '?') == 1) by {
        assert(seq!['?'].drop_last() =~= Seq::<char>::empty());
        assert(count_char(Seq::<char>::empty(), '?') == 0);
        assert(seq!['?'].last() == '?');
    }
    if extra == 0 {
        lemma_count_char_concat(head_sql(), seq!['?'], '?');
        lemma_count_char_concat(head_sql() + seq!['?'], first_close_sql(), '?');
    } else {
        let prev = conditions_sql((extra - 1) as nat);
        lemma_conditions_placeholders((extra - 1) as nat);
        lemma_count_char_concat(prev, and_sql(), '?');
        lemma_count_char_concat(prev + and_sql(), seq!['?'], '?');
        lemma_count_char_concat(prev + and_sql() + seq!['?'], later_close_sql(), '?');
    }
}

/// The search query has one placeholder for each search term, so every
/// term is bound to a condition of its own.
pub proof fn law_one_placeholder_per_term(query: Seq<char>)
    ensures
        count_char(search_sql(search_terms_spec(query).len()), '?') == search_terms_spec(
            query,
        ).len(),
{
    let n = search_terms_spec(query).len();
    assert(n >= 1);
    lemma_conditions_placeholders((n - 1) as nat);
    reveal_strlit(";");
    lemma_count_char_absent(";"@, '?');
    lemma_count_char_concat(conditions_sql((n - 1) as nat), ";"@, '?');
}

// ---------------------------------------------------------------------------
// Grouping the words found into verses

/// The words of `groups`, group after group.
pub open spec fn flatten_groups(groups: Seq<((i32, i32, i32), Vec<Word>)>) -> Seq<Word>
    decreases groups.len(),
{
    if groups.len() == 0 {
        seq![]
    } else {
        flatten_groups(groups.drop_last()) + groups.last().1@
    }
}

/// `groups` splits `words` into runs of consecutive words of the same
/// verse: read in order the groups give back `words`; no group is empty;
/// every word of a group has the group's key; neighbouring groups have
/// different keys.
pub open spec fn is_verse_grouping(
    words: Seq<Word>,
    groups: Seq<((i32, i32, i32), Vec<Word>)>,
) -> bool {
    &&& flatten_groups(groups) == words
    &&& forall|i: int| 0 <= i < groups.len() ==> (#[trigger] groups[i]).1@.len() > 0
    &&& forall|i: int, j: int|
        0 <= i < groups.len() && 0 <= j < groups[i].1@.len() ==> (
        #[trigger] groups[i].1@[j]).verse_key_spec() == groups[i].0
    &&& forall|i: int, j: int|
        0 <= i && j == i + 1 && j < groups.len() ==> #[trigger] groups[i].0 != #[trigger] groups[j].0
}

/// `Itertools::chunk_by` keyed by the verse, with each group collected:
/// the runs of consecutive words that have the same verse key, each with
/// that key, in order.
#[verifier::external_body]
fn chunk_by_verse(words: Vec<Word>) -> (groups: Vec<((i32, i32, i32), Vec<Word>)>)
    ensures
        is_verse_grouping(words@, groups@),
{
    let mut groups = Vec::new();
    for (key, chunk) in &words.into_iter().chunk_by(|w: &Word| w.verse_key()) {
        groups.push((key, chunk.collect()));
    }
    groups
}

/// The words found by a search, grouped into the verses they belong to,
/// in the order in which they were found.
pub fn group_by_verse(words: Vec<Word>) -> (groups: Vec<((i32, i32, i32), Vec<Word>)>)
    ensures
        is_verse_grouping(words@, groups@),
{
    chunk_by_verse(words)
}

/// The number of words at the end of `words` that belong to the verse of
/// the last word, counted back to the first word of another verse.
pub open spec fn last_run_len(words: Seq<Word>) -> nat
    decreases words.len(),
{
    if words.len() == 0 {
        0
    } else if words.len() >= 2 && words[words.len() - 2].verse_key_spec()
        == words.last().verse_key_spec() {
        1 + last_run_len(words.drop_last())
    } else {
        1
    }
}

proof fn lemma_last_run(a: Seq<Word>, l: Seq<Word>, key: (i32, i32, i32))
    requires
        l.len() > 0,
        forall|j: int| 0 <= j < l.len() ==> (#[trigger] l[j]).verse_key_spec() == key,
        a.len() > 0 ==> a.last().verse_key_spec() != key,
    ensures
        last_run_len(a + l) == l.len(),
    decreases l.len(),
{
    let s = a + l;
    assert(s.last() == l.last());
    assert(l[l.len() - 1] == l.last());
    if l.len() == 1 {
        if a.len() > 0 {
            assert(s[s.len() - 2] == a.last());
        }
    } else {
        assert(s[s.len() - 2] == l[l.len() - 2]);
        assert(s.drop_last() =~= a + l.drop_last());
        assert forall|j: int| 0 <= j < l.drop_last().len() implies (
        #[trigger] l.drop_last()[j]).verse_key_spec() == key by {
            assert(l.drop_last()[j] == l[j]);
        }
        lemma_last_run(a, l.drop_last(), key);
    }
}

proof fn lemma_flatten_groups(groups: Seq<((i32, i32, i32), Vec<Word>)>)
    requires
        forall|i: int| 0 <= i < groups.len() ==> (#[trigger] groups[i]).1@.len() > 0,
    ensures
        groups.len() == 0 <==> flatten_groups(groups).len() == 0,
        groups.len() > 0 ==> flatten_groups(groups).last() == groups.last().1@.last(),
    decreases groups.len(),
{
    if groups.len() > 0 {
        assert(groups[groups.len() - 1] == groups.last());
        assert forall|i: int| 0 <= i < groups.drop_last().len() implies (
        #[trigger] groups.drop_last()[i]).1@.len() > 0 by {
            assert(groups.drop_last()[i] == groups[i]);
        }
        lemma_flatten_groups(groups.drop_last());
    }
}

proof fn lemma_grouping_drop_last(words: Seq<Word>, groups: Seq<((i32, i32, i32), Vec<Word>)>)
    requires
        is_verse_grouping(words, groups),
        groups.len() > 0,
    ensures
        is_verse_grouping(flatten_groups(groups.drop_last()), groups.drop_last()),
        words == flatten_groups(groups.drop_last()) + groups.last().1@,
        last_run_len(words) == groups.last().1@.len(),
        groups.last().1@.len() > 0,
        groups.last().1@[0].verse_key_spec() == groups.last().0,
{
    let n = groups.len();
    let init = groups.drop_last();
    let a = flatten_groups(init);
    let l = groups.last().1@;
    assert(groups[n - 1] == groups.last());
    assert forall|i: int| 0 <= i < init.len() implies (#[trigger] init[i]).1@.len() > 0 by {
        assert(init[i] == groups[i]);
    }
    assert forall|i: int, j: int| 0 <= i < init.len() && 0 <= j < init[i].1@.len() implies (
    #[trigger] init[i].1@[j]).verse_key_spec() == init[i].0 by {
        assert(init[i] == groups[i]);
    }
    assert forall|i: int, j: int| 0 <= i && j == i + 1 && j < init.len() implies #[trigger] init[i].0
        != #[trigger] init[j].0 by {
        assert(init[i] == groups[i]);
        assert(init[j] == groups[j]);
    }
    lemma_flatten_groups(init);
    assert forall|j: int| 0 <= j < l.len() implies (#[trigger] l[j]).verse_key_spec()
        == groups.last().0 by {
        assert(groups[n - 1].1@[j] == l[j]);
    }
    if a.len() > 0 {
        assert(init[n - 2] == groups[n - 2]);
        assert(init.last() == init[n - 2]);
        let g = init.last().1@;
        assert(g[g.len() - 1] == g.last());
        assert(groups[n - 2].0 != groups[n - 1].0);
    }
    lemma_last_run(a, l, groups.last().0);
}

/// The grouping of a list of words into verses is unique: any two
/// groupings of the same words have the same verse keys and the same words
/// in each group.
pub proof fn law_verse_grouping_unique(
    words: Seq<Word>,
    g1: Seq<((i32, i32, i32), Vec<Word>)>,
    g2: Seq<((i32, i32, i32), Vec<Word>)>,
)
    requires
        is_verse_grouping(words, g1),
        is_verse_grouping(words, g2),
    ensures
        g1.len() == g2.len(),
        forall|i: int| 0 <= i < g1.len() ==> #[trigger] g1[i].0 == g2[i].0 && g1[i].1@ == g2[i].1@,
    decreases words.len(),
{
    lemma_flatten_groups(g1);
    lemma_flatten_groups(g2);
    if g1.len() > 0 && g2.len() > 0 {
        lemma_grouping_drop_last(words, g1);
        lemma_grouping_drop_last(words, g2);
        let r = last_run_len(words);
        let a1 = flatten_groups(g1.drop_last());
        let a2 = flatten_groups(g2.drop_last());
        let l1 = g1.last().1@;
        let l2 = g2.last().1@;
        assert(l1 =~= words.subrange(words.len() - r, words.len() as int));
        assert(l2 =~= words.subrange(words.len() - r, words.len() as int));
        assert(a1 =~= words.subrange(0, words.len() - r));
        assert(a2 =~= a1);
        assert(l1[0] == l2[0]);
        law_verse_grouping_unique(a1, g1.drop_last(), g2.drop_last());
        assert forall|i: int| 0 <= i < g1.len() implies #[trigger] g1[i].0 == g2[i].0 && g1[i].1@
            == g2[i].1@ by {
            if i < g1.len() - 1 {
                assert(g1.drop_last()[i] == g1[i]);
                assert(g2.drop_last()[i] == g2[i]);
            } else {
                assert(g1[i] == g1.last());
                assert(g2[i] == g2.last());
            }
        }
    }
}

// ---------------------------------------------------------------------------
// Naming the verses found

/// A book of the text, as listed in the `books` table.
pub struct Book {
    pub book_color: String,
    pub book_number: u16,
    pub short_name: String,
    pub long_name: String,
}

/// The book number of each verse group, in order: the books whose short
/// names are to be looked up for the groups.
pub fn book_numbers(groups: &Vec<((i32, i32, i32), Vec<Word>)>) -> (res: Vec<i32>)
    ensures
        res@.len() == groups@.len(),
        forall|i: int| 0 <= i < res@.len() ==> #[trigger] res@[i] == groups@[i].0.0,
{
    let mut res: Vec<i32> = Vec::new();
    let mut i: usize = 0;
    while i < groups.len()
        invariant
            i <= groups@.len(),
            res@.len() == i,
            forall|k: int| 0 <= k < i ==> #[trigger] res@[k] == groups@[k].0.0,
        decreases groups.len() - i,
    {
        res.push(groups[i].0.0);
        i += 1;
    }
    res
}

/// A verse found, keyed by the short name of its book and its book,
/// chapter and verse number.
pub open spec fn named_verse(
    group: ((i32, i32, i32), Vec<Word>),
    book: String,
) -> ((String, i32, i32, i32), Vec<Word>) {
    ((book, group.0.0, group.0.1, group.0.2), group.1)
}

/// Pairs each verse group with the short name of its book, in order; where
/// one list is longer, its surplus is left out.
pub fn attach_book_names(
    groups: Vec<((i32, i32, i32), Vec<Word>)>,
    book_names: Vec<String>,
) -> (res: Vec<((String, i32, i32, i32), Vec<Word>)>)
    ensures
        res@.len() == if groups@.len() <= book_names@.len() {
            groups@.len()
        } else {
            book_names@.len()
        },
        forall|i: int|
            0 <= i < res@.len() ==> #[trigger] res@[i] == named_verse(groups@[i], book_names@[i]),
        forall|i: int|
            0 <= i < res@.len() ==> {
                &&& (#[trigger] res@[i]).0.0 == book_names@[i]
                &&& res@[i].0.1 == groups@[i].0.0
                &&& res@[i].0.2 == groups@[i].0.1
                &&& res@[i].0.3 == groups@[i].0.2
                &&& res@[i].1 == groups@[i].1
            },
{
    let ghost g0 = groups@;
    let ghost n0 = book_names@;
    let mut groups = groups;
    let mut book_names = book_names;
    let m = if groups.len() <= book_names.len() {
        groups.len()
    } else {
        book_names.len()
    };
    groups.truncate(m);
    book_names.truncate(m);
    let mut reversed: Vec<((String, i32, i32, i32), Vec<Word>)> = Vec::new();
    while groups.len() > 0
        invariant
            m <= g0.len(),
            m <= n0.len(),
            groups@.len() == book_names@.len() <= m,
            groups@ == g0.subrange(0, groups@.len() as int),
            book_names@ == n0.subrange(0, book_names@.len() as int),
            reversed@.len() == m - groups@.len(),
            forall|j: int|
                0 <= j < reversed@.len() ==> #[trigger] reversed@[j] == named_verse(
                    g0[m - 1 - j],
                    n0[m - 1 - j],
                ),
        decreases groups@.len(),
    {
        let k = groups.len();
        let group = groups.pop().unwrap();
        let book = book_names.pop().unwrap();
        assert(group == g0[k - 1]);
        assert(book == n0[k - 1]);
        reversed.push(((book, group.0.0, group.0.1, group.0.2), group.1));
        assert(groups@ =~= g0.subrange(0, groups@.len() as int));
        assert(book_names@ =~= n0.subrange(0, book_names@.len() as int));
    }
    let mut res: Vec<((String, i32, i32, i32), Vec<Word>)> = Vec::new();
    while reversed.len() > 0
        invariant
            m <= g0.len(),
            m <= n0.len(),
            reversed@.len() + res@.len() == m,
            forall|j: int|
                0 <= j < reversed@.len() ==> #[trigger] reversed@[j] == named_verse(
                    g0[m - 1 - j],
                    n0[m - 1 - j],
                ),
            forall|j: int|
                0 <= j < res@.len() ==> #[trigger] res@[j] == named_verse(g0[j], n0[j]),
        decreases reversed@.len(),
    {
        let item = reversed.pop().unwrap();
        res.push(item);
    }
    res
}

} // verus!
