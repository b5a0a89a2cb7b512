//! Character-level helpers shared by the rendering and search code:
//! Unicode white space, trimming, splitting on a separator and
//! conversions between `String` and `Vec<char>`.
use vstd::prelude::*;

verus! {

/// The Unicode `White_Space` property, the set that `char::is_whitespace`
/// and `str::trim` use.
pub open spec fn is_white_space(c: char) -> bool {
    let u = c as u32;
    ||| 0x09 <= u <= 0x0d
    ||| u == 0x20
    ||| u == 0x85
    ||| u == 0xa0
    ||| u == 0x1680
    ||| 0x2000 <= u <= 0x200a
    ||| u == 0x2028
    ||| u == 0x2029
    ||| u == 0x202f
    ||| u == 0x205f
    ||| u == 0x3000
}

/// `s` without its leading white space.
pub open spec fn trim_start_spec(s: Seq<char>) -> Seq<char>
    decreases s.len(),
{
    if s.len() > 0 && is_white_space(s[0]) {
        trim_start_spec(s.drop_first())
    } else {
        s
    }
}

/// `s` without its trailing white space.
pub open spec fn trim_end_spec(s: Seq<char>) -> Seq<char>
    decreases s.len(),
{
    if s.len() > 0 && is_white_space(s.last()) {
        trim_end_spec(s.drop_last())
    } else {
        s
    }
}

/// `s` without leading and trailing white space, as `str::trim` gives it.
pub open spec fn trim_spec(s: Seq<char>) -> Seq<char> {
    trim_end_spec(trim_start_spec(s))
}

/// Whether every character of `s` is white space.
pub open spec fn all_white_space(s: Seq<char>) -> bool {
    forall|k: int| 0 <= k < s.len() ==> is_white_space(#[trigger] s[k])
}

/// Trimming the end leaves a prefix of `s` that is empty or ends in a
/// character that is not white space.
pub proof fn lemma_trim_end_prefix(s: Seq<char>)
    ensures
        trim_end_spec(s).len() <= s.len(),
        trim_end_spec(s) == s.subrange(0, trim_end_spec(s).len() as int),
        trim_end_spec(s).len() > 0 ==> !is_white_space(trim_end_spec(s).last()),
    decreases s.len(),
{
    if s.len() > 0 && is_white_space(s.last()) {
        lemma_trim_end_prefix(s.drop_last());
        assert(s.drop_last().subrange(0, trim_end_spec(s).len() as int) =~= s.subrange(
            0,
            trim_end_spec(s).len() as int,
        ));
    } else {
        assert(s.subrange(0, s.len() as int) =~= s);
    }
}

/// Trimming the start leaves a suffix of `s` that is empty or begins with a
/// character that is not white space.
pub proof fn lemma_trim_start_suffix(s: Seq<char>)
    ensures
        trim_start_spec(s).len() <= s.len(),
        trim_start_spec(s) == s.subrange(s.len() - trim_start_spec(s).len(), s.len() as int),
        trim_start_spec(s).len() > 0 ==> !is_white_space(trim_start_spec(s)[0]),
        trim_start_spec(s).len() == 0 ==> all_white_space(s),
    decreases s.len(),
{
    if s.len() > 0 && is_white_space(s[0]) {
        lemma_trim_start_suffix(s.drop_first());
        let t = trim_start_spec(s);
        assert(s.drop_first().subrange(s.drop_first().len() - t.len(), s.drop_first().len() as int)
            =~= s.subrange(s.len() - t.len(), s.len() as int));
        if t.len() == 0 {
            assert forall|k: int| 0 <= k < s.len() implies is_white_space(#[trigger] s[k]) by {
                if k > 0 {
                    assert(s[k] == s.drop_first()[k - 1]);
                }
            }
        }
    } else {
        assert(s.subrange(0, s.len() as int) =~= s);
    }
}

/// Trimmed text neither begins nor ends with white space.
pub proof fn law_trim_has_no_outer_white_space(s: Seq<char>)
    ensures
        trim_spec(s).len() > 0 ==> !is_white_space(trim_spec(s)[0]) && !is_white_space(
            trim_spec(s).last(),
        ),
{
    let t = trim_start_spec(s);
    lemma_trim_start_suffix(s);
    lemma_trim_end_prefix(t);
    let r = trim_end_spec(t);
    if r.len() > 0 {
        assert(r[0] == t[0]);
    }
}

/// White space added at the end of text does not change the end of its
/// start-trimmed form, unless the text was all white space.
proof fn lemma_trim_start_append(s: Seq<char>, t: Seq<char>)
    requires
        all_white_space(t),
    ensures
        trim_start_spec(s).len() > 0 ==> trim_start_spec(s + t) == trim_start_spec(s) + t,
        trim_start_spec(s).len() == 0 ==> trim_start_spec(s + t).len() == 0,
    decreases s.len(),
{
    if s.len() > 0 && is_white_space(s[0]) {
        assert((s + t).drop_first() =~= s.drop_first() + t);
        lemma_trim_start_append(s.drop_first(), t);
    } else if s.len() == 0 {
        assert(s + t =~= t);
        lemma_trim_all_white(t);
    } else {
        assert((s + t)[0] == s[0]);
    }
}

/// Text made only of white space trims to nothing from the start.
proof fn lemma_trim_all_white(t: Seq<char>)
    requires
        all_white_space(t),
    ensures
        trim_start_spec(t).len() == 0,
    decreases t.len(),
{
    if t.len() > 0 {
        assert forall|k: int| 0 <= k < t.drop_first().len() implies is_white_space(
            #[trigger] t.drop_first()[k],
        ) by {
            assert(t.drop_first()[k] == t[k + 1]);
        }
        lemma_trim_all_white(t.drop_first());
    }
}

/// Trailing white space is removed at the end of trimming.
proof fn lemma_trim_end_append(s: Seq<char>, t: Seq<char>)
    requires
        all_white_space(t),
    ensures
        trim_end_spec(s + t) == trim_end_spec(s),
    decreases t.len(),
{
    if t.len() > 0 {
        assert((s + t).drop_last() =~= s + t.drop_last());
        assert((s + t).last() == t.last());
        assert forall|k: int| 0 <= k < t.drop_last().len() implies is_white_space(
            #[trigger] t.drop_last()[k],
        ) by {
            assert(t.drop_last()[k] == t[k]);
        }
        lemma_trim_end_append(s, t.drop_last());
    } else {
        assert(s + t =~= s);
    }
}

/// White space added at the end of text does not change its trimmed form.
pub proof fn law_trim_ignores_trailing_white_space(s: Seq<char>, t: Seq<char>)
    requires
        all_white_space(t),
    ensures
        trim_spec(s + t) == trim_spec(s),
{
    lemma_trim_start_append(s, t);
    if trim_start_spec(s).len() > 0 {
        lemma_trim_end_append(trim_start_spec(s), t);
    } else {
        assert(trim_start_spec(s + t) =~= trim_start_spec(s));
    }
}

/// The number of occurrences of `c` in `s`.
pub open spec fn count_char(s: Seq<char>, c: char) -> nat
    decreases s.len(),
{
    if s.len() == 0 {
        0
    } else {
        count_char(s.drop_last(), c) + if s.last() == c {
            1nat
        } else {
            0nat
        }
    }
}

/// Occurrences in a concatenation add up.
pub proof fn lemma_count_char_concat(a: Seq<char>, b: Seq<char>, c: char)
    ensures
        count_char(a + b, c) == count_char(a, c) + count_char(b, c),
    decreases b.len(),
{
    if b.len() == 0 {
        assert(a + b =~= a);
    } else {
        assert((a + b).drop_last() =~= a + b.drop_last());
        lemma_count_char_concat(a, b.drop_last(), c);
    }
}

/// A character that does not occur is counted zero times.
pub proof fn lemma_count_char_absent(s: Seq<char>, c: char)
    requires
        forall|k: int| 0 <= k < s.len() ==> #[trigger] s[k] != c,
    ensures
        count_char(s, c) == 0,
    decreases s.len(),
{
    if s.len() > 0 {
        assert forall|k: int| 0 <= k < s.drop_last().len() implies #[trigger] s.drop_last()[k]
            != c by {
            assert(s.drop_last()[k] == s[k]);
        }
        lemma_count_char_absent(s.drop_last(), c);
    }
}

proof fn lemma_trim_end_keeps(s: Seq<char>, k: int)
    requires
        0 < k <= s.len(),
        !is_white_space(s[k - 1]),
    ensures
        trim_end_spec(s).len() >= k,
    decreases s.len(),
{
    if s.len() > k {
        assert(s.drop_last()[k - 1] == s[k - 1]);
        lemma_trim_end_keeps(s.drop_last(), k);
    } else {
        assert(s.last() == s[k - 1]);
    }
}

/// Trimming keeps a front part of the text that begins and ends with
/// characters that are not white space.
pub proof fn law_trim_keeps_front(s: Seq<char>, k: int)
    requires
        0 < k <= s.len(),
        !is_white_space(s[0]),
        !is_white_space(s[k - 1]),
    ensures
        trim_spec(s).len() >= k,
        trim_spec(s).subrange(0, k) == s.subrange(0, k),
{
    assert(trim_start_spec(s) == s);
    lemma_trim_end_keeps(s, k);
    lemma_trim_end_prefix(s);
    let t = trim_end_spec(s);
    assert(t.subrange(0, k) =~= s.subrange(0, k));
}

/// Whether `c` is white space.
pub fn is_white_space_char(c: char) -> (res: bool)
    ensures
        res == is_white_space(c),
{
    let u = c as u32;
    (0x09 <= u && u <= 0x0d) || u == 0x20 || u == 0x85 || u == 0xa0 || u == 0x1680 || (0x2000
        <= u && u <= 0x200a) || u == 0x2028 || u == 0x2029 || u == 0x202f || u == 0x205f || u
        == 0x3000
}

proof fn lemma_trim_start_skip(s: Seq<char>, i: int)
    requires
        0 <= i <= s.len(),
        forall|k: int| 0 <= k < i ==> is_white_space(#[trigger] s[k]),
    ensures
        trim_start_spec(s) == trim_start_spec(s.subrange(i, s.len() as int)),
    decreases i,
{
    if i > 0 {
        assert(s.drop_first() =~= s.subrange(1, s.len() as int));
        lemma_trim_start_skip(s.drop_first(), i - 1);
        assert(s.drop_first().subrange(i - 1, s.drop_first().len() as int) =~= s.subrange(
            i,
            s.len() as int,
        ));
    } else {
        assert(s.subrange(0, s.len() as int) =~= s);
    }
}

proof fn lemma_trim_end_skip(s: Seq<char>, j: int)
    requires
        0 <= j <= s.len(),
        forall|k: int| j <= k < s.len() ==> is_white_space(#[trigger] s[k]),
    ensures
        trim_end_spec(s) == trim_end_spec(s.subrange(0, j)),
    decreases s.len() - j,
{
    if j < s.len() {
        assert(s.drop_last() =~= s.subrange(0, s.len() - 1));
        lemma_trim_end_skip(s.drop_last(), j);
        assert(s.drop_last().subrange(0, j) =~= s.subrange(0, j));
    } else {
        assert(s.subrange(0, j) =~= s);
    }
}

/// The characters of `s` from index `i` up to `j`, as a `String`.
fn string_from_range(s: &Vec<char>, i: usize, j: usize) -> (res: String)
    requires
        i <= j <= s.len(),
    ensures
        res@ == s@.subrange(i as int, j as int),
{
    let mut res = String::new();
    let mut k = i;
    while k < j
        invariant
            i <= k <= j <= s.len(),
            res@ == s@.subrange(i as int, k as int),
        decreases j - k,
    {
        push_char(&mut res, s[k]);
        k += 1;
        assert(res@ =~= s@.subrange(i as int, k as int));
    }
    res
}

/// The characters of `s`, trimmed of leading and trailing white space, as a `String`.
pub fn trimmed_string(s: &Vec<char>) -> (res: String)
    ensures
        res@ == trim_spec(s@),
{
    let n = s.len();
    let mut i: usize = 0;
    while i < n && is_white_space_char(s[i])
        invariant
            i <= n == s.len(),
            forall|k: int| 0 <= k < i ==> is_white_space(#[trigger] s@[k]),
        decreases n - i,
    {
        i += 1;
    }
    proof {
        lemma_trim_start_skip(s@, i as int);
    }
    let ghost rest = s@.subrange(i as int, n as int);
    assert(trim_start_spec(rest) == rest);
    let mut j: usize = n;
    while j > i && is_white_space_char(s[j - 1])
        invariant
            i <= j <= n == s.len(),
            forall|k: int| j <= k < n ==> is_white_space(#[trigger] s@[k]),
        decreases j,
    {
        j -= 1;
    }
    proof {
        assert forall|k: int| j - i <= k < rest.len() implies is_white_space(#[trigger] rest[k]) by {
            assert(rest[k] == s@[i + k]);
        }
        lemma_trim_end_skip(rest, j - i);
        assert(rest.subrange(0, j - i) =~= s@.subrange(i as int, j as int));
        let r = s@.subrange(i as int, j as int);
        if r.len() > 0 {
            assert(r.last() == s@[j - 1]);
        }
        assert(trim_end_spec(r) == r);
    }
    string_from_range(s, i, j)
}

/// The characters of `s`.
pub fn chars_of(s: &str) -> (res: Vec<char>)
    ensures
        res@ == s@,
{
    let mut res: Vec<char> = Vec::new();
    let n = s.unicode_len();
    let mut i: usize = 0;
    while i < n
        invariant
            i <= n == s@.len(),
            res@ == s@.subrange(0, i as int),
        decreases n - i,
    {
        res.push(s.get_char(i));
        i += 1;
        assert(res@ =~= s@.subrange(0, i as int));
    }
    assert(s@.subrange(0, n as int) =~= s@);
    res
}

/// The pieces of `s` between occurrences of `sep`, in order; empty pieces
/// included, as `str::split` with a `char` pattern yields them.
pub open spec fn split_spec(s: Seq<char>, sep: char) -> Seq<Seq<char>>
    decreases s.len(),
{
    if s.len() == 0 {
        seq![seq![]]
    } else {
        let rest = split_spec(s.drop_last(), sep);
        if s.last() == sep {
            rest.push(seq![])
        } else {
            rest.update(rest.len() - 1, rest.last().push(s.last()))
        }
    }
}

pub proof fn lemma_split_nonempty(s: Seq<char>, sep: char)
    ensures
        split_spec(s, sep).len() >= 1,
    decreases s.len(),
{
    if s.len() > 0 {
        lemma_split_nonempty(s.drop_last(), sep);
    }
}

/// The pieces joined back together with `sep` between neighbours.
pub open spec fn join_spec(pieces: Seq<Seq<char>>, sep: char) -> Seq<char>
    decreases pieces.len(),
{
    if pieces.len() == 0 {
        seq![]
    } else if pieces.len() == 1 {
        pieces[0]
    } else {
        join_spec(pieces.drop_last(), sep) + seq![sep] + pieces.last()
    }
}

/// Splitting at `sep` cuts `s` exactly at its `sep` characters: no piece
/// holds `sep`, and the pieces joined with `sep` between them give back `s`.
pub proof fn law_split_at_every_separator(s: Seq<char>, sep: char)
    ensures
        split_spec(s, sep).len() >= 1,
        forall|k: int, j: int|
            0 <= k < split_spec(s, sep).len() && 0 <= j < split_spec(s, sep)[k].len()
                ==> #[trigger] split_spec(s, sep)[k][j] != sep,
        join_spec(split_spec(s, sep), sep) == s,
    decreases s.len(),
{
    if s.len() == 0 {
        assert(split_spec(s, sep) =~= seq![seq![]]);
        assert(s =~= Seq::<char>::empty());
    } else {
        let init = s.drop_last();
        law_split_at_every_separator(init, sep);
        let rest = split_spec(init, sep);
        let n = rest.len();
        let c = s.last();
        let res = split_spec(s, sep);
        if c == sep {
            assert(res == rest.push(seq![]));
            assert(res.drop_last() =~= rest);
            assert(join_spec(res, sep) =~= s);
            assert forall|k: int, j: int| 0 <= k < res.len() && 0 <= j < res[k].len() implies #[trigger] res[k][j]
                != sep by {
                if k < n {
                    assert(res[k] == rest[k]);
                }
            }
        } else {
            let piece = rest.last().push(c);
            assert(res == rest.update(n - 1, piece));
            assert forall|k: int, j: int| 0 <= k < res.len() && 0 <= j < res[k].len() implies #[trigger] res[k][j]
                != sep by {
                if k < n - 1 {
                    assert(res[k] == rest[k]);
                } else {
                    assert(rest.last() == rest[n - 1]);
                    if j < rest.last().len() {
                        assert(res[k][j] == rest[n - 1][j]);
                    }
                }
            }
            if n == 1 {
                assert(join_spec(rest, sep) == rest[0]);
                assert(join_spec(res, sep) == res[0]);
                assert(join_spec(res, sep) =~= s);
            } else {
                assert(res.drop_last() =~= rest.drop_last());
                assert(join_spec(res, sep) == join_spec(rest.drop_last(), sep) + seq![sep] + piece);
                assert(join_spec(rest, sep) == join_spec(rest.drop_last(), sep) + seq![sep]
                    + rest.last());
                assert(join_spec(res, sep) =~= join_spec(rest, sep).push(c));
                assert(s =~= init.push(c));
            }
        }
    }
}

/// Splits `s` at each `sep` character.
pub fn split_chars(s: &str, sep: char) -> (res: Vec<String>)
    ensures
        res@.len() == split_spec(s@, sep).len(),
        forall|k: int| 0 <= k < res@.len() ==> #[trigger] res@[k]@ == split_spec(s@, sep)[k],
{
    let cs = chars_of(s);
    let n = cs.len();
    let mut done: Vec<String> = Vec::new();
    let mut cur = String::new();
    let mut i: usize = 0;
    while i < n
        invariant
            i <= n == cs@.len(),
            cs@ == s@,
            done@.len() + 1 == split_spec(cs@.subrange(0, i as int), sep).len(),
            forall|k: int|
                0 <= k < done@.len() ==> #[trigger] done@[k]@ == split_spec(
                    cs@.subrange(0, i as int),
                    sep,
                )[k],
            cur@ == split_spec(cs@.subrange(0, i as int), sep).last(),
        decreases n - i,
    {
        let c = cs[i];
        let ghost prev = cs@.subrange(0, i as int);
        assert(cs@.subrange(0, i + 1).drop_last() =~= prev);
        proof {
            lemma_split_nonempty(prev, sep);
        }
        if c == sep {
            let piece = cur;
            done.push(piece);
            cur = String::new();
        } else {
            push_char(&mut cur, c);
        }
        i += 1;
    }
    done.push(cur);
    assert(cs@.subrange(0, n as int) =~= s@);
    done
}

/// Appends `c` to `s` (`String::push`).
#[verifier::external_body]
pub(crate) fn push_char(s: &mut String, c: char)
    ensures
        final(s)@ == old(s)@.push(c),
{
    s.push(c)
}

} // verus!
