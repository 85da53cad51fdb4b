//! Character-level text primitives with their mathematical meaning.
//!
//! Strings are modelled by their view, a `Seq<char>`. Each executable
//! function here works on a `Vec<char>` (or a range of one) and is proved
//! to compute the spec function of the same name: trimming by the Unicode
//! `White_Space` property, splitting into lines the way `str::lines` does,
//! joining lines with `'\n'`, and finding a character.
use vstd::prelude::*;
use vstd::utf8::is_ascii_chars;

verus! {

// ---------------------------------------------------------------------------
// Whitespace
// ---------------------------------------------------------------------------

/// The characters with the Unicode `White_Space` property, which is what
/// `char::is_whitespace` (and so `str::trim`) tests.
pub open spec fn is_space(c: char) -> bool {
    ||| ('\u{9}' <= c && c <= '\u{d}')
    ||| c == ' '
    ||| c == '\u{85}'
    ||| c == '\u{a0}'
    ||| c == '\u{1680}'
    ||| ('\u{2000}' <= c && c <= '\u{200a}')
    ||| c == '\u{2028}'
    ||| c == '\u{2029}'
    ||| c == '\u{202f}'
    ||| c == '\u{205f}'
    ||| c == '\u{3000}'
}

pub fn is_space_char(c: char) -> (r: bool)
    ensures
        r == is_space(c),
{
    ('\u{9}' <= c && c <= '\u{d}') || c == ' ' || c == '\u{85}' || c == '\u{a0}' || c
        == '\u{1680}' || ('\u{2000}' <= c && c <= '\u{200a}') || c == '\u{2028}' || c
        == '\u{2029}' || c == '\u{202f}' || c == '\u{205f}' || c == '\u{3000}'
}

// ---------------------------------------------------------------------------
// Trimming
// ---------------------------------------------------------------------------

/// `s` without its leading whitespace.
pub open spec fn trim_start(s: Seq<char>) -> Seq<char>
    decreases s.len(),
{
    if s.len() > 0 && is_space(s[0]) {
        trim_start(s.drop_first())
    } else {
        s
    }
}

/// `s` without its trailing whitespace (`str::trim_end`).
pub open spec fn trim_end(s: Seq<char>) -> Seq<char>
    decreases s.len(),
{
    if s.len() > 0 && is_space(s.last()) {
        trim_end(s.drop_last())
    } else {
        s
    }
}

/// `s` without leading and trailing whitespace (`str::trim`).
pub open spec fn trim(s: Seq<char>) -> Seq<char> {
    trim_end(trim_start(s))
}

/// `s` without the copies of `c` at its start.
pub open spec fn strip_start_char(s: Seq<char>, c: char) -> Seq<char>
    decreases s.len(),
{
    if s.len() > 0 && s[0] == c {
        strip_start_char(s.drop_first(), c)
    } else {
        s
    }
}

/// `s` without the copies of `c` at its end.
pub open spec fn strip_end_char(s: Seq<char>, c: char) -> Seq<char>
    decreases s.len(),
{
    if s.len() > 0 && s.last() == c {
        strip_end_char(s.drop_last(), c)
    } else {
        s
    }
}

/// `s` without the copies of `c` at both ends (`str::trim_matches(c)`).
pub open spec fn trim_matches(s: Seq<char>, c: char) -> Seq<char> {
    strip_end_char(strip_start_char(s, c), c)
}

/// The first index of `c` in `s`, if any.
pub open spec fn first_index(s: Seq<char>, c: char) -> Option<nat>
    decreases s.len(),
{
    if s.len() == 0 {
        None
    } else if s[0] == c {
        Some(0)
    } else {
        match first_index(s.drop_first(), c) {
            Some(k) => Some(k + 1),
            None => None,
        }
    }
}

// ---------------------------------------------------------------------------
// Lines
// ---------------------------------------------------------------------------

/// A line that ended with `"\r\n"` loses its `'\r'`.
pub open spec fn strip_cr(l: Seq<char>) -> Seq<char> {
    if l.len() > 0 && l.last() == '\r' {
        l.drop_last()
    } else {
        l
    }
}

/// The lines of `s`, scanning it from the left with `done` the lines
/// already complete and `cur` the line being read (`str::lines`): a line
/// ends at `'\n'` (and then loses a final `'\r'`); the text after the last
/// `'\n'` is a line only if it is not empty.
pub open spec fn lines_from(done: Seq<Seq<char>>, cur: Seq<char>, s: Seq<char>) -> Seq<Seq<char>>
    decreases s.len(),
{
    if s.len() == 0 {
        if cur.len() > 0 {
            done.push(cur)
        } else {
            done
        }
    } else if s[0] == '\n' {
        lines_from(done.push(strip_cr(cur)), seq![], s.drop_first())
    } else {
        lines_from(done, cur.push(s[0]), s.drop_first())
    }
}

/// `str::lines`.
pub open spec fn lines(s: Seq<char>) -> Seq<Seq<char>> {
    lines_from(seq![], seq![], s)
}

/// The pieces of `s` between the `'\n'` characters (`str::split('\n')`):
/// always one more piece than there are newlines.
pub open spec fn split_from(done: Seq<Seq<char>>, cur: Seq<char>, s: Seq<char>) -> Seq<Seq<char>>
    decreases s.len(),
{
    if s.len() == 0 {
        done.push(cur)
    } else if s[0] == '\n' {
        split_from(done.push(cur), seq![], s.drop_first())
    } else {
        split_from(done, cur.push(s[0]), s.drop_first())
    }
}

pub open spec fn split_newlines(s: Seq<char>) -> Seq<Seq<char>> {
    split_from(seq![], seq![], s)
}

/// The pieces of `s` between the copies of `sep` (`str::split(sep)`),
/// scanning from the left with `done` the pieces complete and `cur` the
/// piece being read.
pub open spec fn split_on(done: Seq<Seq<char>>, cur: Seq<char>, s: Seq<char>, sep: char) -> Seq<
    Seq<char>,
>
    decreases s.len(),
{
    if s.len() == 0 {
        done.push(cur)
    } else if s[0] == sep {
        split_on(done.push(cur), seq![], s.drop_first(), sep)
    } else {
        split_on(done, cur.push(s[0]), s.drop_first(), sep)
    }
}

/// The lines `ls` joined with `'\n'` between them (`[&str]::join("\n")`).
pub open spec fn join_lines(ls: Seq<Seq<char>>) -> Seq<char>
    decreases ls.len(),
{
    if ls.len() == 0 {
        seq![]
    } else if ls.len() == 1 {
        ls[0]
    } else {
        join_lines(ls.drop_last()) + seq!['\n'] + ls.last()
    }
}

/// Each line followed by `'\n'`.
pub open spec fn unlines(ls: Seq<Seq<char>>) -> Seq<char>
    decreases ls.len(),
{
    if ls.len() == 0 {
        seq![]
    } else {
        unlines(ls.drop_last()) + ls.last() + seq!['\n']
    }
}

/// The views of a vector of character vectors.
pub open spec fn views(v: Seq<Vec<char>>) -> Seq<Seq<char>> {
    v.map_values(|l: Vec<char>| l@)
}

pub open spec fn has_no(s: Seq<char>, c: char) -> bool {
    forall|i: int| 0 <= i < s.len() ==> s[i] != c
}

// ---------------------------------------------------------------------------
// Lemmas
// ---------------------------------------------------------------------------

pub proof fn lemma_lines_from_prefix(done: Seq<Seq<char>>, cur: Seq<char>, s: Seq<char>)
    ensures
        lines_from(done, cur, s) == done + lines_from(seq![], cur, s),
    decreases s.len(),
{
    if s.len() == 0 {
    } else if s[0] == '\n' {
        lemma_lines_from_prefix(done.push(strip_cr(cur)), seq![], s.drop_first());
        lemma_lines_from_prefix(seq![strip_cr(cur)], seq![], s.drop_first());
        assert(done.push(strip_cr(cur)) =~= done + seq![strip_cr(cur)]);
        assert(seq![].push(strip_cr(cur)) =~= seq![strip_cr(cur)]);
    } else {
        lemma_lines_from_prefix(done, cur.push(s[0]), s.drop_first());
        lemma_lines_from_prefix(seq![], cur.push(s[0]), s.drop_first());
    }
}

pub proof fn lemma_split_from_prefix(done: Seq<Seq<char>>, cur: Seq<char>, s: Seq<char>)
    ensures
        split_from(done, cur, s) == done + split_from(seq![], cur, s),
    decreases s.len(),
{
    if s.len() == 0 {
        assert(done.push(cur) =~= done + seq![].push(cur));
    } else if s[0] == '\n' {
        lemma_split_from_prefix(done.push(cur), seq![], s.drop_first());
        lemma_split_from_prefix(seq![cur], seq![], s.drop_first());
        assert(done.push(cur) =~= done + seq![cur]);
        assert(seq![].push(cur) =~= seq![cur]);
    } else {
        lemma_split_from_prefix(done, cur.push(s[0]), s.drop_first());
        lemma_split_from_prefix(seq![], cur.push(s[0]), s.drop_first());
    }
}

proof fn lemma_trim_start_bounds(s: Seq<char>) -> (a: int)
    ensures
        0 <= a <= s.len(),
        trim_start(s) == s.skip(a),
        forall|i: int| 0 <= i < a ==> is_space(#[trigger] s[i]),
        a < s.len() ==> !is_space(s[a]),
    decreases s.len(),
{
    if s.len() > 0 && is_space(s[0]) {
        let a1 = lemma_trim_start_bounds(s.drop_first());
        assert(s.drop_first().skip(a1) =~= s.skip(a1 + 1));
        assert forall|i: int| 0 <= i < a1 + 1 implies is_space(#[trigger] s[i]) by {
            if i > 0 {
                assert(s[i] == s.drop_first()[i - 1]);
            }
        }
        a1 + 1
    } else {
        assert(s.skip(0) =~= s);
        0
    }
}

pub proof fn lemma_trim_end_bounds(s: Seq<char>) -> (b: int)
    ensures
        0 <= b <= s.len(),
        trim_end(s) == s.take(b),
        forall|i: int| b <= i < s.len() ==> is_space(#[trigger] s[i]),
        b > 0 ==> !is_space(s[b - 1]),
    decreases s.len(),
{
    if s.len() > 0 && is_space(s.last()) {
        let b1 = lemma_trim_end_bounds(s.drop_last());
        assert(s.drop_last().take(b1) =~= s.take(b1));
        assert forall|i: int| b1 <= i < s.len() implies is_space(#[trigger] s[i]) by {
            if i < s.len() - 1 {
                assert(s[i] == s.drop_last()[i]);
            }
        }
        b1
    } else {
        assert(s.take(s.len() as int) =~= s);
        s.len() as int
    }
}

/// `trim` keeps the characters strictly between the leading and the
/// trailing whitespace: it starts and ends with a visible character.
pub proof fn lemma_trim_bounds(s: Seq<char>) -> (r: (int, int))
    ensures
        0 <= r.0 <= r.1 <= s.len(),
        trim(s) == s.subrange(r.0, r.1),
        forall|i: int| 0 <= i < r.0 ==> is_space(#[trigger] s[i]),
        forall|i: int| r.1 <= i < s.len() ==> is_space(#[trigger] s[i]),
        r.0 < r.1 ==> !is_space(s[r.0]) && !is_space(s[r.1 - 1]),
{
    let a = lemma_trim_start_bounds(s);
    let t = s.skip(a);
    let b = lemma_trim_end_bounds(t);
    assert(t.take(b) =~= s.subrange(a, a + b));
    assert forall|i: int| a + b <= i < s.len() implies is_space(#[trigger] s[i]) by {
        assert(s[i] == t[i - a]);
    }
    if b > 0 {
        assert(s[a] == t[0]);
        assert(s[a + b - 1] == t[b - 1]);
        if b == t.len() {
        }
    }
    (a, a + b)
}

/// Reading a text that ends with a newline, then another text, gives the
/// lines of the first followed by those of the second.
pub proof fn lemma_lines_concat(done: Seq<Seq<char>>, cur: Seq<char>, a: Seq<char>, b: Seq<char>)
    requires
        a.len() > 0,
        a.last() == '\n',
    ensures
        lines_from(done, cur, a + b) == lines_from(done, cur, a) + lines(b),
    decreases a.len(),
{
    assert((a + b).drop_first() =~= a.drop_first() + b);
    assert((a + b)[0] == a[0]);
    if a[0] == '\n' {
        if a.len() == 1 {
            assert(a.drop_first() =~= Seq::<char>::empty());
            assert(a.drop_first() + b =~= b);
            assert(lines_from(done.push(strip_cr(cur)), seq![], a.drop_first()) == done.push(
                strip_cr(cur),
            ));
            assert(lines_from(done, cur, a) == done.push(strip_cr(cur)));
            assert(lines_from(done, cur, a + b) == lines_from(done.push(strip_cr(cur)), seq![], b));
            lemma_lines_from_prefix(done.push(strip_cr(cur)), seq![], b);
        } else {
            assert(a.drop_first().last() == '\n');
            lemma_lines_concat(done.push(strip_cr(cur)), seq![], a.drop_first(), b);
        }
    } else {
        assert(a.len() > 1);
        assert(a.drop_first().last() == '\n');
        lemma_lines_concat(done, cur.push(a[0]), a.drop_first(), b);
    }
}

/// Reading `s` followed by a newline yields the `'\n'`-separated pieces of
/// `s`, each without a final `'\r'`.
pub proof fn lemma_lines_newline_terminated(done: Seq<Seq<char>>, cur: Seq<char>, s: Seq<char>)
    ensures
        lines_from(done, cur, s + seq!['\n']) == done + split_from(seq![], cur, s).map_values(
            |l: Seq<char>| strip_cr(l),
        ),
    decreases s.len(),
{
    let t = s + seq!['\n'];
    if s.len() == 0 {
        assert(t =~= seq!['\n']);
        assert(t.drop_first() =~= Seq::<char>::empty());
        assert(lines_from(done, cur, t) == lines_from(done.push(strip_cr(cur)), seq![], t.drop_first()));
        assert(lines_from(done, cur, t) == done.push(strip_cr(cur)));
        assert(split_from(seq![], cur, s) == seq![].push(cur));
        assert(split_from(seq![], cur, s) =~= seq![cur]);
        assert(done.push(strip_cr(cur)) =~= done + seq![cur].map_values(
            |l: Seq<char>| strip_cr(l),
        ));
    } else {
        assert(t.drop_first() =~= s.drop_first() + seq!['\n']);
        assert(t[0] == s[0]);
        if s[0] == '\n' {
            lemma_lines_newline_terminated(done.push(strip_cr(cur)), seq![], s.drop_first());
            lemma_split_from_prefix(seq![cur], seq![], s.drop_first());
            let rest = split_from(seq![], seq![], s.drop_first());
            assert(split_from(seq![], cur, s) == split_from(seq![].push(cur), seq![], s.drop_first()));
            assert(seq![].push(cur) =~= seq![cur]);
            assert((seq![cur] + rest).map_values(|l: Seq<char>| strip_cr(l)) =~= seq![
                strip_cr(cur),
            ] + rest.map_values(|l: Seq<char>| strip_cr(l)));
            assert(done.push(strip_cr(cur)) + rest.map_values(|l: Seq<char>| strip_cr(l))
                =~= done + (seq![strip_cr(cur)] + rest.map_values(|l: Seq<char>| strip_cr(l))));
        } else {
            lemma_lines_newline_terminated(done, cur.push(s[0]), s.drop_first());
        }
    }
}

/// Joining the `'\n'`-separated pieces of a text gives the text back.
pub proof fn lemma_join_split(done: Seq<Seq<char>>, cur: Seq<char>, s: Seq<char>)
    ensures
        join_lines(split_from(done, cur, s)) == if done.len() == 0 {
            cur + s
        } else {
            join_lines(done) + seq!['\n'] + cur + s
        },
    decreases s.len(),
{
    if s.len() == 0 {
        let r = done.push(cur);
        assert(r.drop_last() =~= done);
        if done.len() == 0 {
            assert(cur + s =~= cur);
        } else {
            assert(join_lines(done) + seq!['\n'] + cur + s =~= join_lines(done) + seq!['\n'] + cur);
        }
    } else if s[0] == '\n' {
        lemma_join_split(done.push(cur), seq![], s.drop_first());
        let d2 = done.push(cur);
        assert(d2.drop_last() =~= done);
        if done.len() == 0 {
            assert(join_lines(d2) == cur);
            assert(cur + seq!['\n'] + seq![] + s.drop_first() =~= cur + s);
        } else {
            assert(join_lines(d2) + seq!['\n'] + seq![] + s.drop_first() =~= join_lines(done)
                + seq!['\n'] + cur + s);
        }
    } else {
        lemma_join_split(done, cur.push(s[0]), s.drop_first());
        assert(cur.push(s[0]) + s.drop_first() =~= cur + s);
        if done.len() > 0 {
            assert(join_lines(done) + seq!['\n'] + cur.push(s[0]) + s.drop_first() =~= join_lines(
                done,
            ) + seq!['\n'] + cur + s);
        }
    }
}

/// Splitting a text without newlines gives one piece.
pub proof fn lemma_split_no_newline(done: Seq<Seq<char>>, cur: Seq<char>, s: Seq<char>)
    requires
        has_no(s, '\n'),
    ensures
        split_from(done, cur, s) == done.push(cur + s),
    decreases s.len(),
{
    if s.len() == 0 {
        assert(cur + s =~= cur);
    } else {
        assert(s[0] != '\n');
        lemma_split_no_newline(done, cur.push(s[0]), s.drop_first());
        assert(cur.push(s[0]) + s.drop_first() =~= cur + s);
    }
}

/// The pieces of a text made of lines each followed by a newline are those
/// lines followed by one empty piece.
pub proof fn lemma_split_unlines(ls: Seq<Seq<char>>)
    requires
        forall|i: int| 0 <= i < ls.len() ==> has_no(#[trigger] ls[i], '\n'),
    ensures
        split_newlines(unlines(ls)) == ls.push(seq![]),
    decreases ls.len(),
{
    if ls.len() == 0 {
        assert(unlines(ls) =~= Seq::<char>::empty());
    } else {
        let init = ls.drop_last();
        let tail = ls.last() + seq!['\n'];
        lemma_split_unlines(init);
        assert(unlines(ls) == unlines(init) + tail);
        lemma_split_through(seq![], seq![], unlines(init), tail);
        assert(init.push(seq![]).drop_last() =~= init);
        lemma_split_trailing_newline(init, ls.last());
        assert(init.push(ls.last()) =~= ls);
    }
}

/// Splitting `a + b` where `a`'s pieces are known.
proof fn lemma_split_through(done: Seq<Seq<char>>, cur: Seq<char>, a: Seq<char>, b: Seq<char>)
    ensures
        split_from(done, cur, a + b) == split_from(
            split_from(done, cur, a).drop_last(),
            split_from(done, cur, a).last(),
            b,
        ),
    decreases a.len(),
{
    if a.len() == 0 {
        assert(a + b =~= b);
        assert(done.push(cur).drop_last() =~= done);
    } else {
        assert((a + b).drop_first() =~= a.drop_first() + b);
        assert((a + b)[0] == a[0]);
        if a[0] == '\n' {
            lemma_split_through(done.push(cur), seq![], a.drop_first(), b);
        } else {
            lemma_split_through(done, cur.push(a[0]), a.drop_first(), b);
        }
    }
}

proof fn lemma_split_trailing_newline(done: Seq<Seq<char>>, l: Seq<char>)
    requires
        has_no(l, '\n'),
    ensures
        split_from(done, seq![], l + seq!['\n']) == done.push(l).push(seq![]),
{
    let t = seq!['\n'];
    lemma_split_through(done, seq![], l, t);
    lemma_split_no_newline(done, seq![], l);
    let e: Seq<char> = seq![];
    assert(e + l =~= l);
    assert(split_from(done, seq![], l) == done.push(l));
    assert(done.push(l).drop_last() =~= done);
    assert(t.drop_first() =~= Seq::<char>::empty());
    assert(split_from(done, l, t) == split_from(done.push(l), seq![], t.drop_first()));
}


/// The lines of text made of lines each followed by a newline are those
/// lines, where none holds a newline or ends with a carriage return.
pub proof fn lemma_lines_unlines(ls: Seq<Seq<char>>)
    requires
        forall|i: int| 0 <= i < ls.len() ==> has_no(#[trigger] ls[i], '\n'),
        forall|i: int| 0 <= i < ls.len() ==> strip_cr(#[trigger] ls[i]) == ls[i],
    ensures
        lines(unlines(ls)) == ls,
{
    if ls.len() == 0 {
        assert(unlines(ls) =~= Seq::<char>::empty());
        assert(lines(unlines(ls)) =~= ls);
    } else {
        let init = ls.drop_last();
        let t = unlines(init) + ls.last();
        assert(unlines(ls) =~= t + seq!['\n']);
        lemma_lines_newline_terminated(seq![], seq![], t);
        lemma_split_unlines(init);
        lemma_split_through(seq![], seq![], unlines(init), ls.last());
        assert(init.push(seq![]).drop_last() =~= init);
        lemma_split_no_newline(init, seq![], ls.last());
        let e: Seq<char> = seq![];
        assert(e + ls.last() =~= ls.last());
        assert(init.push(ls.last()) =~= ls);
        assert(split_newlines(t) == ls);
        assert(ls.map_values(|l: Seq<char>| strip_cr(l)) =~= ls);
        assert(Seq::<Seq<char>>::empty() + ls =~= ls);
    }
}

// ---------------------------------------------------------------------------
// Executable counterparts
// ---------------------------------------------------------------------------

/// Appends `c` to `s` (`String::push`).
#[verifier::external_body]
pub(crate) fn push_char(s: &mut String, c: char)
    ensures
        final(s)@ == old(s)@.push(c),
{
    s.push(c)
}

/// The characters of `s`.
pub fn chars_of(s: &str) -> (v: Vec<char>)
    ensures
        v@ == s@,
{
    let mut v: Vec<char> = Vec::new();
    for c in it: s.chars()
        invariant
            v@ == it.seq().take(it.index() as int),
    {
        v.push(c);
    }
    v
}

/// The string of the characters `v[lo..hi]`.
pub fn string_of(v: &Vec<char>, lo: usize, hi: usize) -> (s: String)
    requires
        lo <= hi <= v.len(),
    ensures
        s@ == v@.subrange(lo as int, hi as int),
{
    let mut s = String::new();
    let mut i = lo;
    while i < hi
        invariant
            lo <= i <= hi <= v.len(),
            s@ == v@.subrange(lo as int, i as int),
        decreases hi - i,
    {
        push_char(&mut s, v[i]);
        i += 1;
        assert(s@ =~= v@.subrange(lo as int, i as int));
    }
    s
}

/// A copy of the characters `v[lo..hi]`.
pub fn copy_range(v: &Vec<char>, lo: usize, hi: usize) -> (r: Vec<char>)
    requires
        lo <= hi <= v.len(),
    ensures
        r@ == v@.subrange(lo as int, hi as int),
{
    let mut r: Vec<char> = Vec::new();
    let mut i = lo;
    while i < hi
        invariant
            lo <= i <= hi <= v.len(),
            r@ == v@.subrange(lo as int, i as int),
        decreases hi - i,
    {
        r.push(v[i]);
        i += 1;
        assert(r@ =~= v@.subrange(lo as int, i as int));
    }
    r
}

/// Appends the characters of `src` to `dst`.
pub fn append_chars(dst: &mut Vec<char>, src: &Vec<char>)
    ensures
        final(dst)@ == old(dst)@ + src@,
{
    let mut i: usize = 0;
    while i < src.len()
        invariant
            i <= src.len(),
            dst@ == old(dst)@ + src@.subrange(0, i as int),
        decreases src.len() - i,
    {
        dst.push(src[i]);
        i += 1;
        assert(dst@ =~= old(dst)@ + src@.subrange(0, i as int));
    }
    assert(src@.subrange(0, src.len() as int) =~= src@);
}

/// Whether `a` and `b` hold the same characters.
pub fn same_chars(a: &Vec<char>, b: &Vec<char>) -> (r: bool)
    ensures
        r == (a@ == b@),
{
    if a.len() != b.len() {
        return false;
    }
    let mut i: usize = 0;
    while i < a.len()
        invariant
            i <= a.len() == b.len(),
            forall|j: int| 0 <= j < i ==> a@[j] == b@[j],
        decreases a.len() - i,
    {
        if a[i] != b[i] {
            return false;
        }
        i += 1;
    }
    assert(a@ =~= b@);
    true
}

/// The bounds of `trim(v[lo..hi])` within `v`.
pub fn trim_bounds(v: &Vec<char>, lo: usize, hi: usize) -> (r: (usize, usize))
    requires
        lo <= hi <= v.len(),
    ensures
        lo <= r.0 <= r.1 <= hi,
        v@.subrange(r.0 as int, r.1 as int) == trim(v@.subrange(lo as int, hi as int)),
{
    let mut a = lo;
    while a < hi && is_space_char(v[a])
        invariant
            lo <= a <= hi <= v.len(),
            trim_start(v@.subrange(a as int, hi as int)) == trim_start(
                v@.subrange(lo as int, hi as int),
            ),
        decreases hi - a,
    {
        assert(v@.subrange(a as int, hi as int).drop_first() =~= v@.subrange(a + 1, hi as int));
        a += 1;
    }
    let mut b = hi;
    while b > a && is_space_char(v[b - 1])
        invariant
            lo <= a <= b <= hi <= v.len(),
            trim_end(v@.subrange(a as int, b as int)) == trim_end(v@.subrange(a as int, hi as int)),
        decreases b - a,
    {
        assert(v@.subrange(a as int, b as int).drop_last() =~= v@.subrange(a as int, b - 1));
        b -= 1;
    }
    (a, b)
}

/// The bounds of `trim_matches(v[lo..hi], c)` within `v`.
pub fn trim_matches_bounds(v: &Vec<char>, lo: usize, hi: usize, c: char) -> (r: (usize, usize))
    requires
        lo <= hi <= v.len(),
    ensures
        lo <= r.0 <= r.1 <= hi,
        v@.subrange(r.0 as int, r.1 as int) == trim_matches(v@.subrange(lo as int, hi as int), c),
{
    let mut a = lo;
    while a < hi && v[a] == c
        invariant
            lo <= a <= hi <= v.len(),
            strip_start_char(v@.subrange(a as int, hi as int), c) == strip_start_char(
                v@.subrange(lo as int, hi as int),
                c,
            ),
        decreases hi - a,
    {
        assert(v@.subrange(a as int, hi as int).drop_first() =~= v@.subrange(a + 1, hi as int));
        a += 1;
    }
    let mut b = hi;
    while b > a && v[b - 1] == c
        invariant
            lo <= a <= b <= hi <= v.len(),
            strip_end_char(v@.subrange(a as int, b as int), c) == strip_end_char(
                v@.subrange(a as int, hi as int),
                c,
            ),
        decreases b - a,
    {
        assert(v@.subrange(a as int, b as int).drop_last() =~= v@.subrange(a as int, b - 1));
        b -= 1;
    }
    (a, b)
}

/// The first index of `c` in `v[lo..hi]`, counted from `lo`.
pub fn find_char(v: &Vec<char>, lo: usize, hi: usize, c: char) -> (r: Option<usize>)
    requires
        lo <= hi <= v.len(),
    ensures
        match first_index(v@.subrange(lo as int, hi as int), c) {
            Some(k) => r is Some && r.unwrap() == lo + k,
            None => r is None,
        },
        r matches Some(p) ==> lo <= p < hi && v@[p as int] == c,
{
    let mut i = lo;
    while i < hi
        invariant
            lo <= i <= hi <= v.len(),
            first_index(v@.subrange(lo as int, hi as int), c) == match first_index(
                v@.subrange(i as int, hi as int),
                c,
            ) {
                Some(k) => Some((k + (i - lo)) as nat),
                None => None,
            },
        decreases hi - i,
    {
        assert(v@.subrange(i as int, hi as int).drop_first() =~= v@.subrange(i + 1, hi as int));
        if v[i] == c {
            return Some(i);
        }
        i += 1;
    }
    None
}

/// The lines of `v` (`str::lines`).
pub fn split_lines(v: &Vec<char>) -> (res: Vec<Vec<char>>)
    ensures
        views(res@) == lines(v@),
{
    let mut done: Vec<Vec<char>> = Vec::new();
    let mut cur: Vec<char> = Vec::new();
    let mut i: usize = 0;
    assert(v@.skip(0) =~= v@);
    assert(views(done@) =~= Seq::<Seq<char>>::empty());
    while i < v.len()
        invariant
            i <= v.len(),
            lines_from(views(done@), cur@, v@.skip(i as int)) == lines(v@),
        decreases v.len() - i,
    {
        let c = v[i];
        assert(v@.skip(i as int).drop_first() =~= v@.skip(i + 1));
        if c == '\n' {
            let ghost before = cur@;
            if cur.len() > 0 && cur[cur.len() - 1] == '\r' {
                cur.pop();
                assert(cur@ =~= before.drop_last());
            }
            let ghost d = views(done@);
            done.push(cur);
            assert(views(done@) =~= d.push(strip_cr(before)));
            cur = Vec::new();
            assert(cur@ =~= Seq::<char>::empty());
        } else {
            cur.push(c);
        }
        i += 1;
    }
    assert(v@.skip(i as int) =~= Seq::<char>::empty());
    if cur.len() > 0 {
        let ghost d = views(done@);
        let ghost last = cur@;
        done.push(cur);
        assert(views(done@) =~= d.push(last));
    }
    done
}

/// The pieces of `v` between the copies of `sep`.
pub fn split_on_char(v: &Vec<char>, sep: char) -> (res: Vec<Vec<char>>)
    ensures
        views(res@) == split_on(seq![], seq![], v@, sep),
{
    let mut done: Vec<Vec<char>> = Vec::new();
    let mut cur: Vec<char> = Vec::new();
    let mut i: usize = 0;
    assert(v@.skip(0) =~= v@);
    assert(views(done@) =~= Seq::<Seq<char>>::empty());
    while i < v.len()
        invariant
            i <= v.len(),
            split_on(views(done@), cur@, v@.skip(i as int), sep) == split_on(
                seq![],
                seq![],
                v@,
                sep,
            ),
        decreases v.len() - i,
    {
        let c = v[i];
        assert(v@.skip(i as int).drop_first() =~= v@.skip(i + 1));
        if c == sep {
            let ghost d = views(done@);
            let ghost piece = cur@;
            done.push(cur);
            assert(views(done@) =~= d.push(piece));
            cur = Vec::new();
            assert(cur@ =~= Seq::<char>::empty());
        } else {
            cur.push(c);
        }
        i += 1;
    }
    assert(v@.skip(i as int) =~= Seq::<char>::empty());
    let ghost d = views(done@);
    let ghost piece = cur@;
    done.push(cur);
    assert(views(done@) =~= d.push(piece));
    done
}

/// The lines `ls` joined with `'\n'` between them.
pub fn join_vec_lines(ls: &Vec<Vec<char>>) -> (r: Vec<char>)
    ensures
        r@ == join_lines(views(ls@)),
{
    let mut r: Vec<char> = Vec::new();
    let mut i: usize = 0;
    while i < ls.len()
        invariant
            i <= ls.len(),
            r@ == join_lines(views(ls@).take(i as int)),
        decreases ls.len() - i,
    {
        let ghost taken = views(ls@).take(i + 1);
        assert(taken.drop_last() =~= views(ls@).take(i as int));
        if i > 0 {
            r.push('\n');
        }
        append_chars(&mut r, &ls[i]);
        i += 1;
        assert(r@ =~= join_lines(taken));
    }
    assert(views(ls@).take(ls.len() as int) =~= views(ls@));
    r
}


// ---------------------------------------------------------------------------
// Lowercase
// ---------------------------------------------------------------------------

/// What `str::to_lowercase` returns for the characters `s`: Unicode's
/// lowercase mapping, applied character by character in context.
pub uninterp spec fn unicode_lowercase(s: Seq<char>) -> Seq<char>;

/// ASCII letters `A`..`Z` lowered; every other character kept.
pub open spec fn ascii_lowercase(s: Seq<char>) -> Seq<char> {
    s.map_values(|c: char| if 'A' <= c && c <= 'Z' { ((c as u32) + 32) as char } else { c })
}

/// `str::to_lowercase`. The result is named `unicode_lowercase` of the
/// input; on ASCII input it lowers the letters `A`..`Z` and keeps every
/// other character, as Unicode's mapping does for ASCII. What it does to
/// other characters is left to the name.
#[verifier::external_body]
pub(crate) fn to_lowercase(s: &str) -> (r: String)
    ensures
        r@ == unicode_lowercase(s@),
        is_ascii_chars(s@) ==> r@ == ascii_lowercase(s@),
{
    s.to_lowercase()
}

} // verus!
