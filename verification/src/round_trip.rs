//! Reading back the text of a workspace gives the workspace.
//!
//! `workspace_text` is what the tools hand to the user's editor, and
//! `parse_workspace` what they make of the edited text; unedited, the text
//! describes the same workspace whenever its values can be written in the
//! format at all.
use vstd::prelude::*;
use vstd::utf8::is_ascii_chars;

use crate::models::{
    closed_sections, config_entry, config_line, config_position, config_text, config_word,
    default_profile_key, header_line, header_name, is_header, lookup_from, name_key, newline,
    parse_workspace, profile_text, profiles_text, read_line, read_lines, shell_key, start_state,
    text_sections, unquote, workspace_text, ProfileModel, ReadState, WorkspaceModel,
};
use crate::text::{
    first_index, has_no, is_space, join_lines, lemma_join_split, lemma_lines_concat,
    lemma_lines_from_prefix,
    lemma_lines_unlines, lines, lines_from, split_from, split_newlines, strip_cr, strip_end_char,
    strip_start_char, trim, trim_end, trim_matches, trim_start, unicode_lowercase, unlines,
    ascii_lowercase, chars_of, lemma_trim_end_bounds, same_chars, string_of, to_lowercase,
};

verus! {

// ---------------------------------------------------------------------------
// When a workspace can be written and read back
// ---------------------------------------------------------------------------

/// A value that survives `key = "value"`: one line, not starting or ending
/// with a quote.
pub open spec fn quotable(v: Seq<char>) -> bool {
    &&& has_no(v, '\n')
    &&& v.len() > 0 ==> v[0] != '"' && v[0] != '\'' && v.last() != '"' && v.last() != '\''
}

/// A line of a profile's script that is read back as it stands: not blank,
/// not a section header, and not ending with a carriage return.
pub open spec fn body_line_ok(l: Seq<char>) -> bool {
    &&& trim(l).len() > 0
    &&& !is_header(trim(l))
    &&& strip_cr(l) == l
}

pub open spec fn content_ok(c: Seq<char>) -> bool {
    c.len() == 0 || forall|i: int|
        0 <= i < split_newlines(c).len() ==> body_line_ok(#[trigger] split_newlines(c)[i])
}

pub open spec fn profile_ok(p: ProfileModel) -> bool {
    &&& p.0.len() > 0
    &&& has_no(p.0, '\n')
    &&& content_ok(p.1)
}

/// The workspaces whose text reads back as themselves: quotable values,
/// named profiles with readable scripts, and a last script that does not
/// end with whitespace (the text loses its trailing whitespace).
pub open spec fn writes_back(w: WorkspaceModel) -> bool {
    &&& quotable(w.name)
    &&& quotable(w.shell)
    &&& quotable(w.default_profile)
    &&& forall|i: int| 0 <= i < w.profiles.len() ==> profile_ok(#[trigger] w.profiles[i])
    &&& w.profiles.len() > 0 ==> (w.profiles.last().1.len() == 0 || !is_space(
        w.profiles.last().1.last(),
    ))
}

/// The keys of the `[config]` section are their own lowercase.
pub open spec fn keys_are_lowercase() -> bool {
    &&& unicode_lowercase(name_key()) == name_key()
    &&& unicode_lowercase(shell_key()) == shell_key()
    &&& unicode_lowercase(default_profile_key()) == default_profile_key()
}

// ---------------------------------------------------------------------------
// The text as a sequence of lines
// ---------------------------------------------------------------------------

pub open spec fn config_lines(w: WorkspaceModel) -> Seq<Seq<char>> {
    seq![
        header_line(config_word()),
        config_line(name_key(), w.name),
        config_line(shell_key(), w.shell),
        config_line(default_profile_key(), w.default_profile),
        seq![],
    ]
}

pub open spec fn profile_lines(p: ProfileModel) -> Seq<Seq<char>> {
    seq![header_line(p.0)] + split_newlines(p.1) + seq![seq![]]
}

pub open spec fn all_profile_lines(ps: Seq<ProfileModel>) -> Seq<Seq<char>>
    decreases ps.len(),
{
    if ps.len() == 0 {
        seq![]
    } else {
        all_profile_lines(ps.drop_last()) + profile_lines(ps.last())
    }
}

pub open spec fn clean_line(l: Seq<char>) -> bool {
    has_no(l, '\n') && strip_cr(l) == l
}

pub open spec fn all_clean(ls: Seq<Seq<char>>) -> bool {
    forall|i: int| 0 <= i < ls.len() ==> clean_line(#[trigger] ls[i])
}

pub open spec fn script_lines(c: Seq<char>) -> Seq<Seq<char>> {
    if c.len() == 0 {
        seq![]
    } else {
        split_newlines(c)
    }
}

// ---------------------------------------------------------------------------
// Lemmas on text
// ---------------------------------------------------------------------------

proof fn lemma_unlines_append(a: Seq<Seq<char>>, b: Seq<Seq<char>>)
    ensures
        unlines(a + b) == unlines(a) + unlines(b),
    decreases b.len(),
{
    if b.len() == 0 {
        assert(a + b =~= a);
        assert(unlines(b) =~= Seq::<char>::empty());
        assert(unlines(a) + unlines(b) =~= unlines(a));
    } else {
        lemma_unlines_append(a, b.drop_last());
        assert((a + b).drop_last() =~= a + b.drop_last());
        assert((a + b).last() == b.last());
        assert(unlines(a) + unlines(b) =~= unlines(a) + unlines(b.drop_last()) + b.last()
            + seq!['\n']);
    }
}

proof fn lemma_unlines_one(l: Seq<char>)
    ensures
        unlines(seq![l]) == l + seq!['\n'],
{
    let ls = seq![l];
    assert(ls.drop_last() =~= Seq::<Seq<char>>::empty());
    assert(unlines(Seq::<Seq<char>>::empty()) == Seq::<char>::empty());
    assert(unlines(ls) =~= l + seq!['\n']);
}

proof fn lemma_unlines_is_join(ls: Seq<Seq<char>>)
    requires
        ls.len() > 0,
    ensures
        unlines(ls) == join_lines(ls) + seq!['\n'],
    decreases ls.len(),
{
    if ls.len() == 1 {
        assert(ls.drop_last() =~= Seq::<Seq<char>>::empty());
        assert(unlines(ls.drop_last()) =~= Seq::<char>::empty());
        assert(unlines(ls) =~= ls[0] + seq!['\n']);
    } else {
        lemma_unlines_is_join(ls.drop_last());
        assert(unlines(ls) =~= join_lines(ls.drop_last()) + seq!['\n'] + ls.last() + seq!['\n']);
    }
}

proof fn lemma_split_from_len(done: Seq<Seq<char>>, cur: Seq<char>, s: Seq<char>)
    ensures
        split_from(done, cur, s).len() > done.len(),
    decreases s.len(),
{
    if s.len() > 0 {
        if s[0] == '\n' {
            lemma_split_from_len(done.push(cur), seq![], s.drop_first());
        } else {
            lemma_split_from_len(done, cur.push(s[0]), s.drop_first());
        }
    }
}

proof fn lemma_split_pieces_clean(done: Seq<Seq<char>>, cur: Seq<char>, s: Seq<char>)
    requires
        forall|i: int| 0 <= i < done.len() ==> has_no(#[trigger] done[i], '\n'),
        has_no(cur, '\n'),
    ensures
        forall|i: int|
            0 <= i < split_from(done, cur, s).len() ==> has_no(
                #[trigger] split_from(done, cur, s)[i],
                '\n',
            ),
    decreases s.len(),
{
    if s.len() == 0 {
        assert(split_from(done, cur, s) == done.push(cur));
        assert forall|i: int| 0 <= i < done.push(cur).len() implies has_no(
            #[trigger] done.push(cur)[i],
            '\n',
        ) by {
            if i < done.len() {
                assert(done.push(cur)[i] == done[i]);
            }
        }
    } else if s[0] == '\n' {
        assert(split_from(done, cur, s) == split_from(done.push(cur), seq![], s.drop_first()));
        assert forall|i: int| 0 <= i < done.push(cur).len() implies has_no(
            #[trigger] done.push(cur)[i],
            '\n',
        ) by {
            if i < done.len() {
                assert(done.push(cur)[i] == done[i]);
            }
        }
        lemma_split_pieces_clean(done.push(cur), seq![], s.drop_first());
    } else {
        assert(has_no(cur.push(s[0]), '\n'));
        assert(split_from(done, cur, s) == split_from(done, cur.push(s[0]), s.drop_first()));
        lemma_split_pieces_clean(done, cur.push(s[0]), s.drop_first());
    }
}

proof fn lemma_unlines_split(c: Seq<char>)
    ensures
        unlines(split_newlines(c)) == c + seq!['\n'],
        split_newlines(c).len() > 0,
        forall|i: int|
            0 <= i < split_newlines(c).len() ==> has_no(#[trigger] split_newlines(c)[i], '\n'),
{
    lemma_split_from_len(seq![], seq![], c);
    lemma_unlines_is_join(split_newlines(c));
    lemma_join_split(seq![], seq![], c);
    assert(Seq::<char>::empty() + c =~= c);
    lemma_split_pieces_clean(seq![], seq![], c);
}

proof fn lemma_profile_text(p: ProfileModel)
    ensures
        profile_text(p) == unlines(profile_lines(p)),
{
    lemma_unlines_split(p.1);
    let h: Seq<Seq<char>> = seq![header_line(p.0)];
    let e: Seq<Seq<char>> = seq![seq![]];
    lemma_unlines_append(h + split_newlines(p.1), e);
    lemma_unlines_append(h, split_newlines(p.1));
    lemma_unlines_one(header_line(p.0));
    lemma_unlines_one(seq![]);
    assert(Seq::<char>::empty() + seq!['\n'] =~= seq!['\n']);
    assert(profile_text(p) =~= unlines(h) + unlines(split_newlines(p.1)) + unlines(e));
}

proof fn lemma_profiles_text(ps: Seq<ProfileModel>)
    ensures
        profiles_text(ps) == unlines(all_profile_lines(ps)),
    decreases ps.len(),
{
    if ps.len() == 0 {
        assert(unlines(all_profile_lines(ps)) =~= Seq::<char>::empty());
    } else {
        lemma_profiles_text(ps.drop_last());
        lemma_profile_text(ps.last());
        lemma_unlines_append(all_profile_lines(ps.drop_last()), profile_lines(ps.last()));
    }
}

proof fn lemma_config_text(w: WorkspaceModel)
    ensures
        config_text(w) == unlines(config_lines(w)),
{
    let ls = config_lines(w);
    assert(ls.drop_last().drop_last().drop_last().drop_last().drop_last() =~= Seq::<
        Seq<char>,
    >::empty());
    reveal_with_fuel(unlines, 6);
    assert(config_text(w) =~= unlines(ls));
}

/// Trailing whitespace after a visible character is what `trim_end`
/// removes.
proof fn lemma_trim_end_spaces(q: Seq<char>, t: Seq<char>)
    requires
        q.len() > 0,
        !is_space(q.last()),
        forall|i: int| 0 <= i < t.len() ==> is_space(#[trigger] t[i]),
    ensures
        trim_end(q + t) == q,
    decreases t.len(),
{
    if t.len() == 0 {
        assert(q + t =~= q);
    } else {
        assert((q + t).drop_last() =~= q + t.drop_last());
        assert((q + t).last() == t.last());
        assert forall|i: int| 0 <= i < t.drop_last().len() implies is_space(
            #[trigger] t.drop_last()[i],
        ) by {
            assert(t.drop_last()[i] == t[i]);
        }
        lemma_trim_end_spaces(q, t.drop_last());
    }
}

proof fn lemma_all_clean_append(a: Seq<Seq<char>>, b: Seq<Seq<char>>)
    requires
        all_clean(a),
        all_clean(b),
    ensures
        all_clean(a + b),
{
    assert forall|i: int| 0 <= i < (a + b).len() implies clean_line(#[trigger] (a + b)[i]) by {
        if i < a.len() {
            assert((a + b)[i] == a[i]);
        } else {
            assert((a + b)[i] == b[i - a.len()]);
        }
    }
}

proof fn lemma_profile_lines_clean(p: ProfileModel)
    requires
        profile_ok(p),
    ensures
        all_clean(profile_lines(p)),
{
    lemma_unlines_split(p.1);
    let h: Seq<Seq<char>> = seq![header_line(p.0)];
    let e: Seq<Seq<char>> = seq![seq![]];
    assert(has_no(header_line(p.0), '\n'));
    assert(all_clean(h));
    assert(all_clean(e));
    let s = split_newlines(p.1);
    assert forall|i: int| 0 <= i < s.len() implies clean_line(#[trigger] s[i]) by {
        if p.1.len() == 0 {
            lemma_split_empty();
            assert(s[i] == Seq::<char>::empty());
        } else {
            assert(body_line_ok(s[i]));
        }
    }
    lemma_all_clean_append(h, s);
    lemma_all_clean_append(h + s, e);
}

proof fn lemma_split_empty()
    ensures
        split_newlines(seq![]) == seq![Seq::<char>::empty()],
{
    assert(seq![].push(Seq::<char>::empty()) =~= seq![Seq::<char>::empty()]);
}

proof fn lemma_all_profile_lines_clean(ps: Seq<ProfileModel>)
    requires
        forall|i: int| 0 <= i < ps.len() ==> profile_ok(#[trigger] ps[i]),
    ensures
        all_clean(all_profile_lines(ps)),
    decreases ps.len(),
{
    if ps.len() > 0 {
        assert forall|i: int| 0 <= i < ps.drop_last().len() implies profile_ok(
            #[trigger] ps.drop_last()[i],
        ) by {
            assert(ps.drop_last()[i] == ps[i]);
        }
        lemma_all_profile_lines_clean(ps.drop_last());
        assert(profile_ok(ps[ps.len() - 1]));
        lemma_profile_lines_clean(ps.last());
        lemma_all_clean_append(all_profile_lines(ps.drop_last()), profile_lines(ps.last()));
    }
}

// ---------------------------------------------------------------------------
// Lemmas on reading
// ---------------------------------------------------------------------------

/// Blank lines change nothing.
proof fn lemma_read_newlines(st: ReadState, s: Seq<char>)
    requires
        forall|i: int| 0 <= i < s.len() ==> #[trigger] s[i] == '\n',
    ensures
        read_lines(st, lines(s)) == st,
    decreases s.len(),
{
    lemma_trim_empty();
    if s.len() > 0 {
        let e: Seq<char> = seq![];
        assert(strip_cr(e) == e);
        assert(lines(s) == lines_from(seq![e], seq![], s.drop_first())) by {
            assert(Seq::<Seq<char>>::empty().push(e) =~= seq![e]);
        }
        lemma_lines_from_prefix(seq![e], seq![], s.drop_first());
        let rest = lines(s.drop_first());
        assert((seq![e] + rest).drop_first() =~= rest);
        assert((seq![e] + rest)[0] == e);
        assert(read_line(st, e) == st);
        assert forall|i: int| 0 <= i < s.drop_first().len() implies #[trigger] s.drop_first()[i]
            == '\n' by {
            assert(s.drop_first()[i] == s[i + 1]);
        }
        lemma_read_newlines(st, s.drop_first());
    } else {
        assert(lines(s) =~= Seq::<Seq<char>>::empty());
    }
}

proof fn lemma_read_one(st: ReadState, l: Seq<char>)
    ensures
        read_lines(st, seq![l]) == read_line(st, l),
{
    let ls = seq![l];
    assert(ls.drop_first() =~= Seq::<Seq<char>>::empty());
    assert(read_lines(read_line(st, l), ls.drop_first()) == read_line(st, l));
}

proof fn lemma_read_lines_append(st: ReadState, a: Seq<Seq<char>>, b: Seq<Seq<char>>)
    ensures
        read_lines(st, a + b) == read_lines(read_lines(st, a), b),
    decreases a.len(),
{
    if a.len() == 0 {
        assert(a + b =~= b);
    } else {
        assert((a + b).drop_first() =~= a.drop_first() + b);
        assert((a + b)[0] == a[0]);
        lemma_read_lines_append(read_line(st, a[0]), a.drop_first(), b);
    }
}

proof fn lemma_trim_fixed(s: Seq<char>)
    requires
        s.len() > 0,
        !is_space(s[0]),
        !is_space(s.last()),
    ensures
        trim(s) == s,
{
}

proof fn lemma_trim_empty()
    ensures
        trim(seq![]) == Seq::<char>::empty(),
{
}

/// Reading visible, non-header lines into an open section collects them.
proof fn lemma_read_body(st: ReadState, ls: Seq<Seq<char>>)
    requires
        st.current.len() > 0,
        forall|i: int| 0 <= i < ls.len() ==> body_line_ok(#[trigger] ls[i]),
    ensures
        read_lines(st, ls) == (ReadState {
            sections: st.sections,
            current: st.current,
            body: st.body + ls,
        }),
    decreases ls.len(),
{
    if ls.len() == 0 {
        assert(st.body + ls =~= st.body);
    } else {
        assert(body_line_ok(ls[0]));
        let st2 = ReadState { sections: st.sections, current: st.current, body: st.body.push(ls[0]) };
        assert(read_line(st, ls[0]) == st2);
        assert forall|i: int| 0 <= i < ls.drop_first().len() implies body_line_ok(
            #[trigger] ls.drop_first()[i],
        ) by {
            assert(ls.drop_first()[i] == ls[i + 1]);
        }
        lemma_read_body(st2, ls.drop_first());
        assert(st.body.push(ls[0]) + ls.drop_first() =~= st.body + ls);
    }
}

proof fn lemma_header_line(n: Seq<char>)
    ensures
        trim(header_line(n)) == header_line(n),
        is_header(header_line(n)),
        header_name(header_line(n)) == n,
{
    let h = header_line(n);
    lemma_trim_fixed(h);
    assert(h.subrange(1, h.len() - 1) =~= n);
}

/// Reading one profile's lines into an open section closes it and leaves
/// the profile's section open with its script's lines.
proof fn lemma_read_profile(st: ReadState, p: ProfileModel)
    requires
        st.current.len() > 0,
        profile_ok(p),
    ensures
        read_lines(st, profile_lines(p)) == (ReadState {
            sections: closed_sections(st),
            current: p.0,
            body: script_lines(p.1),
        }),
{
    let h: Seq<Seq<char>> = seq![header_line(p.0)];
    let s = split_newlines(p.1);
    let e: Seq<Seq<char>> = seq![seq![]];
    lemma_read_lines_append(st, h + s, e);
    lemma_read_lines_append(st, h, s);
    lemma_header_line(p.0);
    let st1 = ReadState { sections: closed_sections(st), current: p.0, body: seq![] };
    assert(read_line(st, header_line(p.0)) == st1);
    lemma_read_one(st, header_line(p.0));
    lemma_trim_empty();
    if p.1.len() == 0 {
        lemma_split_empty();
        assert(read_line(st1, seq![]) == st1);
        lemma_read_one(st1, seq![]);
    } else {
        lemma_read_body(st1, s);
        assert(Seq::<Seq<char>>::empty() + s =~= s);
    }
    let st2 = read_lines(st1, s);
    assert(read_line(st2, seq![]) == st2);
    lemma_read_one(st2, seq![]);
    assert(h + s + e =~= profile_lines(p));
}

proof fn lemma_join_script(c: Seq<char>)
    ensures
        join_lines(script_lines(c)) == c,
{
    if c.len() > 0 {
        lemma_join_split(seq![], seq![], c);
        assert(Seq::<char>::empty() + c =~= c);
    } else {
        assert(join_lines(seq![]) =~= c);
    }
}

proof fn lemma_read_profiles(st: ReadState, ps: Seq<ProfileModel>)
    requires
        st.current.len() > 0,
        forall|i: int| 0 <= i < ps.len() ==> profile_ok(#[trigger] ps[i]),
    ensures
        closed_sections(read_lines(st, all_profile_lines(ps))) == closed_sections(st) + ps,
        read_lines(st, all_profile_lines(ps)).current.len() > 0,
    decreases ps.len(),
{
    if ps.len() == 0 {
        assert(all_profile_lines(ps) =~= Seq::<Seq<char>>::empty());
        assert(closed_sections(st) + ps =~= closed_sections(st));
    } else {
        let init = ps.drop_last();
        assert forall|i: int| 0 <= i < init.len() implies profile_ok(#[trigger] init[i]) by {
            assert(init[i] == ps[i]);
        }
        lemma_read_profiles(st, init);
        lemma_read_lines_append(st, all_profile_lines(init), profile_lines(ps.last()));
        let mid = read_lines(st, all_profile_lines(init));
        assert(profile_ok(ps[ps.len() - 1]));
        lemma_read_profile(mid, ps.last());
        lemma_join_script(ps.last().1);
        assert(closed_sections(st) + init + seq![ps.last()] =~= closed_sections(st) + ps);
        assert(closed_sections(mid).push((ps.last().0, ps.last().1)) =~= closed_sections(st)
            + init + seq![ps.last()]);
    }
}

// ---------------------------------------------------------------------------
// Lemmas on the config entries
// ---------------------------------------------------------------------------

proof fn lemma_first_index_shift(a: Seq<char>, b: Seq<char>, c: char)
    requires
        has_no(a, c),
    ensures
        first_index(a + b, c) == match first_index(b, c) {
            Some(k) => Some((k + a.len()) as nat),
            None => None,
        },
    decreases a.len(),
{
    if a.len() == 0 {
        assert(a + b =~= b);
    } else {
        assert((a + b).drop_first() =~= a.drop_first() + b);
        assert((a + b)[0] == a[0]);
        lemma_first_index_shift(a.drop_first(), b, c);
    }
}

proof fn lemma_lines_no_trailing_newline(done: Seq<Seq<char>>, cur: Seq<char>, s: Seq<char>)
    requires
        (cur + s).len() > 0,
        (cur + s).last() != '\n',
        (cur + s).last() != '\r',
    ensures
        lines_from(done, cur, s) == lines_from(done, cur, s + seq!['\n']),
    decreases s.len(),
{
    let t = s + seq!['\n'];
    assert(t[0] == if s.len() > 0 { s[0] } else { '\n' });
    if s.len() == 0 {
        assert(cur + s =~= cur);
        assert(t.drop_first() =~= Seq::<char>::empty());
        assert(strip_cr(cur) == cur);
        assert(lines_from(done.push(cur), seq![], t.drop_first()) == done.push(cur));
        assert(lines_from(done, cur, t) == done.push(cur));
        assert(lines_from(done, cur, s) == done.push(cur));
    } else {
        assert(t.drop_first() =~= s.drop_first() + seq!['\n']);
        if s[0] == '\n' {
            assert(s.len() > 1) by {
                if s.len() == 1 {
                    assert((cur + s).last() == s[0]);
                }
            }
            assert((Seq::<char>::empty() + s.drop_first()).last() == (cur + s).last());
            lemma_lines_no_trailing_newline(done.push(strip_cr(cur)), seq![], s.drop_first());
        } else {
            assert(cur.push(s[0]) + s.drop_first() =~= cur + s);
            lemma_lines_no_trailing_newline(done, cur.push(s[0]), s.drop_first());
        }
    }
}

proof fn lemma_config_entry(k: Seq<char>, v: Seq<char>)
    requires
        k.len() > 0,
        has_no(k, '='),
        !is_space(k[0]),
        !is_space(k.last()),
        unicode_lowercase(k) == k,
        quotable(v),
    ensures
        config_entry(config_line(k, v)) == Some((k, v)),
{
    let rest = seq![' ', '=', ' ', '"'] + v + seq!['"'];
    let l = config_line(k, v);
    assert(l =~= k + rest);
    lemma_first_index_shift(k, rest, '=');
    assert(rest.drop_first().drop_first().drop_first().len() + 3 == rest.len());
    assert(rest[0] == ' ' && rest[1] == '=');
    assert(rest.drop_first()[0] == '=');
    assert(first_index(rest.drop_first(), '=') == Some(0nat));
    assert(first_index(rest, '=') == Some(1nat));
    assert(first_index(l, '=') == Some((k.len() + 1) as nat));
    let before = l.take(k.len() as int + 1);
    assert(before =~= k + seq![' ']);
    assert(trim_start(before) == before);
    assert(before.drop_last() =~= k);
    assert(trim_end(before) == trim_end(k));
    assert(trim_end(k) == k);
    assert(trim(before) == k);
    let after = l.skip(k.len() as int + 2);
    assert(after =~= seq![' ', '"'] + v + seq!['"']);
    let quoted = seq!['"'] + v + seq!['"'];
    assert(after.drop_first() =~= quoted);
    assert(trim_start(quoted) == quoted);
    assert(trim_start(after) == quoted);
    assert(trim_end(quoted) == quoted);
    assert(trim(after) == quoted);
    lemma_unquote_quoted(v);
}

proof fn lemma_unquote_quoted(v: Seq<char>)
    requires
        quotable(v),
    ensures
        unquote(seq![' ', '"'] + v + seq!['"']) == v,
        trim_matches(seq!['"'] + v + seq!['"'], '"') == v,
{
    let quoted = seq!['"'] + v + seq!['"'];
    let after = seq![' ', '"'] + v + seq!['"'];
    assert(after.drop_first() =~= quoted);
    assert(quoted.drop_first() =~= v + seq!['"']);
    let vq = v + seq!['"'];
    if v.len() > 0 {
        assert(vq[0] == v[0]);
        assert(strip_start_char(vq, '"') == vq);
        assert(vq.drop_last() =~= v);
        assert(strip_end_char(v, '"') == v);
    } else {
        assert(vq =~= seq!['"']);
        assert(vq.drop_first() =~= Seq::<char>::empty());
        assert(strip_start_char(Seq::<char>::empty(), '"') == Seq::<char>::empty());
        assert(strip_start_char(vq, '"') =~= Seq::<char>::empty());
        assert(strip_end_char(Seq::<char>::empty(), '"') =~= v);
    }
    assert(strip_start_char(quoted, '"') == strip_start_char(vq, '"'));
    assert(trim_matches(quoted, '"') == v);
    assert(strip_start_char(v, '\'') == v);
    assert(strip_end_char(v, '\'') == v);
    assert(after[0] == ' ');
    assert(trim_start(quoted) == quoted);
    assert(trim_start(after) == quoted);
    assert(trim_end(quoted) == quoted);
}

proof fn lemma_lookup_config(w: WorkspaceModel)
    requires
        keys_are_lowercase(),
        quotable(w.name),
        quotable(w.shell),
        quotable(w.default_profile),
    ensures
        lookup_from(None, seq![
            config_line(name_key(), w.name),
            config_line(shell_key(), w.shell),
            config_line(default_profile_key(), w.default_profile),
        ], name_key()) == Some(w.name),
        lookup_from(None, seq![
            config_line(name_key(), w.name),
            config_line(shell_key(), w.shell),
            config_line(default_profile_key(), w.default_profile),
        ], shell_key()) == Some(w.shell),
        lookup_from(None, seq![
            config_line(name_key(), w.name),
            config_line(shell_key(), w.shell),
            config_line(default_profile_key(), w.default_profile),
        ], default_profile_key()) == Some(w.default_profile),
{
    lemma_config_entry(name_key(), w.name);
    lemma_config_entry(shell_key(), w.shell);
    lemma_config_entry(default_profile_key(), w.default_profile);
    let ls = seq![
        config_line(name_key(), w.name),
        config_line(shell_key(), w.shell),
        config_line(default_profile_key(), w.default_profile),
    ];
    assert(ls.drop_first().drop_first().drop_first() =~= Seq::<Seq<char>>::empty());
    assert(ls.drop_first()[0] == ls[1]);
    assert(ls.drop_first().drop_first()[0] == ls[2]);
    assert(name_key() != shell_key());
    assert(name_key() != default_profile_key());
    assert(shell_key() != default_profile_key());
    reveal_with_fuel(lookup_from, 4);
}

// ---------------------------------------------------------------------------
// The law
// ---------------------------------------------------------------------------

/// Reading the text of a workspace back, under the same id, gives the
/// workspace itself, for every workspace that the format can hold.
pub proof fn lemma_text_round_trip(w: WorkspaceModel)
    requires
        writes_back(w),
        keys_are_lowercase(),
    ensures
        parse_workspace(w.id, workspace_text(w)) == Some(w),
{
    let ps = w.profiles;
    let cl = config_lines(w);
    let pl = all_profile_lines(ps);
    let full = config_text(w) + profiles_text(ps);
    let wt = workspace_text(w);
    // The text is the full text less one of its two final newlines.
    let empty_last = ps.len() > 0 && ps.last().1.len() == 0;
    let extra: Seq<char> = if empty_last {
        seq!['\n', '\n']
    } else {
        seq!['\n']
    };
    let q = if ps.len() == 0 {
        header_line(config_word()) + newline() + config_line(name_key(), w.name) + newline()
            + config_line(shell_key(), w.shell) + newline() + config_line(
            default_profile_key(),
            w.default_profile,
        )
    } else if empty_last {
        config_text(w) + profiles_text(ps.drop_last()) + header_line(ps.last().0)
    } else {
        config_text(w) + profiles_text(ps.drop_last()) + header_line(ps.last().0) + newline()
            + ps.last().1
    };
    if ps.len() == 0 {
        assert(profiles_text(ps) =~= Seq::<char>::empty());
        assert(full =~= q + newline() + extra);
        assert(q.last() == '"');
    } else if empty_last {
        assert(full =~= q + newline() + extra);
        assert(q.last() == ']');
    } else {
        assert(full =~= q + newline() + extra);
        assert(q.last() == ps.last().1.last());
    }
    lemma_trim_end_spaces(q, newline() + extra);
    assert(q + newline() + extra =~= q + (newline() + extra));
    assert(trim_end(full) == q);
    assert(wt == q + newline());
    assert(full =~= wt + extra);
    // The lines of the full text.
    lemma_config_text(w);
    lemma_profiles_text(ps);
    lemma_unlines_append(cl, pl);
    assert(full == unlines(cl + pl));
    assert(all_clean(cl)) by {
        assert forall|i: int| 0 <= i < cl.len() implies clean_line(#[trigger] cl[i]) by {
            if i == 1 || i == 2 || i == 3 {
                let v = if i == 1 {
                    w.name
                } else if i == 2 {
                    w.shell
                } else {
                    w.default_profile
                };
                let k = if i == 1 {
                    name_key()
                } else if i == 2 {
                    shell_key()
                } else {
                    default_profile_key()
                };
                assert(cl[i] == config_line(k, v));
                assert forall|j: int| 0 <= j < cl[i].len() implies cl[i][j] != '\n' by {
                    if j >= k.len() + 4 && j < k.len() + 4 + v.len() {
                        assert(cl[i][j] == v[j - k.len() - 4]);
                    }
                }
            }
        }
    }
    lemma_all_profile_lines_clean(ps);
    lemma_all_clean_append(cl, pl);
    lemma_lines_unlines(cl + pl);
    assert(wt.last() == '\n');
    lemma_lines_concat(seq![], seq![], wt, extra);
    assert(lines(wt) + lines(extra) == cl + pl);
    // Reading the lines.
    lemma_trim_empty();
    let st_text = read_lines(start_state(), lines(wt));
    lemma_read_lines_append(start_state(), lines(wt), lines(extra));
    lemma_read_newlines(st_text, extra);
    assert(read_lines(start_state(), cl + pl) == st_text);
    lemma_read_lines_append(start_state(), cl, pl);
    let body = seq![
        config_line(name_key(), w.name),
        config_line(shell_key(), w.shell),
        config_line(default_profile_key(), w.default_profile),
    ];
    let st_cfg = ReadState { sections: seq![], current: config_word(), body };
    lemma_read_config(w);
    assert(read_lines(start_state(), cl) == st_cfg);
    lemma_read_profiles(st_cfg, ps);
    let secs = text_sections(wt);
    assert(secs == closed_sections(st_cfg) + ps);
    assert(closed_sections(st_cfg) == seq![(config_word(), join_lines(body))]);
    assert(secs[0] == (config_word(), join_lines(body)));
    assert(config_position(secs) == Some(0nat));
    assert(secs.remove(0) =~= ps);
    // The config entries.
    lemma_config_body_lines(w);
    lemma_lookup_config(w);
}

proof fn lemma_read_config(w: WorkspaceModel)
    requires
        quotable(w.name),
        quotable(w.shell),
        quotable(w.default_profile),
    ensures
        read_lines(start_state(), config_lines(w)) == (ReadState {
            sections: seq![],
            current: config_word(),
            body: seq![
                config_line(name_key(), w.name),
                config_line(shell_key(), w.shell),
                config_line(default_profile_key(), w.default_profile),
            ],
        }),
{
    let cl = config_lines(w);
    lemma_header_line(config_word());
    let l1 = config_line(name_key(), w.name);
    let l2 = config_line(shell_key(), w.shell);
    let l3 = config_line(default_profile_key(), w.default_profile);
    lemma_trim_fixed(l1);
    lemma_trim_fixed(l2);
    lemma_trim_fixed(l3);
    lemma_trim_empty();
    let s0 = start_state();
    let s1 = ReadState { sections: seq![], current: config_word(), body: seq![] };
    assert(closed_sections(s0) == Seq::<ProfileModel>::empty());
    assert(read_line(s0, cl[0]) == s1);
    let s2 = ReadState { sections: seq![], current: config_word(), body: seq![l1] };
    assert(seq![].push(l1) =~= seq![l1]);
    assert(read_line(s1, cl[1]) == s2);
    let s3 = ReadState { sections: seq![], current: config_word(), body: seq![l1, l2] };
    assert(seq![l1].push(l2) =~= seq![l1, l2]);
    assert(read_line(s2, cl[2]) == s3);
    let s4 = ReadState { sections: seq![], current: config_word(), body: seq![l1, l2, l3] };
    assert(seq![l1, l2].push(l3) =~= seq![l1, l2, l3]);
    assert(read_line(s3, cl[3]) == s4);
    assert(read_line(s4, cl[4]) == s4);
    let d1 = cl.drop_first();
    let d2 = d1.drop_first();
    let d3 = d2.drop_first();
    let d4 = d3.drop_first();
    assert(d1[0] == cl[1]);
    assert(d2[0] == cl[2]);
    assert(d3[0] == cl[3]);
    assert(d4[0] == cl[4]);
    assert(d4 =~= seq![cl[4]]);
    lemma_read_one(s4, cl[4]);
    assert(read_lines(s4, d4) == s4);
    assert(read_lines(s3, d3) == s4);
    assert(read_lines(s2, d2) == s4);
    assert(read_lines(s1, d1) == s4);
}

#[verifier::spinoff_prover]
#[verifier::rlimit(40)]
proof fn lemma_config_body_lines(w: WorkspaceModel)
    requires
        quotable(w.name),
        quotable(w.shell),
        quotable(w.default_profile),
    ensures
        lines(join_lines(seq![
            config_line(name_key(), w.name),
            config_line(shell_key(), w.shell),
            config_line(default_profile_key(), w.default_profile),
        ])) == seq![
            config_line(name_key(), w.name),
            config_line(shell_key(), w.shell),
            config_line(default_profile_key(), w.default_profile),
        ],
{
    let body = seq![
        config_line(name_key(), w.name),
        config_line(shell_key(), w.shell),
        config_line(default_profile_key(), w.default_profile),
    ];
    lemma_unlines_is_join(body);
    let j = join_lines(body);
    assert(body.drop_last().drop_last().drop_last() =~= Seq::<Seq<char>>::empty());
    assert(j =~= body[0] + seq!['\n'] + body[1] + seq!['\n'] + body[2]) by {
        assert(body.drop_last()[0] == body[0]);
        assert(body.drop_last().drop_last()[0] == body[0]);
        assert(body.drop_last()[1] == body[1]);
        reveal_with_fuel(join_lines, 3);
    }
    assert(j.last() == '"');
    assert(Seq::<char>::empty() + j =~= j);
    lemma_lines_no_trailing_newline(seq![], seq![], j);
    assert forall|i: int| 0 <= i < body.len() implies clean_line(#[trigger] body[i]) by {
        let v = if i == 0 {
            w.name
        } else if i == 1 {
            w.shell
        } else {
            w.default_profile
        };
        let k = if i == 0 {
            name_key()
        } else if i == 1 {
            shell_key()
        } else {
            default_profile_key()
        };
        assert(body[i] == config_line(k, v));
        assert forall|m: int| 0 <= m < body[i].len() implies body[i][m] != '\n' by {
            if m >= k.len() + 4 && m < k.len() + 4 + v.len() {
                assert(body[i][m] == v[m - k.len() - 4]);
            }
        }
    }
    lemma_lines_unlines(body);
}


/// The text of every workspace opens with its `[config]` section, holding
/// the name, the shell and the default profile in this order, each quoted
/// as it stands, and ends with a newline.
pub proof fn lemma_text_opens_with_config(w: WorkspaceModel)
    ensures
        ({
            let head = seq!['[', 'c', 'o', 'n', 'f', 'i', 'g', ']', '\n', 'n', 'a', 'm', 'e', ' ', '=', ' ', '"']
                + w.name + seq!['"', '\n', 's', 'h', 'e', 'l', 'l', ' ', '=', ' ', '"'] + w.shell
                + seq![
                '"',
                '\n',
                'd',
                'e',
                'f',
                'a',
                'u',
                'l',
                't',
                '_',
                'p',
                'r',
                'o',
                'f',
                'i',
                'l',
                'e',
                ' ',
                '=',
                ' ',
                '"',
            ] + w.default_profile + seq!['"'];
            &&& workspace_text(w).len() > head.len()
            &&& workspace_text(w).take(head.len() as int) == head
            &&& workspace_text(w).last() == '\n'
        }),
{
    let head = seq!['[', 'c', 'o', 'n', 'f', 'i', 'g', ']', '\n', 'n', 'a', 'm', 'e', ' ', '=', ' ', '"']
        + w.name + seq!['"', '\n', 's', 'h', 'e', 'l', 'l', ' ', '=', ' ', '"'] + w.shell + seq![
        '"',
        '\n',
        'd',
        'e',
        'f',
        'a',
        'u',
        'l',
        't',
        '_',
        'p',
        'r',
        'o',
        'f',
        'i',
        'l',
        'e',
        ' ',
        '=',
        ' ',
        '"',
    ] + w.default_profile + seq!['"'];
    let full = config_text(w) + profiles_text(w.profiles);
    assert(full =~= head + (seq!['\n', '\n'] + profiles_text(w.profiles)));
    let b = lemma_trim_end_bounds(full);
    assert(full[head.len() - 1] == '"');
    assert(b >= head.len()) by {
        if b < head.len() {
            assert(is_space(full[head.len() - 1]));
        }
    }
    let t = trim_end(full);
    assert(t.take(head.len() as int) =~= head);
    assert(workspace_text(w) == t + newline());
    assert(workspace_text(w).take(head.len() as int) =~= head);
}

fn lowercase_is_fixed(word: Vec<char>) -> (r: bool)
    requires
        is_ascii_chars(word@),
        ascii_lowercase(word@) == word@,
    ensures
        r == (unicode_lowercase(word@) == word@),
        r,
{
    let s = string_of(&word, 0, word.len());
    assert(word@.subrange(0, word.len() as int) =~= word@);
    let low = to_lowercase(s.as_str());
    let low_chars = chars_of(low.as_str());
    same_chars(&low_chars, &word)
}

/// Whether the keys of the `[config]` section are their own lowercase, as
/// `str::to_lowercase` computes it; they are, being lowercase ASCII.
pub fn config_keys_are_lowercase() -> (r: bool)
    ensures
        r == keys_are_lowercase(),
        r,
{
    let name = vec!['n', 'a', 'm', 'e'];
    let shell = vec!['s', 'h', 'e', 'l', 'l'];
    let dp = vec!['d', 'e', 'f', 'a', 'u', 'l', 't', '_', 'p', 'r', 'o', 'f', 'i', 'l', 'e'];
    assert(name@ =~= name_key());
    assert(shell@ =~= shell_key());
    assert(dp@ =~= default_profile_key());
    assert(ascii_lowercase(name@) =~= name@);
    assert(ascii_lowercase(shell@) =~= shell@);
    assert(ascii_lowercase(dp@) =~= dp@);
    let a = lowercase_is_fixed(name);
    let b = lowercase_is_fixed(shell);
    let c = lowercase_is_fixed(dp);
    a && b && c
}

} // verus!
