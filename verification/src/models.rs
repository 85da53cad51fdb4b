//! Workspaces, their profiles, and the text format in which a user edits
//! them.
//!
//! The text of a workspace is a `[config]` section holding its name, shell
//! and default profile as `key = "value"` lines, followed by one
//! `[profile]` section per profile holding the profile's script.
use vstd::prelude::*;

use crate::text::{
    append_chars, chars_of, copy_range, find_char, first_index, is_space_char,
    join_lines, join_vec_lines, lines, same_chars, split_lines, string_of, to_lowercase, trim,
    trim_bounds, trim_end, trim_matches, trim_matches_bounds, unicode_lowercase, views,
};

verus! {

/// A named script of a workspace.
#[derive(Debug, Clone)]
pub struct Profile {
    pub name: String,
    pub content: String,
}

/// The configuration of one directory or repository.
#[derive(Debug, Clone)]
pub struct Workspace {
    pub id: String,
    pub name: String,
    pub shell: String,
    pub default_profile: String,
    pub profiles: Vec<Profile>,
}

/// A profile as a pair of its name and its content.
pub type ProfileModel = (Seq<char>, Seq<char>);

/// The mathematical value of a workspace.
pub struct WorkspaceModel {
    pub id: Seq<char>,
    pub name: Seq<char>,
    pub shell: Seq<char>,
    pub default_profile: Seq<char>,
    pub profiles: Seq<ProfileModel>,
}

impl View for Profile {
    type V = ProfileModel;

    open spec fn view(&self) -> ProfileModel {
        (self.name@, self.content@)
    }
}

pub open spec fn profile_views(ps: Seq<Profile>) -> Seq<ProfileModel> {
    ps.map_values(|p: Profile| p@)
}

impl View for Workspace {
    type V = WorkspaceModel;

    open spec fn view(&self) -> WorkspaceModel {
        WorkspaceModel {
            id: self.id@,
            name: self.name@,
            shell: self.shell@,
            default_profile: self.default_profile@,
            profiles: profile_views(self.profiles@),
        }
    }
}

// ---------------------------------------------------------------------------
// Fixed words of the format
// ---------------------------------------------------------------------------

pub open spec fn newline() -> Seq<char> {
    seq!['\n']
}

pub open spec fn config_word() -> Seq<char> {
    seq!['c', 'o', 'n', 'f', 'i', 'g']
}

pub open spec fn name_key() -> Seq<char> {
    seq!['n', 'a', 'm', 'e']
}

pub open spec fn shell_key() -> Seq<char> {
    seq!['s', 'h', 'e', 'l', 'l']
}

pub open spec fn default_profile_key() -> Seq<char> {
    seq!['d', 'e', 'f', 'a', 'u', 'l', 't', '_', 'p', 'r', 'o', 'f', 'i', 'l', 'e']
}

/// The name a workspace gets when its text names none.
pub open spec fn unknown_word() -> Seq<char> {
    seq!['u', 'n', 'k', 'n', 'o', 'w', 'n']
}

/// The shell of a new workspace, and of one whose text names none.
pub open spec fn bash_word() -> Seq<char> {
    seq!['b', 'a', 's', 'h']
}

/// The default profile of a new workspace, and of one whose text names none.
pub open spec fn test_word() -> Seq<char> {
    seq!['t', 'e', 's', 't']
}

/// The script of the profile of a new workspace.
pub open spec fn make_word() -> Seq<char> {
    seq!['m', 'a', 'k', 'e']
}

// ---------------------------------------------------------------------------
// Writing
// ---------------------------------------------------------------------------

/// `[name]`
pub open spec fn header_line(name: Seq<char>) -> Seq<char> {
    seq!['['] + name + seq![']']
}

/// `key = "value"`
pub open spec fn config_line(key: Seq<char>, value: Seq<char>) -> Seq<char> {
    key + seq![' ', '=', ' ', '"'] + value + seq!['"']
}

/// The `[config]` section followed by a blank line.
pub open spec fn config_text(w: WorkspaceModel) -> Seq<char> {
    header_line(config_word()) + newline() + config_line(name_key(), w.name) + newline()
        + config_line(shell_key(), w.shell) + newline() + config_line(
        default_profile_key(),
        w.default_profile,
    ) + newline() + newline()
}

/// A profile's section followed by a blank line.
pub open spec fn profile_text(p: ProfileModel) -> Seq<char> {
    header_line(p.0) + newline() + p.1 + newline() + newline()
}

pub open spec fn profiles_text(ps: Seq<ProfileModel>) -> Seq<char>
    decreases ps.len(),
{
    if ps.len() == 0 {
        seq![]
    } else {
        profiles_text(ps.drop_last()) + profile_text(ps.last())
    }
}

/// The text of a workspace: its sections, without trailing whitespace,
/// ended by one newline.
pub open spec fn workspace_text(w: WorkspaceModel) -> Seq<char> {
    trim_end(config_text(w) + profiles_text(w.profiles)) + newline()
}

// ---------------------------------------------------------------------------
// Reading
// ---------------------------------------------------------------------------

/// A trimmed line that opens a section: `[` ... `]`.
pub open spec fn is_header(t: Seq<char>) -> bool {
    t.len() >= 2 && t[0] == '[' && t.last() == ']'
}

pub open spec fn header_name(t: Seq<char>) -> Seq<char> {
    t.subrange(1, t.len() - 1)
}

/// The sections read so far, the name of the open section (empty when
/// none is open) and the lines it has collected.
pub struct ReadState {
    pub sections: Seq<ProfileModel>,
    pub current: Seq<char>,
    pub body: Seq<Seq<char>>,
}

pub open spec fn start_state() -> ReadState {
    ReadState { sections: seq![], current: seq![], body: seq![] }
}

/// The sections once the open one, if any, is closed.
pub open spec fn closed_sections(st: ReadState) -> Seq<ProfileModel> {
    if st.current.len() > 0 {
        st.sections.push((st.current, join_lines(st.body)))
    } else {
        st.sections
    }
}

/// Reading one line: a header closes the open section and opens its own;
/// a non-blank line joins the open section; anything else is skipped.
pub open spec fn read_line(st: ReadState, line: Seq<char>) -> ReadState {
    let t = trim(line);
    if is_header(t) {
        ReadState {
            sections: closed_sections(st),
            current: header_name(t),
            body: if st.current.len() > 0 {
                seq![]
            } else {
                st.body
            },
        }
    } else if st.current.len() > 0 && t.len() > 0 {
        ReadState { sections: st.sections, current: st.current, body: st.body.push(line) }
    } else {
        st
    }
}

pub open spec fn read_lines(st: ReadState, ls: Seq<Seq<char>>) -> ReadState
    decreases ls.len(),
{
    if ls.len() == 0 {
        st
    } else {
        read_lines(read_line(st, ls[0]), ls.drop_first())
    }
}

/// The sections of a text, each with its lines joined.
pub open spec fn text_sections(raw: Seq<char>) -> Seq<ProfileModel> {
    closed_sections(read_lines(start_state(), lines(raw)))
}

/// The index of the first section named `config`.
pub open spec fn config_position(secs: Seq<ProfileModel>) -> Option<nat>
    decreases secs.len(),
{
    if secs.len() == 0 {
        None
    } else if secs[0].0 == config_word() {
        Some(0)
    } else {
        match config_position(secs.drop_first()) {
            Some(k) => Some(k + 1),
            None => None,
        }
    }
}

/// A value without surrounding whitespace, then double quotes, then single
/// quotes.
pub open spec fn unquote(v: Seq<char>) -> Seq<char> {
    trim_matches(trim_matches(trim(v), '"'), '\'')
}

/// A `key = value` line: the lowercase trimmed text before the first `=`,
/// and the unquoted text after it.
pub open spec fn config_entry(line: Seq<char>) -> Option<(Seq<char>, Seq<char>)> {
    match first_index(line, '=') {
        Some(k) => Some(
            (unicode_lowercase(trim(line.take(k as int))), unquote(line.skip(k as int + 1))),
        ),
        None => None,
    }
}

/// The value of the last entry for `key` among `ls`, or `found` if none.
pub open spec fn lookup_from(found: Option<Seq<char>>, ls: Seq<Seq<char>>, key: Seq<char>) -> Option<
    Seq<char>,
>
    decreases ls.len(),
{
    if ls.len() == 0 {
        found
    } else {
        let next = match config_entry(ls[0]) {
            Some(e) => if e.0 == key {
                Some(e.1)
            } else {
                found
            },
            None => found,
        };
        lookup_from(next, ls.drop_first(), key)
    }
}

pub open spec fn value_or(o: Option<Seq<char>>, d: Seq<char>) -> Seq<char> {
    match o {
        Some(v) => v,
        None => d,
    }
}

/// The workspace that a text describes, if it has a `config` section: its
/// values come from the first such section, missing ones take their
/// defaults, and every other section is a profile, in order.
pub open spec fn parse_workspace(id: Seq<char>, raw: Seq<char>) -> Option<WorkspaceModel> {
    let secs = text_sections(raw);
    match config_position(secs) {
        None => None,
        Some(i) => {
            let entries = lines(secs[i as int].1);
            Some(
                WorkspaceModel {
                    id,
                    name: value_or(lookup_from(None, entries, name_key()), unknown_word()),
                    shell: value_or(lookup_from(None, entries, shell_key()), bash_word()),
                    default_profile: value_or(
                        lookup_from(None, entries, default_profile_key()),
                        test_word(),
                    ),
                    profiles: secs.remove(i as int),
                },
            )
        },
    }
}

// ---------------------------------------------------------------------------
// Profiles
// ---------------------------------------------------------------------------

/// The first profile of `ps` named `name`.
pub open spec fn find_profile(ps: Seq<ProfileModel>, name: Seq<char>) -> Option<ProfileModel>
    decreases ps.len(),
{
    if ps.len() == 0 {
        None
    } else if ps[0].0 == name {
        Some(ps[0])
    } else {
        find_profile(ps.drop_first(), name)
    }
}

/// Whether a line of the `[config]` section is an entry for `key`.
pub open spec fn names_key(line: Seq<char>, key: Seq<char>) -> bool {
    config_entry(line) is Some && config_entry(line).unwrap().0 == key
}

/// `v` is the value of the last entry for `key` among `ls`, or `d` when no
/// entry names `key`.
pub open spec fn is_last_value_or(ls: Seq<Seq<char>>, key: Seq<char>, d: Seq<char>, v: Seq<char>) -> bool {
    ||| (forall|k: int| 0 <= k < ls.len() ==> !names_key(#[trigger] ls[k], key)) && v == d
    ||| exists|k: int|
        0 <= k < ls.len() && names_key(#[trigger] ls[k], key) && config_entry(ls[k]).unwrap().1 == v
            && forall|m: int| k < m < ls.len() ==> !names_key(#[trigger] ls[m], key)
}

proof fn lemma_lookup_from(found: Option<Seq<char>>, ls: Seq<Seq<char>>, key: Seq<char>)
    ensures
        (forall|k: int| 0 <= k < ls.len() ==> !names_key(#[trigger] ls[k], key)) ==> lookup_from(
            found,
            ls,
            key,
        ) == found,
        forall|k: int|
            0 <= k < ls.len() && names_key(#[trigger] ls[k], key) && (forall|m: int|
                k < m < ls.len() ==> !names_key(#[trigger] ls[m], key)) ==> lookup_from(found, ls, key)
                == Some(config_entry(ls[k]).unwrap().1),
    decreases ls.len(),
{
    if ls.len() > 0 {
        let rest = ls.drop_first();
        let next = match config_entry(ls[0]) {
            Some(e) => if e.0 == key {
                Some(e.1)
            } else {
                found
            },
            None => found,
        };
        lemma_lookup_from(next, rest, key);
        assert forall|j: int| 0 <= j < rest.len() implies #[trigger] rest[j] == ls[j + 1] by {}
        if forall|k: int| 0 <= k < ls.len() ==> !names_key(#[trigger] ls[k], key) {
            assert forall|k: int| 0 <= k < rest.len() implies !names_key(#[trigger] rest[k], key) by {
                assert(rest[k] == ls[k + 1]);
            }
            assert(!names_key(ls[0], key));
        }
        assert forall|k: int|
            0 <= k < ls.len() && names_key(#[trigger] ls[k], key) && (forall|m: int|
                k < m < ls.len() ==> !names_key(#[trigger] ls[m], key)) implies lookup_from(
            found,
            ls,
            key,
        ) == Some(config_entry(ls[k]).unwrap().1) by {
            if k == 0 {
                assert forall|m: int| 0 <= m < rest.len() implies !names_key(#[trigger] rest[m], key) by {
                    assert(rest[m] == ls[m + 1]);
                }
            } else {
                assert(rest[k - 1] == ls[k]);
                assert forall|m: int| k - 1 < m < rest.len() implies !names_key(#[trigger] rest[m], key) by {
                    assert(rest[m] == ls[m + 1]);
                }
            }
        }
    }
}

proof fn lemma_value_read(ls: Seq<Seq<char>>, key: Seq<char>, d: Seq<char>)
    ensures
        is_last_value_or(ls, key, d, value_or(lookup_from(None, ls, key), d)),
{
    lemma_lookup_from(None, ls, key);
    if exists|k: int| 0 <= k < ls.len() && names_key(#[trigger] ls[k], key) {
        let k0 = choose|k: int| 0 <= k < ls.len() && names_key(#[trigger] ls[k], key);
        lemma_last_naming(ls, key, k0);
    }
}

proof fn lemma_last_naming(ls: Seq<Seq<char>>, key: Seq<char>, k0: int)
    requires
        0 <= k0 < ls.len(),
        names_key(ls[k0], key),
    ensures
        exists|k: int|
            0 <= k < ls.len() && names_key(#[trigger] ls[k], key) && forall|m: int|
                k < m < ls.len() ==> !names_key(#[trigger] ls[m], key),
    decreases ls.len() - k0,
{
    if exists|m: int| k0 < m < ls.len() && names_key(#[trigger] ls[m], key) {
        let m = choose|m: int| k0 < m < ls.len() && names_key(#[trigger] ls[m], key);
        lemma_last_naming(ls, key, m);
    } else {
        assert(forall|m: int| k0 < m < ls.len() ==> !names_key(#[trigger] ls[m], key));
    }
}

/// The values read from a text are those of the last entry for each key
/// in its first `[config]` section (keys compared after trimming and
/// lowercasing), and the defaults `unknown`, `bash` and `test` for keys
/// that no entry names.
pub proof fn lemma_parse_values(id: Seq<char>, raw: Seq<char>)
    ensures
        ({
            let secs = text_sections(raw);
            config_position(secs) matches Some(i) ==> ({
                let entries = lines(secs[i as int].1);
                &&& parse_workspace(id, raw) is Some
                &&& is_last_value_or(entries, name_key(), unknown_word(), parse_workspace(id, raw).unwrap().name)
                &&& is_last_value_or(entries, shell_key(), bash_word(), parse_workspace(id, raw).unwrap().shell)
                &&& is_last_value_or(
                    entries,
                    default_profile_key(),
                    test_word(),
                    parse_workspace(id, raw).unwrap().default_profile,
                )
            })
        }),
{
    let secs = text_sections(raw);
    if let Some(i) = config_position(secs) {
        let entries = lines(secs[i as int].1);
        lemma_value_read(entries, name_key(), unknown_word());
        lemma_value_read(entries, shell_key(), bash_word());
        lemma_value_read(entries, default_profile_key(), test_word());
    }
}

/// Reading a text keeps every section other than its first `[config]`
/// section as a profile, wherever it stands, in the order of the text:
/// the sections before `[config]` come first, then those after it.
pub proof fn lemma_parse_keeps_other_sections(id: Seq<char>, raw: Seq<char>)
    ensures
        ({
            let secs = text_sections(raw);
            match config_position(secs) {
                None => parse_workspace(id, raw) is None,
                Some(i) => {
                    &&& i < secs.len()
                    &&& secs[i as int].0 == config_word()
                    &&& forall|k: int| 0 <= k < i ==> (#[trigger] secs[k]).0 != config_word()
                    &&& parse_workspace(id, raw) matches Some(w) && w.id == id
                        && w.profiles.len() + 1 == secs.len() && (forall|k: int|
                        0 <= k < i ==> #[trigger] w.profiles[k] == secs[k]) && (forall|k: int|
                        i <= k < w.profiles.len() ==> #[trigger] w.profiles[k] == secs[k + 1])
                },
            }
        }),
{
    let secs = text_sections(raw);
    lemma_config_position(secs);
}

proof fn lemma_config_position(secs: Seq<ProfileModel>)
    ensures
        config_position(secs) matches Some(i) ==> i < secs.len() && secs[i as int].0
            == config_word() && forall|k: int| 0 <= k < i ==> (#[trigger] secs[k]).0 != config_word(),
    decreases secs.len(),
{
    if secs.len() > 0 && secs[0].0 != config_word() {
        let rest = secs.drop_first();
        lemma_config_position(rest);
        if let Some(j) = config_position(rest) {
            assert(secs[j as int + 1] == rest[j as int]);
            assert forall|k: int| 0 <= k < j + 1 implies (#[trigger] secs[k]).0 != config_word() by {
                if k > 0 {
                    assert(secs[k] == rest[k - 1]);
                }
            }
        }
    }
}

/// The profile found by name is the first one of that name; when none is
/// found, no profile has that name.
pub proof fn lemma_find_profile_first(ps: Seq<ProfileModel>, name: Seq<char>)
    ensures
        match find_profile(ps, name) {
            Some(p) => exists|i: int|
                0 <= i < ps.len() && ps[i] == p && p.0 == name && forall|j: int|
                    0 <= j < i ==> (#[trigger] ps[j]).0 != name,
            None => forall|i: int| 0 <= i < ps.len() ==> (#[trigger] ps[i]).0 != name,
        },
    decreases ps.len(),
{
    if ps.len() > 0 {
        let rest = ps.drop_first();
        lemma_find_profile_first(rest, name);
        if ps[0].0 == name {
            assert(ps[0] == ps[0] && forall|j: int| 0 <= j < 0 ==> (#[trigger] ps[j]).0 != name);
        } else {
            match find_profile(rest, name) {
                Some(p) => {
                    let i = choose|i: int|
                        0 <= i < rest.len() && rest[i] == p && p.0 == name && forall|j: int|
                            0 <= j < i ==> (#[trigger] rest[j]).0 != name;
                    assert(ps[i + 1] == p);
                    assert forall|j: int| 0 <= j < i + 1 implies (#[trigger] ps[j]).0 != name by {
                        if j > 0 {
                            assert(ps[j] == rest[j - 1]);
                        }
                    }
                },
                None => {
                    assert forall|i: int| 0 <= i < ps.len() implies (#[trigger] ps[i]).0 != name by {
                        if i > 0 {
                            assert(ps[i] == rest[i - 1]);
                        }
                    }
                },
            }
        }
    }
}

/// The workspace that `Workspace::new` builds.
pub open spec fn new_workspace(id: Seq<char>, name: Seq<char>) -> WorkspaceModel {
    WorkspaceModel {
        id,
        name,
        shell: bash_word(),
        default_profile: test_word(),
        profiles: seq![(test_word(), make_word())],
    }
}


// ---------------------------------------------------------------------------
// The fixed words as characters
// ---------------------------------------------------------------------------

fn config_word_chars() -> (r: Vec<char>)
    ensures
        r@ == config_word(),
{
    let r = vec!['c', 'o', 'n', 'f', 'i', 'g'];
    assert(r@ =~= config_word());
    r
}

fn name_key_chars() -> (r: Vec<char>)
    ensures
        r@ == name_key(),
{
    let r = vec!['n', 'a', 'm', 'e'];
    assert(r@ =~= name_key());
    r
}

fn shell_key_chars() -> (r: Vec<char>)
    ensures
        r@ == shell_key(),
{
    let r = vec!['s', 'h', 'e', 'l', 'l'];
    assert(r@ =~= shell_key());
    r
}

fn default_profile_key_chars() -> (r: Vec<char>)
    ensures
        r@ == default_profile_key(),
{
    let r = vec!['d', 'e', 'f', 'a', 'u', 'l', 't', '_', 'p', 'r', 'o', 'f', 'i', 'l', 'e'];
    assert(r@ =~= default_profile_key());
    r
}

fn word_string(v: Vec<char>) -> (s: String)
    ensures
        s@ == v@,
{
    let s = string_of(&v, 0, v.len());
    assert(v@.subrange(0, v.len() as int) =~= v@);
    s
}

fn unknown_string() -> (s: String)
    ensures
        s@ == unknown_word(),
{
    let v = vec!['u', 'n', 'k', 'n', 'o', 'w', 'n'];
    assert(v@ =~= unknown_word());
    word_string(v)
}

fn bash_string() -> (s: String)
    ensures
        s@ == bash_word(),
{
    let v = vec!['b', 'a', 's', 'h'];
    assert(v@ =~= bash_word());
    word_string(v)
}

fn test_string() -> (s: String)
    ensures
        s@ == test_word(),
{
    let v = vec!['t', 'e', 's', 't'];
    assert(v@ =~= test_word());
    word_string(v)
}

fn make_string() -> (s: String)
    ensures
        s@ == make_word(),
{
    let v = vec!['m', 'a', 'k', 'e'];
    assert(v@ =~= make_word());
    word_string(v)
}

// ---------------------------------------------------------------------------
// Executable reading helpers
// ---------------------------------------------------------------------------

pub open spec fn section_views(v: Seq<(Vec<char>, Vec<char>)>) -> Seq<ProfileModel> {
    v.map_values(|p: (Vec<char>, Vec<char>)| (p.0@, p.1@))
}

pub open spec fn option_view(o: Option<Vec<char>>) -> Option<Seq<char>> {
    match o {
        Some(v) => Some(v@),
        None => None,
    }
}

/// The sections of the lines `ls`, each with its lines joined.
fn read_sections(ls: &Vec<Vec<char>>) -> (r: Vec<(Vec<char>, Vec<char>)>)
    ensures
        section_views(r@) == closed_sections(read_lines(start_state(), views(ls@))),
{
    let mut sections: Vec<(Vec<char>, Vec<char>)> = Vec::new();
    let mut current: Vec<char> = Vec::new();
    let mut body: Vec<Vec<char>> = Vec::new();
    let ghost all = views(ls@);
    let mut i: usize = 0;
    assert(all.skip(0) =~= all);
    assert(section_views(sections@) =~= Seq::<ProfileModel>::empty());
    assert(views(body@) =~= Seq::<Seq<char>>::empty());
    while i < ls.len()
        invariant
            i <= ls.len(),
            all == views(ls@),
            read_lines(
                ReadState { sections: section_views(sections@), current: current@, body: views(body@) },
                all.skip(i as int),
            ) == read_lines(start_state(), all),
        decreases ls.len() - i,
    {
        let l = &ls[i];
        let ghost st = ReadState {
            sections: section_views(sections@),
            current: current@,
            body: views(body@),
        };
        assert(all.skip(i as int)[0] == l@);
        assert(all.skip(i as int).drop_first() =~= all.skip(i + 1));
        let ghost next = read_line(st, l@);
        let (a, b) = trim_bounds(l, 0, l.len());
        assert(l@.subrange(0, l.len() as int) =~= l@);
        if b - a >= 2 && l[a] == '[' && l[b - 1] == ']' {
            if current.len() > 0 {
                let joined = join_vec_lines(&body);
                let ghost cur_view = current@;
                sections.push((current, joined));
                assert(section_views(sections@) =~= st.sections.push((cur_view, join_lines(st.body))));
                body = Vec::new();
                assert(views(body@) =~= Seq::<Seq<char>>::empty());
            }
            current = copy_range(l, a + 1, b - 1);
            assert(current@ =~= header_name(l@.subrange(a as int, b as int)));
        } else if current.len() > 0 && b > a {
            let ghost before = views(body@);
            body.push(copy_range(l, 0, l.len()));
            assert(views(body@) =~= before.push(l@));
        }
        assert((ReadState {
            sections: section_views(sections@),
            current: current@,
            body: views(body@),
        }) == next);
        i += 1;
    }
    assert(all.skip(i as int) =~= Seq::<Seq<char>>::empty());
    if current.len() > 0 {
        let joined = join_vec_lines(&body);
        let ghost before = section_views(sections@);
        let ghost cur_view = current@;
        sections.push((current, joined));
        assert(section_views(sections@) =~= before.push((cur_view, join_lines(views(body@)))));
    }
    sections
}

/// The index of the first section named `config`.
fn find_config(sections: &Vec<(Vec<char>, Vec<char>)>) -> (r: Option<usize>)
    ensures
        match config_position(section_views(sections@)) {
            Some(k) => r is Some && r.unwrap() == k,
            None => r is None,
        },
        r matches Some(j) ==> j < sections.len(),
{
    let word = config_word_chars();
    let ghost all = section_views(sections@);
    let mut j: usize = 0;
    assert(all.skip(0) =~= all);
    while j < sections.len()
        invariant
            j <= sections.len(),
            all == section_views(sections@),
            word@ == config_word(),
            config_position(all) == match config_position(all.skip(j as int)) {
                Some(k) => Some((k + j) as nat),
                None => None,
            },
        decreases sections.len() - j,
    {
        assert(all.skip(j as int).drop_first() =~= all.skip(j + 1));
        assert(all.skip(j as int)[0] == all[j as int]);
        if same_chars(&sections[j].0, &word) {
            return Some(j);
        }
        j += 1;
    }
    None
}

/// The last values for the three keys among the entries `ls`.
fn read_entries(ls: &Vec<Vec<char>>) -> (r: (Option<Vec<char>>, Option<Vec<char>>, Option<Vec<char>>))
    ensures
        option_view(r.0) == lookup_from(None, views(ls@), name_key()),
        option_view(r.1) == lookup_from(None, views(ls@), shell_key()),
        option_view(r.2) == lookup_from(None, views(ls@), default_profile_key()),
{
    let name_k = name_key_chars();
    let shell_k = shell_key_chars();
    let dp_k = default_profile_key_chars();
    let mut name_v: Option<Vec<char>> = None;
    let mut shell_v: Option<Vec<char>> = None;
    let mut dp_v: Option<Vec<char>> = None;
    let ghost all = views(ls@);
    assert(all.skip(0) =~= all);
    let mut k: usize = 0;
    while k < ls.len()
        invariant
            k <= ls.len(),
            all == views(ls@),
            name_k@ == name_key(),
            shell_k@ == shell_key(),
            dp_k@ == default_profile_key(),
            lookup_from(option_view(name_v), all.skip(k as int), name_key()) == lookup_from(
                None,
                all,
                name_key(),
            ),
            lookup_from(option_view(shell_v), all.skip(k as int), shell_key()) == lookup_from(
                None,
                all,
                shell_key(),
            ),
            lookup_from(option_view(dp_v), all.skip(k as int), default_profile_key())
                == lookup_from(None, all, default_profile_key()),
        decreases ls.len() - k,
    {
        let e = &ls[k];
        assert(all.skip(k as int)[0] == e@);
        assert(all.skip(k as int).drop_first() =~= all.skip(k + 1));
        assert(e@.subrange(0, e.len() as int) =~= e@);
        match find_char(e, 0, e.len(), '=') {
            Some(p) => {
                let (a, b) = trim_bounds(e, 0, p);
                assert(e@.take(p as int) =~= e@.subrange(0, p as int));
                let key = string_of(e, a, b);
                let low = to_lowercase(key.as_str());
                let low_chars = chars_of(low.as_str());
                let (c1, d1) = trim_bounds(e, p + 1, e.len());
                assert(e@.skip(p + 1) =~= e@.subrange(p + 1, e.len() as int));
                let (c2, d2) = trim_matches_bounds(e, c1, d1, '"');
                let (c3, d3) = trim_matches_bounds(e, c2, d2, '\'');
                let value = copy_range(e, c3, d3);
                assert(first_index(e@, '=') == Some(p as nat));
                assert(trim(e@.take(p as int)) == key@);
                assert(low_chars@ == unicode_lowercase(trim(e@.take(p as int))));
                assert(value@ == unquote(e@.skip(p + 1)));
                assert(config_entry(e@) == Some((low_chars@, value@)));
                if same_chars(&low_chars, &name_k) {
                    name_v = Some(value);
                } else if same_chars(&low_chars, &shell_k) {
                    shell_v = Some(value);
                } else if same_chars(&low_chars, &dp_k) {
                    dp_v = Some(value);
                }
            },
            None => {
                assert(config_entry(e@) is None);
            },
        }
        k += 1;
    }
    (name_v, shell_v, dp_v)
}

fn string_or(o: Option<Vec<char>>, d: String) -> (s: String)
    ensures
        s@ == value_or(option_view(o), d@),
{
    match o {
        Some(v) => word_string(v),
        None => d,
    }
}

// ---------------------------------------------------------------------------
// Operations
// ---------------------------------------------------------------------------

fn append_config_line(out: &mut Vec<char>, key: &Vec<char>, value: &String)
    ensures
        final(out)@ == old(out)@ + config_line(key@, value@) + newline(),
{
    let eq_quote = vec![' ', '=', ' ', '"'];
    let quote_nl = vec!['"', '\n'];
    let v = chars_of(value.as_str());
    append_chars(out, key);
    append_chars(out, &eq_quote);
    append_chars(out, &v);
    append_chars(out, &quote_nl);
    assert(final(out)@ =~= old(out)@ + config_line(key@, value@) + newline());
}

impl Workspace {
    fn append_config_text(&self, out: &mut Vec<char>)
        ensures
            final(out)@ == old(out)@ + config_text(self@),
    {
        let header = vec!['[', 'c', 'o', 'n', 'f', 'i', 'g', ']', '\n'];
        append_chars(out, &header);
        append_config_line(out, &name_key_chars(), &self.name);
        append_config_line(out, &shell_key_chars(), &self.shell);
        append_config_line(out, &default_profile_key_chars(), &self.default_profile);
        out.push('\n');
        assert(final(out)@ =~= old(out)@ + config_text(self@));
    }
}

impl Workspace {
    /// A new workspace with the shell `bash` and one profile, `test`, that
    /// runs `make`.
    pub fn new(id: &str, name: &str) -> (w: Self)
        ensures
            w@ == new_workspace(id@, name@),
            w@.id == id@,
            w@.name == name@,
            w@.shell == seq!['b', 'a', 's', 'h'],
            w@.default_profile == seq!['t', 'e', 's', 't'],
            w@.profiles == seq![(seq!['t', 'e', 's', 't'], seq!['m', 'a', 'k', 'e'])],
    {
        let profile = Profile { name: test_string(), content: make_string() };
        let profiles = vec![profile];
        let w = Workspace {
            id: id.to_owned(),
            name: name.to_owned(),
            shell: bash_string(),
            default_profile: test_string(),
            profiles,
        };
        assert(w@.profiles =~= seq![(test_word(), make_word())]);
        w
    }

    /// The text of the workspace, as the editor shows it.
    pub fn to_text(&self) -> (r: String)
        ensures
            r@ == workspace_text(self@),
    {
        let mut out: Vec<char> = Vec::new();
        let open = vec!['['];
        let close_nl = vec![']', '\n'];
        let nl = vec!['\n'];
        self.append_config_text(&mut out);
        assert(out@ =~= config_text(self@));
        let ghost ps = self@.profiles;
        let mut i: usize = 0;
        assert(ps.take(0) =~= Seq::<ProfileModel>::empty());
        while i < self.profiles.len()
            invariant
                i <= self.profiles.len(),
                ps == self@.profiles,
                open@ == seq!['['],
                close_nl@ == seq![']', '\n'],
                nl@ == seq!['\n'],
                out@ == config_text(self@) + profiles_text(ps.take(i as int)),
            decreases self.profiles.len() - i,
        {
            let p = &self.profiles[i];
            let ghost before = out@;
            append_chars(&mut out, &open);
            append_chars(&mut out, &chars_of(p.name.as_str()));
            append_chars(&mut out, &close_nl);
            append_chars(&mut out, &chars_of(p.content.as_str()));
            append_chars(&mut out, &nl);
            append_chars(&mut out, &nl);
            assert(ps.take(i + 1).drop_last() =~= ps.take(i as int));
            assert(ps.take(i + 1).last() == p@);
            assert(out@ =~= before + profile_text(p@));
            i += 1;
        }
        assert(ps.take(i as int) =~= ps);
        let ghost full = out@;
        let mut end = out.len();
        assert(out@.subrange(0, end as int) =~= full);
        while end > 0 && is_space_char(out[end - 1])
            invariant
                end <= out.len(),
                out@ == full,
                trim_end(out@.subrange(0, end as int)) == trim_end(full),
            decreases end,
        {
            assert(out@.subrange(0, end as int).drop_last() =~= out@.subrange(0, end - 1));
            end -= 1;
        }
        let mut r = string_of(&out, 0, end);
        crate::text::push_char(&mut r, '\n');
        r
    }

    /// The workspace that the text `raw` describes, under the id `id`, or
    /// `None` when the text has no `[config]` section.
    pub fn from_text(id: &str, raw: &str) -> (r: Option<Self>)
        ensures
            match r {
                Some(w) => parse_workspace(id@, raw@) == Some(w@),
                None => parse_workspace(id@, raw@) is None,
            },
    {
        let raw_chars = chars_of(raw);
        let ls = split_lines(&raw_chars);
        let mut sections = read_sections(&ls);
        let ghost secs = section_views(sections@);
        let pos = find_config(&sections);
        let idx = match pos {
            Some(j) => j,
            None => return None,
        };
        assert(secs == text_sections(raw@));
        assert(config_position(secs) == Some(idx as nat));
        let (_, config_content) = sections.remove(idx);
        assert(config_content@ == secs[idx as int].1);
        assert(section_views(sections@) =~= secs.remove(idx as int));
        let entries = split_lines(&config_content);
        let (name_v, shell_v, dp_v) = read_entries(&entries);
        let mut profiles: Vec<Profile> = Vec::new();
        let mut j: usize = 0;
        while j < sections.len()
            invariant
                j <= sections.len(),
                profile_views(profiles@) == section_views(sections@).take(j as int),
            decreases sections.len() - j,
        {
            let sec = &sections[j];
            let ghost before = profile_views(profiles@);
            let p = Profile {
                name: word_string(copy_range(&sec.0, 0, sec.0.len())),
                content: word_string(copy_range(&sec.1, 0, sec.1.len())),
            };
            assert(sec.0@.subrange(0, sec.0.len() as int) =~= sec.0@);
            assert(sec.1@.subrange(0, sec.1.len() as int) =~= sec.1@);
            profiles.push(p);
            assert(profile_views(profiles@) =~= before.push(p@));
            assert(section_views(sections@).take(j + 1) =~= section_views(sections@).take(
                j as int,
            ).push((sec.0@, sec.1@)));
            j += 1;
        }
        assert(section_views(sections@).take(j as int) =~= section_views(sections@));
        let w = Workspace {
            id: id.to_owned(),
            name: string_or(name_v, unknown_string()),
            shell: string_or(shell_v, bash_string()),
            default_profile: string_or(dp_v, test_string()),
            profiles,
        };
        Some(w)
    }

    /// The first profile named `name`, if any.
    pub fn get_profile(&self, name: &str) -> (r: Option<&Profile>)
        ensures
            match r {
                Some(p) => find_profile(self@.profiles, name@) == Some(p@),
                None => find_profile(self@.profiles, name@) is None,
            },
    {
        let target = name.to_owned();
        let ghost ps = self@.profiles;
        let mut i: usize = 0;
        assert(ps.skip(0) =~= ps);
        while i < self.profiles.len()
            invariant
                i <= self.profiles.len(),
                ps == self@.profiles,
                target@ == name@,
                find_profile(ps, name@) == find_profile(ps.skip(i as int), name@),
            decreases self.profiles.len() - i,
        {
            assert(ps.skip(i as int).drop_first() =~= ps.skip(i + 1));
            assert(ps.skip(i as int)[0] == self.profiles[i as int]@);
            if self.profiles[i].name == target {
                return Some(&self.profiles[i]);
            }
            i += 1;
        }
        None
    }
}

} // verus!
