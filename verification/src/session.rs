//! The decisions that the two tools take around a workspace: which
//! workspace the arguments designate, what a new workspace is called, and
//! which profile a run executes.
use vstd::prelude::*;

use crate::cli::{Commands, CommonArgs};
use crate::models::{
    find_profile, make_word, new_workspace, parse_workspace, test_word, unknown_word, value_or,
    workspace_text, Profile, Workspace,
};
use crate::round_trip::{
    body_line_ok, keys_are_lowercase, lemma_text_round_trip, quotable,
    writes_back,
};
use crate::text::{has_no, split_newlines, split_on, split_on_char, trim, views};

verus! {

/// How the target workspace is found.
#[derive(Debug, Clone, PartialEq, Eq)]
pub enum WorkspaceQuery {
    /// By its name, as registered.
    ByName(String),
    /// By the identity of this directory.
    ByDir(String),
}

/// The workspace the arguments designate: the named one if a name is
/// given, else the one of the target directory `dir`.
pub fn workspace_query(common: &CommonArgs, dir: &str) -> (r: WorkspaceQuery)
    ensures
        match common.workspace {
            Some(n) => r == WorkspaceQuery::ByName(n),
            None => r matches WorkspaceQuery::ByDir(d) && d@ == dir@,
        },
{
    match &common.workspace {
        Some(n) => WorkspaceQuery::ByName(n.clone()),
        None => WorkspaceQuery::ByDir(dir.to_owned()),
    }
}

/// Why the tools cannot go on.
#[derive(Debug, Clone, PartialEq, Eq)]
pub enum SessionError {
    /// No workspace is registered under this name.
    WorkspaceNotFound(String),
    /// The workspace has no profile of this name.
    ProfileNotFound { profile: String, workspace: String },
}

/// The id registered for the workspace `name`, given what the lookup by
/// name found.
pub fn workspace_id_by_name(name: &str, found: Option<String>) -> (r: Result<String, SessionError>)
    ensures
        match found {
            Some(id) => r == Ok::<String, SessionError>(id),
            None => r matches Err(SessionError::WorkspaceNotFound(n)) && n@ == name@,
        },
{
    match found {
        Some(id) => Ok(id),
        None => Err(SessionError::WorkspaceNotFound(name.to_owned())),
    }
}

/// The last non-empty piece of a path.
pub open spec fn last_nonempty(pieces: Seq<Seq<char>>) -> Option<Seq<char>>
    decreases pieces.len(),
{
    if pieces.len() == 0 {
        None
    } else if pieces.last().len() > 0 {
        Some(pieces.last())
    } else {
        last_nonempty(pieces.drop_last())
    }
}

/// The name a new workspace gets: the last non-empty `/`-separated
/// component of its directory, or `unknown`.
pub open spec fn directory_label(dir: Seq<char>) -> Seq<char> {
    value_or(last_nonempty(split_on(seq![], seq![], dir, '/')), unknown_word())
}

proof fn lemma_split_on_no_sep(d: Seq<Seq<char>>, c: Seq<char>, s: Seq<char>, sep: char)
    requires
        has_no(s, sep),
    ensures
        split_on(d, c, s, sep) == d.push(c + s),
    decreases s.len(),
{
    if s.len() == 0 {
        assert(c + s =~= c);
    } else {
        assert(s[0] != sep);
        lemma_split_on_no_sep(d, c.push(s[0]), s.drop_first(), sep);
        assert(c.push(s[0]) + s.drop_first() =~= c + s);
    }
}

proof fn lemma_split_on_last_piece(
    d: Seq<Seq<char>>,
    c: Seq<char>,
    a: Seq<char>,
    s: Seq<char>,
    sep: char,
)
    requires
        has_no(s, sep),
    ensures
        split_on(d, c, a + seq![sep] + s, sep) == split_on(d, c, a, sep).push(s),
    decreases a.len(),
{
    let x = a + seq![sep] + s;
    if a.len() == 0 {
        assert(x.drop_first() =~= s);
        assert(x[0] == sep);
        lemma_split_on_no_sep(d.push(c), seq![], s, sep);
        assert(Seq::<char>::empty() + s =~= s);
    } else {
        assert(x.drop_first() =~= a.drop_first() + seq![sep] + s);
        assert(x[0] == a[0]);
        if a[0] == sep {
            lemma_split_on_last_piece(d.push(c), seq![], a.drop_first(), s, sep);
        } else {
            lemma_split_on_last_piece(d, c.push(a[0]), a.drop_first(), s, sep);
        }
    }
}

/// The name of a new workspace is the last component of its directory,
/// verbatim: a path that ends with `/` and a non-empty component without
/// `/` is named after that component.
pub proof fn lemma_directory_label_last_component(p: Seq<char>, s: Seq<char>)
    requires
        s.len() > 0,
        has_no(s, '/'),
    ensures
        directory_label(p + seq!['/'] + s) == s,
{
    lemma_split_on_last_piece(seq![], seq![], p, s, '/');
    let x = split_on(seq![], seq![], p, '/').push(s);
    assert(x.last() == s);
}

/// A directory name without `/` names the workspace as it stands.
pub proof fn lemma_directory_label_plain(s: Seq<char>)
    requires
        s.len() > 0,
        has_no(s, '/'),
    ensures
        directory_label(s) == s,
{
    lemma_split_on_no_sep(seq![], seq![], s, '/');
    assert(Seq::<char>::empty() + s =~= s);
}

/// A trailing `/` does not change the name.
pub proof fn lemma_directory_label_trailing_slash(p: Seq<char>)
    ensures
        directory_label(p + seq!['/']) == directory_label(p),
{
    let e: Seq<char> = seq![];
    lemma_split_on_last_piece(seq![], seq![], p, e, '/');
    assert(p + seq!['/'] + e =~= p + seq!['/']);
    let x = split_on(seq![], seq![], p, '/');
    assert(x.push(e).drop_last() =~= x);
}

/// The name for a new workspace in the directory `dir`.
pub fn dir_label(dir: &str) -> (r: String)
    ensures
        r@ == directory_label(dir@),
{
    let cs = crate::text::chars_of(dir);
    let pieces = split_on_char(&cs, '/');
    let ghost all = views(pieces@);
    let mut k = pieces.len();
    assert(all.take(k as int) =~= all);
    while k > 0
        invariant
            k <= pieces.len(),
            all == views(pieces@),
            all == split_on(seq![], seq![], dir@, '/'),
            last_nonempty(all) == last_nonempty(all.take(k as int)),
        decreases k,
    {
        let ghost t = all.take(k as int);
        assert(t.drop_last() =~= all.take(k - 1));
        assert(t.last() == pieces[k - 1]@);
        if pieces[k - 1].len() > 0 {
            let p = &pieces[k - 1];
            let s = crate::text::string_of(p, 0, p.len());
            assert(p@.subrange(0, p.len() as int) =~= p@);
            assert(last_nonempty(t) == Some(p@));
            assert(all == split_on(seq![], seq![], dir@, '/'));
            return s;
        }
        k -= 1;
    }
    assert(all.take(0) =~= Seq::<Seq<char>>::empty());
    let v = vec!['u', 'n', 'k', 'n', 'o', 'w', 'n'];
    let s = crate::text::string_of(&v, 0, v.len());
    assert(s@ =~= unknown_word());
    s
}

/// The name of the profile a run executes: the one asked for, else the
/// workspace's default.
pub open spec fn target_profile(w_default: Seq<char>, requested: Option<Seq<char>>) -> Seq<char> {
    match requested {
        Some(p) => p,
        None => w_default,
    }
}

/// A run executes the profile named as asked, verbatim, or, when nothing
/// is asked, the workspace's default profile.
pub proof fn lemma_target_profile(default: Seq<char>, requested: Seq<char>)
    ensures
        target_profile(default, Some(requested)) == requested,
        target_profile(default, None) == default,
{
}

pub open spec fn option_str_view(o: Option<&str>) -> Option<Seq<char>> {
    match o {
        Some(s) => Some(s@),
        None => None,
    }
}

/// The profile a run executes: the first one named as asked, or as the
/// workspace's default when nothing is asked.
pub fn profile_to_run<'a>(ws: &'a Workspace, requested: Option<&str>) -> (r: Result<
    &'a Profile,
    SessionError,
>)
    ensures
        ({
            let target = target_profile(ws@.default_profile, option_str_view(requested));
            match r {
                Ok(p) => find_profile(ws@.profiles, target) == Some(p@),
                Err(e) => {
                    &&& find_profile(ws@.profiles, target) is None
                    &&& e matches SessionError::ProfileNotFound { profile, workspace }
                    &&& profile@ == target
                    &&& workspace@ == ws@.name
                },
            }
        }),
        ({
            let wanted = match requested {
                Some(n) => n@,
                None => ws@.default_profile,
            };
            &&& r matches Ok(p) ==> p.name@ == wanted && exists|i: int|
                0 <= i < ws@.profiles.len() && ws@.profiles[i] == p@ && forall|j: int|
                    0 <= j < i ==> (#[trigger] ws@.profiles[j]).0 != wanted
            &&& (exists|i: int| 0 <= i < ws@.profiles.len() && (#[trigger] ws@.profiles[i]).0 == wanted)
                ==> r is Ok
            &&& r matches Err(SessionError::ProfileNotFound { profile, workspace }) ==> profile@
                == wanted
        }),
{
    proof {
        crate::models::lemma_find_profile_first(
            ws@.profiles,
            target_profile(ws@.default_profile, option_str_view(requested)),
        );
    }
    let target: &str = match requested {
        Some(p) => p,
        None => ws.default_profile.as_str(),
    };
    match ws.get_profile(target) {
        Some(p) => Ok(p),
        None => Err(
            SessionError::ProfileNotFound { profile: target.to_owned(), workspace: ws.name.clone() },
        ),
    }
}

// ---------------------------------------------------------------------------
// The steps of `krun`
// ---------------------------------------------------------------------------

/// What `krun` does next.
#[derive(Debug)]
pub enum KrunAction {
    /// Stop: the directory's workspace is already set up.
    AlreadyInitialized,
    /// Stop with an error: the command needs a workspace and there is none.
    MissingWorkspace,
    /// Learn the identity of the target directory.
    ResolveId,
    /// Open the editor on `text`; the edited text describes the workspace
    /// `id`, a new one when `creating`.
    OpenEditor { id: String, text: String, creating: bool },
    /// Save this workspace.
    Save { workspace: Workspace, creating: bool },
    /// Stop: the edited text has no `[config]` section; nothing is saved.
    Abort { creating: bool },
    /// Ask whether to delete the workspace `name`, whose id is `id`.
    ConfirmRemove { id: String, name: String },
    /// Delete the workspace `id`.
    Delete { id: String },
    /// Stop: the workspace is kept.
    Keep,
    /// Run `script` with `shell`.
    RunScript { shell: String, script: String },
    /// Stop with an error.
    Fail(SessionError),
}

/// The next step once the target workspace has been looked up: `init`
/// stops if there is one and otherwise needs the directory's identity;
/// the other commands need one, then edit it, ask before removing it, or
/// run its profile.
pub fn after_lookup(command: &Commands, found: Option<Workspace>) -> (r: KrunAction)
    ensures
        match *command {
            Commands::Init => if found is Some {
                r is AlreadyInitialized
            } else {
                r is ResolveId
            },
            Commands::Edit => match found {
                None => r is MissingWorkspace,
                Some(w) => {
                    &&& r matches KrunAction::OpenEditor { id, text, creating }
                    &&& id@ == w@.id
                    &&& text@ == workspace_text(w@)
                    &&& !creating
                },
            },
            Commands::Remove => match found {
                None => r is MissingWorkspace,
                Some(w) => {
                    &&& r matches KrunAction::ConfirmRemove { id, name }
                    &&& id@ == w@.id
                    &&& name@ == w@.name
                },
            },
            Commands::Run { profile } => match found {
                None => r is MissingWorkspace,
                Some(w) => {
                    let target = target_profile(w@.default_profile, option_string_view(profile));
                    match find_profile(w@.profiles, target) {
                        Some(p) => {
                            &&& r matches KrunAction::RunScript { shell, script }
                            &&& shell@ == w@.shell
                            &&& script@ == p.1
                        },
                        None => {
                            &&& r matches KrunAction::Fail(SessionError::ProfileNotFound { profile, workspace })
                            &&& profile@ == target
                            &&& workspace@ == w@.name
                        },
                    }
                },
            },
        },
{
    match command {
        Commands::Init => match found {
            Some(_) => KrunAction::AlreadyInitialized,
            None => KrunAction::ResolveId,
        },
        Commands::Edit => match found {
            None => KrunAction::MissingWorkspace,
            Some(w) => KrunAction::OpenEditor { id: w.id.clone(), text: w.to_text(), creating: false },
        },
        Commands::Remove => match found {
            None => KrunAction::MissingWorkspace,
            Some(w) => KrunAction::ConfirmRemove { id: w.id.clone(), name: w.name.clone() },
        },
        Commands::Run { profile } => match found {
            None => KrunAction::MissingWorkspace,
            Some(w) => {
                let requested: Option<&str> = match profile {
                    Some(p) => Some(p.as_str()),
                    None => None,
                };
                match profile_to_run(&w, requested) {
                    Ok(p) => KrunAction::RunScript { shell: w.shell.clone(), script: p.content.clone() },
                    Err(e) => KrunAction::Fail(e),
                }
            },
        },
    }
}

pub open spec fn option_string_view(o: Option<String>) -> Option<Seq<char>> {
    match o {
        Some(s) => Some(s@),
        None => None,
    }
}

/// The next step of `init` once the directory's identity is known: edit
/// the text of a new workspace named after the directory.
pub fn after_id(id: String, dir: &str) -> (r: KrunAction)
    ensures
        r matches KrunAction::OpenEditor { id: i, text, creating } && i@ == id@ && text@
            == workspace_text(new_workspace(id@, directory_label(dir@))) && creating,
{
    let name = dir_label(dir);
    let w = Workspace::new(id.as_str(), name.as_str());
    KrunAction::OpenEditor { text: w.to_text(), id, creating: true }
}

/// The next step once the user has edited the text: save the workspace it
/// describes, or, when it describes none, abort without saving.
pub fn after_edit(id: &str, edited: &str, creating: bool) -> (r: KrunAction)
    ensures
        match parse_workspace(id@, edited@) {
            Some(w) => r matches KrunAction::Save { workspace, creating: c } && workspace@ == w
                && c == creating,
            None => r matches KrunAction::Abort { creating: c } && c == creating,
        },
{
    match Workspace::from_text(id, edited) {
        Some(w) => KrunAction::Save { workspace: w, creating },
        None => KrunAction::Abort { creating },
    }
}

/// The next step once the user has answered whether to remove: delete
/// only on a yes.
pub fn after_answer(id: String, yes: bool) -> (r: KrunAction)
    ensures
        yes ==> (r matches KrunAction::Delete { id: i } && i == id),
        !yes ==> r is Keep,
{
    if yes {
        KrunAction::Delete { id }
    } else {
        KrunAction::Keep
    }
}

// ---------------------------------------------------------------------------
// Laws of a new workspace
// ---------------------------------------------------------------------------

/// A run in a new workspace, asking for no profile, executes `make`.
pub proof fn lemma_new_workspace_runs_make(id: Seq<char>, name: Seq<char>)
    ensures
        find_profile(
            new_workspace(id, name).profiles,
            new_workspace(id, name).default_profile,
        ) == Some((test_word(), make_word())),
{
    let w = new_workspace(id, name);
    assert(w.profiles[0].0 == w.default_profile);
}

/// The text that `krun init` opens for a new workspace reads back as that
/// workspace, whenever its name can be written as a quoted value.
pub proof fn lemma_new_workspace_round_trip(id: Seq<char>, name: Seq<char>)
    requires
        quotable(name),
        keys_are_lowercase(),
    ensures
        parse_workspace(id, workspace_text(new_workspace(id, name))) == Some(
            new_workspace(id, name),
        ),
{
    let w = new_workspace(id, name);
    let make = make_word();
    crate::text::lemma_split_no_newline(seq![], seq![], make);
    assert(Seq::<char>::empty() + make =~= make);
    assert(split_newlines(make) =~= seq![make]);
    assert(trim(make) == make);
    assert(body_line_ok(make));
    assert(writes_back(w));
    lemma_text_round_trip(w);
}

} // verus!
