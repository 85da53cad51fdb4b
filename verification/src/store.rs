//! What the tools keep of a workspace in their database, and how they read
//! it back.
//!
//! The database has two tables: `repos`, one row `(id, name, shell,
//! default_profile)` per workspace, and `profiles`, one row `(id, name,
//! content)` per profile. Saving a workspace deletes the rows of its id and
//! inserts new ones; reading takes the first `repos` row of an id and the
//! `profiles` rows of that id in the order they were inserted.
//!
//! That order is what the model assumes of the database: the queries ask
//! for the profile rows `ORDER BY rowid`, and SQLite gives a row inserted
//! later a larger rowid than every row already in the table (the table has
//! no `AUTOINCREMENT` and its largest rowid is far below the limit at which
//! SQLite would reuse a smaller one).
use vstd::prelude::*;

use crate::models::{profile_views, ProfileModel, Profile, Workspace, WorkspaceModel};

verus! {

/// A row of the `repos` table.
#[derive(Debug, Clone)]
pub struct RepoRow {
    pub id: String,
    pub name: String,
    pub shell: String,
    pub default_profile: String,
}

/// A row of the `profiles` table.
#[derive(Debug, Clone)]
pub struct ProfileRow {
    pub id: String,
    pub name: String,
    pub content: String,
}

/// The statements that save a workspace: delete the rows of `id`, then
/// insert `repo` and each of `profiles`, in order.
#[derive(Debug, Clone)]
pub struct SavePlan {
    pub id: String,
    pub repo: RepoRow,
    pub profiles: Vec<ProfileRow>,
}

pub type RepoRowModel = (Seq<char>, Seq<char>, Seq<char>, Seq<char>);

pub type ProfileRowModel = (Seq<char>, Seq<char>, Seq<char>);

pub struct SavePlanModel {
    pub id: Seq<char>,
    pub repo: RepoRowModel,
    pub profiles: Seq<ProfileRowModel>,
}

/// The contents of the two tables.
pub struct TablesModel {
    pub repos: Seq<RepoRowModel>,
    pub profiles: Seq<ProfileRowModel>,
}

impl View for RepoRow {
    type V = RepoRowModel;

    open spec fn view(&self) -> RepoRowModel {
        (self.id@, self.name@, self.shell@, self.default_profile@)
    }
}

impl View for ProfileRow {
    type V = ProfileRowModel;

    open spec fn view(&self) -> ProfileRowModel {
        (self.id@, self.name@, self.content@)
    }
}

pub open spec fn profile_row_views(rows: Seq<ProfileRow>) -> Seq<ProfileRowModel> {
    rows.map_values(|r: ProfileRow| r@)
}

impl View for SavePlan {
    type V = SavePlanModel;

    open spec fn view(&self) -> SavePlanModel {
        SavePlanModel {
            id: self.id@,
            repo: self.repo@,
            profiles: profile_row_views(self.profiles@),
        }
    }
}

// ---------------------------------------------------------------------------
// The statements, on the tables
// ---------------------------------------------------------------------------

pub open spec fn repo_not_of(id: Seq<char>) -> spec_fn(RepoRowModel) -> bool {
    |r: RepoRowModel| r.0 != id
}

pub open spec fn profile_not_of(id: Seq<char>) -> spec_fn(ProfileRowModel) -> bool {
    |p: ProfileRowModel| p.0 != id
}

pub open spec fn profile_of(id: Seq<char>) -> spec_fn(ProfileRowModel) -> bool {
    |p: ProfileRowModel| p.0 == id
}

/// `DELETE FROM repos WHERE id = ?1` and `DELETE FROM profiles WHERE id = ?1`.
pub open spec fn delete_rows(t: TablesModel, id: Seq<char>) -> TablesModel {
    TablesModel {
        repos: t.repos.filter(repo_not_of(id)),
        profiles: t.profiles.filter(profile_not_of(id)),
    }
}

/// The statements of a save plan, run in order.
pub open spec fn apply_save(t: TablesModel, plan: SavePlanModel) -> TablesModel {
    let d = delete_rows(t, plan.id);
    TablesModel { repos: d.repos.push(plan.repo), profiles: d.profiles + plan.profiles }
}

/// The first `repos` row of `id`.
pub open spec fn first_repo(repos: Seq<RepoRowModel>, id: Seq<char>) -> Option<RepoRowModel>
    decreases repos.len(),
{
    if repos.len() == 0 {
        None
    } else {
        match first_repo(repos.drop_last(), id) {
            Some(r) => Some(r),
            None => if repos.last().0 == id {
                Some(repos.last())
            } else {
                None
            },
        }
    }
}

/// The `(name, content)` of the `profiles` rows of `id`, in order.
pub open spec fn profiles_of(t: TablesModel, id: Seq<char>) -> Seq<ProfileModel> {
    t.profiles.filter(profile_of(id)).map_values(|p: ProfileRowModel| (p.1, p.2))
}

/// The workspace that a `repos` row's `(name, shell, default_profile)`, if
/// any, and the profiles of `id` make.
pub open spec fn workspace_of_rows(
    id: Seq<char>,
    repo: Option<(Seq<char>, Seq<char>, Seq<char>)>,
    profiles: Seq<ProfileModel>,
) -> Option<WorkspaceModel> {
    match repo {
        None => None,
        Some(r) => Some(
            WorkspaceModel { id, name: r.0, shell: r.1, default_profile: r.2, profiles },
        ),
    }
}

/// The workspace that the tables hold under `id`.
pub open spec fn stored_workspace(t: TablesModel, id: Seq<char>) -> Option<WorkspaceModel> {
    workspace_of_rows(
        id,
        match first_repo(t.repos, id) {
            Some(r) => Some((r.1, r.2, r.3)),
            None => None,
        },
        profiles_of(t, id),
    )
}

/// The plan that saves `w` under the name `name`.
pub open spec fn save_plan(w: WorkspaceModel, name: Seq<char>) -> SavePlanModel {
    SavePlanModel {
        id: w.id,
        repo: (w.id, name, w.shell, w.default_profile),
        profiles: w.profiles.map_values(|p: ProfileModel| (w.id, p.0, p.1)),
    }
}

pub open spec fn renamed(w: WorkspaceModel, name: Seq<char>) -> WorkspaceModel {
    WorkspaceModel {
        id: w.id,
        name,
        shell: w.shell,
        default_profile: w.default_profile,
        profiles: w.profiles,
    }
}

/// The name under which a workspace is saved: its own, unless another
/// workspace holds it, in which case the name already stored for its id.
pub open spec fn saved_name(
    own: Seq<char>,
    taken_by_other: bool,
    stored: Option<Seq<char>>,
) -> Option<Seq<char>> {
    if taken_by_other {
        stored
    } else {
        Some(own)
    }
}

pub open spec fn option_string_view(o: Option<String>) -> Option<Seq<char>> {
    match o {
        Some(s) => Some(s@),
        None => None,
    }
}

/// No two rows share a value of `key`.
pub open spec fn distinct_by(repos: Seq<RepoRowModel>, key: spec_fn(RepoRowModel) -> Seq<char>) -> bool {
    forall|i: int, j: int| 0 <= i < j < repos.len() ==> key(repos[i]) != key(repos[j])
}

pub open spec fn repo_id() -> spec_fn(RepoRowModel) -> Seq<char> {
    |r: RepoRowModel| r.0
}

pub open spec fn repo_name() -> spec_fn(RepoRowModel) -> Seq<char> {
    |r: RepoRowModel| r.1
}

/// The constraints of the `repos` table: one row per id (its primary key)
/// and no two rows with the same name (`UNIQUE`).
pub open spec fn repos_keyed(repos: Seq<RepoRowModel>) -> bool {
    distinct_by(repos, repo_id()) && distinct_by(repos, repo_name())
}

/// Whether a workspace other than `id` holds `name`
/// (`SELECT EXISTS(SELECT name FROM repos WHERE name = ?1 AND id != ?2)`).
pub open spec fn name_taken(repos: Seq<RepoRowModel>, name: Seq<char>, id: Seq<char>) -> bool {
    exists|i: int| 0 <= i < repos.len() && (#[trigger] repos[i]).1 == name && repos[i].0 != id
}

/// The name stored for `id` (`SELECT name FROM repos WHERE id = ?1`).
pub open spec fn stored_name(repos: Seq<RepoRowModel>, id: Seq<char>) -> Option<Seq<char>> {
    match first_repo(repos, id) {
        Some(r) => Some(r.1),
        None => None,
    }
}

/// The name under which saving `w` on the tables `t` stores it, if the
/// save goes through.
pub open spec fn save_name(t: TablesModel, w: WorkspaceModel) -> Option<Seq<char>> {
    saved_name(w.name, name_taken(t.repos, w.name, w.id), stored_name(t.repos, w.id))
}

// ---------------------------------------------------------------------------
// Executable decisions
// ---------------------------------------------------------------------------

/// The name to save `ws` under, given whether another workspace holds its
/// name and the name already stored for its id (`None` when there is no
/// row for it, which fails the save).
pub fn choose_saved_name(ws: &Workspace, taken_by_other: bool, stored: Option<String>) -> (r: Option<
    String,
>)
    ensures
        option_string_view(r) == saved_name(ws@.name, taken_by_other, option_string_view(stored)),
{
    if taken_by_other {
        stored
    } else {
        Some(ws.name.clone())
    }
}

/// The statements that save `ws` under the name `name`.
pub fn plan_save(ws: &Workspace, name: String) -> (plan: SavePlan)
    ensures
        plan@ == save_plan(ws@, name@),
{
    let mut profiles: Vec<ProfileRow> = Vec::new();
    let mut i: usize = 0;
    while i < ws.profiles.len()
        invariant
            i <= ws.profiles.len(),
            profile_row_views(profiles@) == save_plan(ws@, name@).profiles.take(i as int),
        decreases ws.profiles.len() - i,
    {
        let p = &ws.profiles[i];
        let row = ProfileRow { id: ws.id.clone(), name: p.name.clone(), content: p.content.clone() };
        let ghost before = profile_row_views(profiles@);
        profiles.push(row);
        assert(profile_row_views(profiles@) =~= before.push(row@));
        assert(save_plan(ws@, name@).profiles.take(i + 1) =~= save_plan(ws@, name@).profiles.take(
            i as int,
        ).push(row@));
        i += 1;
    }
    assert(save_plan(ws@, name@).profiles.take(i as int) =~= save_plan(ws@, name@).profiles);
    let repo = RepoRow {
        id: ws.id.clone(),
        name,
        shell: ws.shell.clone(),
        default_profile: ws.default_profile.clone(),
    };
    SavePlan { id: ws.id.clone(), repo, profiles }
}

pub open spec fn pair_views(v: Seq<(String, String)>) -> Seq<ProfileModel> {
    v.map_values(|p: (String, String)| (p.0@, p.1@))
}

pub open spec fn repo_values_view(r: Option<(String, String, String)>) -> Option<
    (Seq<char>, Seq<char>, Seq<char>),
> {
    match r {
        Some(v) => Some((v.0@, v.1@, v.2@)),
        None => None,
    }
}

pub open spec fn option_workspace_view(o: Option<Workspace>) -> Option<WorkspaceModel> {
    match o {
        Some(w) => Some(w@),
        None => None,
    }
}

/// The workspace that the rows read for `id` make: the `(name, shell,
/// default_profile)` of its first `repos` row, if any, and the `(name,
/// content)` of its `profiles` rows.
pub fn workspace_from_rows(
    id: &str,
    repo: Option<(String, String, String)>,
    profiles: Vec<(String, String)>,
) -> (r: Option<Workspace>)
    ensures
        option_workspace_view(r) == workspace_of_rows(
            id@,
            repo_values_view(repo),
            pair_views(profiles@),
        ),
{
    match repo {
        None => None,
        Some((name, shell, default_profile)) => {
            let mut ps: Vec<Profile> = Vec::new();
            let mut i: usize = 0;
            while i < profiles.len()
                invariant
                    i <= profiles.len(),
                    profile_views(ps@) == pair_views(profiles@).take(i as int),
                decreases profiles.len() - i,
            {
                let p = Profile { name: profiles[i].0.clone(), content: profiles[i].1.clone() };
                let ghost before = profile_views(ps@);
                ps.push(p);
                assert(profile_views(ps@) =~= before.push(p@));
                assert(pair_views(profiles@).take(i + 1) =~= pair_views(profiles@).take(
                    i as int,
                ).push(p@));
                i += 1;
            }
            assert(pair_views(profiles@).take(i as int) =~= pair_views(profiles@));
            Some(Workspace { id: id.to_owned(), name, shell, default_profile, profiles: ps })
        },
    }
}


// ---------------------------------------------------------------------------
// Laws
// ---------------------------------------------------------------------------

proof fn lemma_filter_keeps_all<A>(s: Seq<A>, p: spec_fn(A) -> bool)
    requires
        forall|i: int| 0 <= i < s.len() ==> p(#[trigger] s[i]),
    ensures
        s.filter(p) == s,
    decreases s.len(),
{
    reveal(Seq::filter);
    if s.len() > 0 {
        let init = s.drop_last();
        assert forall|i: int| 0 <= i < init.len() implies p(#[trigger] init[i]) by {
            assert(init[i] == s[i]);
        }
        lemma_filter_keeps_all(init, p);
        assert(p(s[s.len() - 1]));
        assert(init.push(s.last()) =~= s);
    }
}

proof fn lemma_filter_drops_all<A>(s: Seq<A>, p: spec_fn(A) -> bool)
    requires
        forall|i: int| 0 <= i < s.len() ==> !p(#[trigger] s[i]),
    ensures
        s.filter(p) == Seq::<A>::empty(),
    decreases s.len(),
{
    reveal(Seq::filter);
    if s.len() > 0 {
        let init = s.drop_last();
        assert forall|i: int| 0 <= i < init.len() implies !p(#[trigger] init[i]) by {
            assert(init[i] == s[i]);
        }
        lemma_filter_drops_all(init, p);
        assert(!p(s[s.len() - 1]));
    }
}

proof fn lemma_profiles_filter_compose(ps: Seq<ProfileRowModel>, id: Seq<char>, other: Seq<char>)
    requires
        id != other,
    ensures
        ps.filter(profile_not_of(id)).filter(profile_of(other)) == ps.filter(profile_of(other)),
    decreases ps.len(),
{
    reveal(Seq::filter);
    if ps.len() > 0 {
        let init = ps.drop_last();
        let x = ps.last();
        lemma_profiles_filter_compose(init, id, other);
        let f = init.filter(profile_not_of(id));
        if x.0 != id {
            assert(f.push(x).drop_last() =~= f);
            assert(f.push(x).last() == x);
        }
    }
}

proof fn lemma_first_repo_none(repos: Seq<RepoRowModel>, id: Seq<char>)
    requires
        forall|i: int| 0 <= i < repos.len() ==> (#[trigger] repos[i]).0 != id,
    ensures
        first_repo(repos, id) is None,
    decreases repos.len(),
{
    if repos.len() > 0 {
        let init = repos.drop_last();
        assert forall|i: int| 0 <= i < init.len() implies (#[trigger] init[i]).0 != id by {
            assert(init[i] == repos[i]);
        }
        lemma_first_repo_none(init, id);
        assert(repos.last().0 != id);
    }
}

proof fn lemma_first_repo_filter(repos: Seq<RepoRowModel>, id: Seq<char>, other: Seq<char>)
    requires
        id != other,
    ensures
        first_repo(repos.filter(repo_not_of(id)), other) == first_repo(repos, other),
    decreases repos.len(),
{
    reveal(Seq::filter);
    if repos.len() > 0 {
        let init = repos.drop_last();
        let x = repos.last();
        lemma_first_repo_filter(init, id, other);
        let f = init.filter(repo_not_of(id));
        if x.0 != id {
            assert(f.push(x).drop_last() =~= f);
            assert(f.push(x).last() == x);
        }
    }
}

proof fn lemma_deleted_rows(t: TablesModel, id: Seq<char>)
    ensures
        first_repo(delete_rows(t, id).repos, id) is None,
        delete_rows(t, id).profiles.filter(profile_of(id)) == Seq::<ProfileRowModel>::empty(),
{
    let d = delete_rows(t, id);
    broadcast use vstd::seq_lib::group_filter_ensures;

    assert forall|i: int| 0 <= i < d.repos.len() implies (#[trigger] d.repos[i]).0 != id by {
        assert(repo_not_of(id)(d.repos[i]));
    }
    assert forall|i: int| 0 <= i < d.profiles.len() implies (#[trigger] d.profiles[i]).0 != id by {
        assert(profile_not_of(id)(d.profiles[i]));
    }
    lemma_first_repo_none(d.repos, id);
    assert forall|i: int| 0 <= i < d.profiles.len() implies !profile_of(id)(
        #[trigger] d.profiles[i],
    ) by {
        assert(profile_not_of(id)(d.profiles[i]));
    }
    lemma_filter_drops_all(d.profiles, profile_of(id));
}

/// Reading a workspace right after saving it under a name gives the
/// workspace back, under that name, with its profiles in order.
pub proof fn lemma_read_after_save(t: TablesModel, w: WorkspaceModel, name: Seq<char>)
    ensures
        stored_workspace(apply_save(t, save_plan(w, name)), w.id) == Some(renamed(w, name)),
{
    let plan = save_plan(w, name);
    let d = delete_rows(t, w.id);
    let after = apply_save(t, plan);
    lemma_deleted_rows(t, w.id);
    reveal_with_fuel(first_repo, 2);
    assert(after.repos.drop_last() =~= d.repos);
    assert(first_repo(after.repos, w.id) == Some(plan.repo));
    assert forall|i: int| 0 <= i < plan.profiles.len() implies (#[trigger] plan.profiles[i]).0
        == w.id by {}
    lemma_filter_keeps_all(plan.profiles, profile_of(w.id));
    Seq::filter_distributes_over_add(d.profiles, plan.profiles, profile_of(w.id));
    assert(after.profiles.filter(profile_of(w.id)) =~= plan.profiles);
    assert(profiles_of(after, w.id) =~= w.profiles);
}

/// Saving a workspace leaves every other workspace as it was.
pub proof fn lemma_save_keeps_others(
    t: TablesModel,
    w: WorkspaceModel,
    name: Seq<char>,
    other: Seq<char>,
)
    requires
        other != w.id,
    ensures
        stored_workspace(apply_save(t, save_plan(w, name)), other) == stored_workspace(t, other),
{
    let plan = save_plan(w, name);
    let d = delete_rows(t, w.id);
    let after = apply_save(t, plan);
    lemma_first_repo_filter(t.repos, w.id, other);
    assert(after.repos.drop_last() =~= d.repos);
    assert(first_repo(after.repos, other) == first_repo(t.repos, other));
    lemma_profiles_filter_compose(t.profiles, w.id, other);
    assert forall|i: int| 0 <= i < plan.profiles.len() implies (#[trigger] plan.profiles[i]).0
        != other by {}
    lemma_filter_drops_all(plan.profiles, profile_of(other));
    Seq::filter_distributes_over_add(d.profiles, plan.profiles, profile_of(other));
    assert(after.profiles.filter(profile_of(other)) =~= t.profiles.filter(profile_of(other)));
}

/// Reading a workspace right after deleting it finds nothing.
pub proof fn lemma_read_after_delete(t: TablesModel, id: Seq<char>)
    ensures
        stored_workspace(delete_rows(t, id), id) is None,
{
    lemma_deleted_rows(t, id);
}

/// Deleting a workspace leaves every other workspace as it was.
pub proof fn lemma_delete_keeps_others(t: TablesModel, id: Seq<char>, other: Seq<char>)
    requires
        other != id,
    ensures
        stored_workspace(delete_rows(t, id), other) == stored_workspace(t, other),
{
    lemma_first_repo_filter(t.repos, id, other);
    lemma_profiles_filter_compose(t.profiles, id, other);
}


proof fn lemma_first_repo_member(repos: Seq<RepoRowModel>, id: Seq<char>)
    ensures
        first_repo(repos, id) matches Some(r) ==> exists|k: int|
            0 <= k < repos.len() && #[trigger] repos[k] == r && r.0 == id,
    decreases repos.len(),
{
    if repos.len() > 0 {
        let init = repos.drop_last();
        lemma_first_repo_member(init, id);
        if let Some(r) = first_repo(init, id) {
            let k = choose|k: int| 0 <= k < init.len() && #[trigger] init[k] == r && r.0 == id;
            assert(repos[k] == init[k]);
        } else if repos.last().0 == id {
            assert(repos[repos.len() - 1] == repos.last());
        }
    }
}

proof fn lemma_filter_distinct(
    repos: Seq<RepoRowModel>,
    p: spec_fn(RepoRowModel) -> bool,
    key: spec_fn(RepoRowModel) -> Seq<char>,
)
    requires
        distinct_by(repos, key),
    ensures
        distinct_by(repos.filter(p), key),
    decreases repos.len(),
{
    broadcast use vstd::seq_lib::group_filter_ensures;

    reveal(Seq::filter);
    if repos.len() > 0 {
        let init = repos.drop_last();
        let x = repos.last();
        assert(distinct_by(init, key)) by {
            assert forall|i: int, j: int| 0 <= i < j < init.len() implies key(init[i]) != key(
                init[j],
            ) by {
                assert(init[i] == repos[i] && init[j] == repos[j]);
            }
        }
        lemma_filter_distinct(init, p, key);
        let f = init.filter(p);
        if p(x) {
            assert forall|i: int| 0 <= i < f.len() implies key(#[trigger] f[i]) != key(x) by {
                assert(f.contains(f[i]));
                init.lemma_filter_contains_rev(p, f[i]);
                let j = choose|j: int| 0 <= j < init.len() && init[j] == f[i];
                assert(repos[j] == init[j]);
                assert(repos[repos.len() - 1] == x);
            }
            let g = f.push(x);
            assert forall|i: int, j: int| 0 <= i < j < g.len() implies key(g[i]) != key(g[j]) by {
                if j < f.len() {
                    assert(g[i] == f[i] && g[j] == f[j]);
                } else {
                    assert(g[i] == f[i] && g[j] == x);
                }
            }
        }
    }
}

/// The rows left by deleting `id` are rows of the table, none of them of
/// `id`.
proof fn lemma_kept_row(repos: Seq<RepoRowModel>, id: Seq<char>, i: int)
    requires
        0 <= i < repos.filter(repo_not_of(id)).len(),
    ensures
        repos.filter(repo_not_of(id))[i].0 != id,
        exists|j: int|
            0 <= j < repos.len() && #[trigger] repos[j] == repos.filter(repo_not_of(id))[i],
{
    broadcast use vstd::seq_lib::group_filter_ensures;

    let f = repos.filter(repo_not_of(id));
    assert(repo_not_of(id)(f[i]));
    assert(f.contains(f[i]));
    repos.lemma_filter_contains_rev(repo_not_of(id), f[i]);
}

/// A save keeps the constraints of the `repos` table: one row per id and
/// no two rows with the same name.
pub proof fn lemma_save_keeps_keys(t: TablesModel, w: WorkspaceModel, name: Seq<char>)
    requires
        repos_keyed(t.repos),
        save_name(t, w) == Some(name),
    ensures
        repos_keyed(apply_save(t, save_plan(w, name)).repos),
{
    let f = t.repos.filter(repo_not_of(w.id));
    let r = save_plan(w, name).repo;
    lemma_filter_distinct(t.repos, repo_not_of(w.id), repo_id());
    lemma_filter_distinct(t.repos, repo_not_of(w.id), repo_name());
    lemma_first_repo_member(t.repos, w.id);
    assert forall|i: int| 0 <= i < f.len() implies (#[trigger] f[i]).0 != w.id && f[i].1
        != name by {
        lemma_kept_row(t.repos, w.id, i);
        let j = choose|j: int| 0 <= j < t.repos.len() && #[trigger] t.repos[j] == f[i];
        if name_taken(t.repos, w.name, w.id) {
            let r0 = first_repo(t.repos, w.id).unwrap();
            let k = choose|k: int| 0 <= k < t.repos.len() && #[trigger] t.repos[k] == r0 && r0.0 == w.id;
            assert(j != k);
            if j < k {
                assert(repo_name()(t.repos[j]) != repo_name()(t.repos[k]));
            } else {
                assert(repo_name()(t.repos[k]) != repo_name()(t.repos[j]));
            }
        } else {
            assert(!(t.repos[j].1 == w.name && t.repos[j].0 != w.id));
        }
    }
    let g = f.push(r);
    assert forall|i: int, j: int| 0 <= i < j < g.len() implies repo_id()(g[i]) != repo_id()(
        g[j],
    ) && repo_name()(g[i]) != repo_name()(g[j]) by {
        if j < f.len() {
            assert(g[i] == f[i] && g[j] == f[j]);
        } else {
            assert(g[i] == f[i] && g[j] == r);
        }
    }
}

/// Saving a workspace a second time chooses the same name and leaves the
/// tables as the first save left them: its rows are replaced, not
/// duplicated.
pub proof fn lemma_save_twice(t: TablesModel, w: WorkspaceModel, name: Seq<char>)
    requires
        save_name(t, w) == Some(name),
    ensures
        save_name(apply_save(t, save_plan(w, name)), w) == Some(name),
        apply_save(apply_save(t, save_plan(w, name)), save_plan(w, name)) == apply_save(
            t,
            save_plan(w, name),
        ),
{
    broadcast use vstd::seq_lib::group_filter_ensures;

    let plan = save_plan(w, name);
    let t1 = apply_save(t, plan);
    let f = t.repos.filter(repo_not_of(w.id));
    let fp = t.profiles.filter(profile_not_of(w.id));
    let r = plan.repo;
    assert(t1.repos == f.push(r));
    // The rows other than the saved one are those the first save kept.
    assert forall|i: int| 0 <= i < f.len() implies repo_not_of(w.id)(#[trigger] f[i]) by {
        lemma_kept_row(t.repos, w.id, i);
    }
    // The name.
    lemma_first_repo_none(f, w.id);
    assert(f.push(r).drop_last() =~= f);
    assert(stored_name(t1.repos, w.id) == Some(name)) by {
        reveal_with_fuel(first_repo, 2);
        if name_taken(t.repos, w.name, w.id) {
            assert(stored_name(t.repos, w.id) == Some(name));
        }
    }
    if name_taken(t.repos, w.name, w.id) {
        let i = choose|i: int|
            0 <= i < t.repos.len() && (#[trigger] t.repos[i]).1 == w.name && t.repos[i].0 != w.id;
        t.repos.lemma_filter_contains(repo_not_of(w.id), i);
        let k = choose|k: int| 0 <= k < f.len() && f[k] == t.repos[i];
        assert(t1.repos[k] == f[k]);
        assert(name_taken(t1.repos, w.name, w.id));
    } else {
        assert(name == w.name);
        assert forall|i: int| 0 <= i < t1.repos.len() implies !((#[trigger] t1.repos[i]).1
            == w.name && t1.repos[i].0 != w.id) by {
            if i < f.len() {
                assert(t1.repos[i] == f[i]);
                lemma_kept_row(t.repos, w.id, i);
                let j = choose|j: int| 0 <= j < t.repos.len() && #[trigger] t.repos[j] == f[i];
                assert(!(t.repos[j].1 == w.name && t.repos[j].0 != w.id));
            }
        }
    }
    // The tables.
    reveal(Seq::filter);
    assert(f.push(r).last() == r);
    assert(f.push(r).filter(repo_not_of(w.id)) == f.filter(repo_not_of(w.id)));
    lemma_filter_keeps_all(f, repo_not_of(w.id));
    assert forall|i: int| 0 <= i < fp.len() implies profile_not_of(w.id)(#[trigger] fp[i]) by {
        t.profiles.lemma_filter_pred(profile_not_of(w.id), i);
    }
    lemma_filter_keeps_all(fp, profile_not_of(w.id));
    assert forall|i: int| 0 <= i < plan.profiles.len() implies !profile_not_of(w.id)(
        #[trigger] plan.profiles[i],
    ) by {}
    lemma_filter_drops_all(plan.profiles, profile_not_of(w.id));
    Seq::filter_distributes_over_add(fp, plan.profiles, profile_not_of(w.id));
    let t2 = apply_save(t1, plan);
    assert(t2.repos =~= t1.repos);
    assert(t2.profiles =~= t1.profiles);
}

/// Deleting a workspace a second time changes nothing.
pub proof fn lemma_delete_twice(t: TablesModel, id: Seq<char>)
    ensures
        delete_rows(delete_rows(t, id), id) == delete_rows(t, id),
{
    broadcast use vstd::seq_lib::group_filter_ensures;

    let d = delete_rows(t, id);
    assert forall|i: int| 0 <= i < d.repos.len() implies repo_not_of(id)(#[trigger] d.repos[i]) by {
        t.repos.lemma_filter_pred(repo_not_of(id), i);
    }
    assert forall|i: int| 0 <= i < d.profiles.len() implies profile_not_of(id)(
        #[trigger] d.profiles[i],
    ) by {
        t.profiles.lemma_filter_pred(profile_not_of(id), i);
    }
    lemma_filter_keeps_all(d.repos, repo_not_of(id));
    lemma_filter_keeps_all(d.profiles, profile_not_of(id));
}

} // verus!
