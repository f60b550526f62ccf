//! The configuration: where `vcvarsall.bat` is, the default architecture,
//! and the named project directories.
use vstd::prelude::*;

verus! {

/// The whole configuration file.
#[derive(Clone, Debug)]
pub struct Config {
    pub vc_path: String,
    pub default_arch: String,
    pub projects: Vec<Project>,
}

/// A named project directory.
#[derive(Clone, Debug)]
pub struct Project {
    pub name: String,
    pub path: String,
}

// ---------------------------------------------------------------------------
// Specifications
// ---------------------------------------------------------------------------

/// A project as (name, path).
pub open spec fn project_view(p: Project) -> (Seq<char>, Seq<char>) {
    (p.name@, p.path@)
}

/// The projects, each as (name, path), in order.
pub open spec fn projects_view(ps: Seq<Project>) -> Seq<(Seq<char>, Seq<char>)> {
    ps.map_values(|p: Project| project_view(p))
}

/// The first index at or after `i` of a project named `name`.
pub open spec fn find_index_from(ps: Seq<(Seq<char>, Seq<char>)>, name: Seq<char>, i: int) -> Option<
    int,
>
    decreases ps.len() - i,
{
    if i < 0 || i >= ps.len() {
        None
    } else if ps[i].0 == name {
        Some(i)
    } else {
        find_index_from(ps, name, i + 1)
    }
}

/// The index of the first project named `name`.
pub open spec fn find_index(ps: Seq<(Seq<char>, Seq<char>)>, name: Seq<char>) -> Option<int> {
    find_index_from(ps, name, 0)
}

/// The projects after `name` is set to `path`: the first project of that
/// name gets the new path, or a new project is added at the end.
pub open spec fn with_project(ps: Seq<(Seq<char>, Seq<char>)>, name: Seq<char>, path: Seq<char>) -> Seq<
    (Seq<char>, Seq<char>),
> {
    match find_index(ps, name) {
        Some(i) => ps.update(i, (name, path)),
        None => ps.push((name, path)),
    }
}

/// The projects after the first project named `name` gets `path`;
/// `None` when there is no such project.
pub open spec fn with_project_path(ps: Seq<(Seq<char>, Seq<char>)>, name: Seq<char>, path: Seq<char>) -> Option<
    Seq<(Seq<char>, Seq<char>)>,
> {
    match find_index(ps, name) {
        Some(i) => Some(ps.update(i, (name, path))),
        None => None,
    }
}

/// Keeps the projects not named `name`.
pub open spec fn not_named(name: Seq<char>) -> spec_fn((Seq<char>, Seq<char>)) -> bool {
    |p: (Seq<char>, Seq<char>)| p.0 != name
}

/// The projects without those named `name`.
pub open spec fn without_project(ps: Seq<(Seq<char>, Seq<char>)>, name: Seq<char>) -> Seq<
    (Seq<char>, Seq<char>),
> {
    ps.filter(not_named(name))
}

/// No two projects share a name.
pub open spec fn names_unique(ps: Seq<(Seq<char>, Seq<char>)>) -> bool {
    forall|i: int, j: int| 0 <= i < j < ps.len() ==> #[trigger] ps[i].0 != #[trigger] ps[j].0
}

// ---------------------------------------------------------------------------
// Lemmas
// ---------------------------------------------------------------------------

/// What `find_index_from` is: the least index at or after `i` with that name.
pub proof fn lemma_find_index_from(ps: Seq<(Seq<char>, Seq<char>)>, name: Seq<char>, i: int)
    requires
        0 <= i,
    ensures
        find_index_from(ps, name, i) matches Some(j) ==> i <= j < ps.len() && ps[j].0 == name
            && forall|k: int| i <= k < j ==> ps[k].0 != name,
        find_index_from(ps, name, i) is None ==> forall|k: int| i <= k < ps.len() ==> ps[k].0 != name,
    decreases ps.len() - i,
{
    if i < ps.len() && ps[i].0 != name {
        lemma_find_index_from(ps, name, i + 1);
    }
}

/// Any first index with the name is what `find_index_from` gives.
pub proof fn lemma_find_index_from_unique(ps: Seq<(Seq<char>, Seq<char>)>, name: Seq<char>, i: int, j: int)
    requires
        0 <= i <= j <= ps.len(),
        forall|k: int| i <= k < j ==> ps[k].0 != name,
        j < ps.len() ==> ps[j].0 == name,
    ensures
        j < ps.len() ==> find_index_from(ps, name, i) == Some(j),
        j == ps.len() ==> find_index_from(ps, name, i) is None,
    decreases j - i,
{
    if i < j {
        lemma_find_index_from_unique(ps, name, i + 1, j);
    }
}

// ---------------------------------------------------------------------------
// Functions
// ---------------------------------------------------------------------------

/// Whether two strings hold the same characters.
pub fn same_text(a: &str, b: &str) -> (r: bool)
    ensures
        r == (a@ == b@),
{
    let ca = crate::text::to_chars(a);
    let cb = crate::text::to_chars(b);
    if ca.len() != cb.len() {
        return false;
    }
    let mut i: usize = 0;
    while i < ca.len()
        invariant
            ca@ == a@,
            cb@ == b@,
            ca.len() == cb.len(),
            0 <= i <= ca.len(),
            forall|k: int| 0 <= k < i ==> ca@[k] == cb@[k],
        decreases ca.len() - i,
    {
        if ca[i] != cb[i] {
            return false;
        }
        i = i + 1;
    }
    assert(ca@ =~= cb@);
    true
}

/// The index of the first project named `name`.
fn position_of(projects: &Vec<Project>, name: &str) -> (r: Option<usize>)
    ensures
        match r {
            Some(i) => find_index(projects_view(projects@), name@) == Some(i as int) && i
                < projects@.len(),
            None => find_index(projects_view(projects@), name@) is None,
        },
{
    let ghost ps = projects_view(projects@);
    let mut i: usize = 0;
    while i < projects.len()
        invariant
            0 <= i <= projects@.len(),
            ps == projects_view(projects@),
            forall|k: int| 0 <= k < i ==> ps[k].0 != name@,
        decreases projects@.len() - i,
    {
        if same_text(projects[i].name.as_str(), name) {
            proof {
                lemma_find_index_from_unique(ps, name@, 0, i as int);
            }
            return Some(i);
        }
        i = i + 1;
    }
    proof {
        lemma_find_index_from_unique(ps, name@, 0, ps.len() as int);
    }
    None
}

/// The first project named `name`.
pub fn find_project<'a>(config: &'a Config, name: &str) -> (r: Option<&'a Project>)
    ensures
        match find_index(projects_view(config.projects@), name@) {
            Some(i) => r == Some(&config.projects@[i]),
            None => r is None,
        },
{
    match position_of(&config.projects, name) {
        Some(i) => Some(&config.projects[i]),
        None => None,
    }
}

/// Sets the path of project `name`, adding the project when there is none of
/// that name; says whether the project was there before.
pub fn add_project(config: &mut Config, name: &str, path: &str) -> (existed: bool)
    ensures
        projects_view(final(config).projects@) == with_project(
            projects_view(old(config).projects@),
            name@,
            path@,
        ),
        existed == find_index(projects_view(old(config).projects@), name@) is Some,
        final(config).vc_path == old(config).vc_path,
        final(config).default_arch == old(config).default_arch,
{
    let ghost ps = projects_view(config.projects@);
    match position_of(&config.projects, name) {
        Some(i) => {
            proof {
                lemma_find_index_from(ps, name@, 0);
            }
            let project = Project { name: config.projects[i].name.clone(), path: path.to_string() };
            config.projects.set(i, project);
            assert(projects_view(config.projects@) =~= ps.update(i as int, (name@, path@)));
            true
        },
        None => {
            config.projects.push(Project { name: name.to_string(), path: path.to_string() });
            assert(projects_view(config.projects@) =~= ps.push((name@, path@)));
            false
        },
    }
}

/// Removes every project named `name`; says whether one was removed.
pub fn delete_project(config: &mut Config, name: &str) -> (removed: bool)
    ensures
        projects_view(final(config).projects@) == without_project(
            projects_view(old(config).projects@),
            name@,
        ),
        removed == (final(config).projects@.len() != old(config).projects@.len()),
        final(config).vc_path == old(config).vc_path,
        final(config).default_arch == old(config).default_arch,
{
    let ghost ps = projects_view(config.projects@);
    let old_len = config.projects.len();
    let mut kept: Vec<Project> = Vec::new();
    let mut i: usize = 0;
    while i < config.projects.len()
        invariant
            0 <= i <= config.projects@.len(),
            ps == projects_view(config.projects@),
            projects_view(kept@) == ps.take(i as int).filter(not_named(name@)),
        decreases config.projects@.len() - i,
    {
        assert(ps.take(i + 1).drop_last() =~= ps.take(i as int));
        reveal_with_fuel(Seq::filter, 1);
        if !same_text(config.projects[i].name.as_str(), name) {
            let ghost before = kept@;
            let p = Project {
                name: config.projects[i].name.clone(),
                path: config.projects[i].path.clone(),
            };
            kept.push(p);
            assert(projects_view(kept@) =~= projects_view(before).push(ps[i as int]));
        }
        i = i + 1;
    }
    assert(ps.take(ps.len() as int) =~= ps);
    config.projects = kept;
    config.projects.len() != old_len
}

/// Sets the path of the first project named `name`; says whether there was one.
pub fn update_project_path(config: &mut Config, name: &str, new_path: &str) -> (found: bool)
    ensures
        found ==> with_project_path(projects_view(old(config).projects@), name@, new_path@) == Some(
            projects_view(final(config).projects@),
        ),
        !found ==> with_project_path(projects_view(old(config).projects@), name@, new_path@) is None
            && final(config).projects@ == old(config).projects@,
        final(config).vc_path == old(config).vc_path,
        final(config).default_arch == old(config).default_arch,
{
    let ghost ps = projects_view(config.projects@);
    match position_of(&config.projects, name) {
        Some(i) => {
            proof {
                lemma_find_index_from(ps, name@, 0);
            }
            let project = Project {
                name: config.projects[i].name.clone(),
                path: new_path.to_string(),
            };
            config.projects.set(i, project);
            assert(projects_view(config.projects@) =~= ps.update(i as int, (name@, new_path@)));
            true
        },
        None => false,
    }
}

/// The name of the batch file kept for project `name` in the configuration directory.
pub fn project_script_file_name(name: &str) -> (r: String)
    ensures
        r@ == name@ + "_l.bat"@,
{
    let mut r = name.to_string();
    r.append("_l.bat");
    r
}

// ---------------------------------------------------------------------------
// Laws
// ---------------------------------------------------------------------------

/// After a project is added under a name, looking the name up finds that
/// project with the path just given.
pub proof fn law_find_after_add(ps: Seq<(Seq<char>, Seq<char>)>, name: Seq<char>, path: Seq<char>)
    ensures
        find_index(with_project(ps, name, path), name) matches Some(i) && with_project(
            ps,
            name,
            path,
        )[i] == (name, path),
{
    lemma_find_index_from(ps, name, 0);
    let qs = with_project(ps, name, path);
    match find_index(ps, name) {
        Some(i) => {
            lemma_find_index_from_unique(qs, name, 0, i);
        },
        None => {
            lemma_find_index_from_unique(qs, name, 0, ps.len() as int);
        },
    }
}

/// Adding the same project twice is the same as adding it once.
pub proof fn law_add_idempotent(ps: Seq<(Seq<char>, Seq<char>)>, name: Seq<char>, path: Seq<char>)
    ensures
        with_project(with_project(ps, name, path), name, path) == with_project(ps, name, path),
{
    law_find_after_add(ps, name, path);
    let qs = with_project(ps, name, path);
    lemma_find_index_from(qs, name, 0);
    match find_index(qs, name) {
        Some(i) => {
            assert(qs.update(i, (name, path)) =~= qs);
        },
        None => {},
    }
}

/// Adding a project leaves the lookup of every other name unchanged.
pub proof fn law_add_keeps_others(
    ps: Seq<(Seq<char>, Seq<char>)>,
    name: Seq<char>,
    path: Seq<char>,
    other: Seq<char>,
)
    requires
        other != name,
    ensures
        match find_index(ps, other) {
            Some(i) => find_index(with_project(ps, name, path), other) == Some(i) && with_project(
                ps,
                name,
                path,
            )[i] == ps[i],
            None => find_index(with_project(ps, name, path), other) is None,
        },
{
    lemma_find_index_from(ps, other, 0);
    lemma_find_index_from(ps, name, 0);
    let qs = with_project(ps, name, path);
    match find_index(ps, other) {
        Some(i) => {
            lemma_find_index_from_unique(qs, other, 0, i);
        },
        None => {
            lemma_find_index_from_unique(qs, other, 0, qs.len() as int);
        },
    }
}

/// Adding a project keeps the project names distinct.
pub proof fn law_add_keeps_names_unique(
    ps: Seq<(Seq<char>, Seq<char>)>,
    name: Seq<char>,
    path: Seq<char>,
)
    requires
        names_unique(ps),
    ensures
        names_unique(with_project(ps, name, path)),
{
    lemma_find_index_from(ps, name, 0);
    let qs = with_project(ps, name, path);
    assert forall|i: int, j: int| 0 <= i < j < qs.len() implies #[trigger] qs[i].0 != #[trigger] qs[j].0 by {
        if find_index(ps, name) is None && j == ps.len() {
            assert(ps[i].0 != name);
        } else if find_index(ps, name) is Some {
            let k = find_index(ps, name)->0;
            if i == k {
                assert(ps[j].0 != ps[k].0);
            } else if j == k {
                assert(ps[i].0 != ps[k].0);
            } else {
                assert(ps[i].0 != ps[j].0);
            }
        } else {
            assert(ps[i].0 != ps[j].0);
        }
    }
}

/// After the projects of a name are deleted, looking the name up finds nothing.
pub proof fn law_find_after_delete(ps: Seq<(Seq<char>, Seq<char>)>, name: Seq<char>)
    ensures
        find_index(without_project(ps, name), name) is None,
{
    let qs = without_project(ps, name);
    assert forall|k: int| 0 <= k < qs.len() implies qs[k].0 != name by {
        ps.lemma_filter_pred(not_named(name), k);
    }
    lemma_find_index_from_unique(qs, name, 0, qs.len() as int);
}

/// Deleting the projects of a name keeps every project of another name.
pub proof fn law_delete_keeps_others(ps: Seq<(Seq<char>, Seq<char>)>, name: Seq<char>, i: int)
    requires
        0 <= i < ps.len(),
        ps[i].0 != name,
    ensures
        without_project(ps, name).contains(ps[i]),
{
    ps.lemma_filter_contains(not_named(name), i);
}

/// Changing the path of a project that is there, then looking it up, finds
/// the new path; the other projects stay as they were.
pub proof fn law_find_after_update(ps: Seq<(Seq<char>, Seq<char>)>, name: Seq<char>, path: Seq<char>)
    requires
        find_index(ps, name) is Some,
    ensures
        with_project_path(ps, name, path) == Some(with_project(ps, name, path)),
        find_index(with_project(ps, name, path), name) matches Some(i) && with_project(
            ps,
            name,
            path,
        )[i] == (name, path),
{
    law_find_after_add(ps, name, path);
}

} // verus!
