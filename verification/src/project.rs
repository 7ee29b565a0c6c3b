//! Tracked projects: the record kept of each, the list of them, and the
//! operations that add to the list, look names up in it and edit its entries.

use vstd::prelude::*;
use vstd::string::*;
use crate::paths::{placed, project_dir};
use crate::text::{copy_opt, opt_view, same_opt, views};

verus! {

/// Why the list of projects could not be read.
#[derive(Debug, Clone, Copy, PartialEq, Eq, Structural)]
pub enum FileError {
    /// The file could not be read.
    LoadingError,
    /// The file does not hold a list of projects.
    ParsingError,
}

/// What a `Project` stands for.
pub struct ProjectView {
    pub name: Seq<char>,
    pub directory: Seq<char>,
    pub category: Option<Seq<char>>,
    pub p_type: Option<Seq<char>>,
}

/// A tracked project: its name, where it lies, and how it is filed.
#[derive(Debug, PartialEq, Eq, PartialOrd, Ord, Hash)]
pub struct Project {
    pub name: String,
    pub directory: String,
    pub category: Option<String>,
    pub p_type: Option<String>,
}

impl View for Project {
    type V = ProjectView;

    open spec fn view(&self) -> ProjectView {
        ProjectView {
            name: self.name@,
            directory: self.directory@,
            category: opt_view(self.category),
            p_type: opt_view(self.p_type),
        }
    }
}

/// The views of a list of projects.
pub open spec fn project_views(projects: Seq<Project>) -> Seq<ProjectView> {
    projects.map_values(|p: Project| p@)
}

impl Clone for Project {
    fn clone(&self) -> (copy: Self)
        ensures
            copy@ == self@,
    {
        Project {
            name: self.name.clone(),
            directory: self.directory.clone(),
            category: copy_opt(&self.category),
            p_type: copy_opt(&self.p_type),
        }
    }
}

impl Default for Project {
    fn default() -> (project: Self)
        ensures
            project@ == (ProjectView {
                name: Seq::empty(),
                directory: Seq::empty(),
                category: None,
                p_type: None,
            }),
    {
        Project { name: String::new(), directory: String::new(), category: None, p_type: None }
    }
}

impl Project {
    /// Whether two projects agree in every field.
    pub fn same_as(&self, other: &Project) -> (same: bool)
        ensures
            same == (self@ == other@),
    {
        self.name == other.name && self.directory == other.directory && same_opt(
            &self.category,
            &other.category,
        ) && same_opt(&self.p_type, &other.p_type)
    }
}

/// A copy of a list of projects.
pub fn copy_projects(projects: &Vec<Project>) -> (out: Vec<Project>)
    ensures
        project_views(out@) == project_views(projects@),
{
    let mut out: Vec<Project> = Vec::new();
    let mut i: usize = 0;
    assert(project_views(out@) =~= project_views(projects@).take(0));
    while i < projects.len()
        invariant
            i <= projects.len(),
            project_views(out@) == project_views(projects@).take(i as int),
        decreases projects.len() - i,
    {
        let ghost before = project_views(out@);
        out.push(projects[i].clone());
        assert(project_views(out@) =~= before.push(projects@[i as int]@));
        assert(project_views(projects@).take(i + 1) =~= project_views(projects@).take(
            i as int,
        ).push(projects@[i as int]@));
        i = i + 1;
    }
    assert(project_views(projects@).take(i as int) =~= project_views(projects@));
    out
}

/// The list of tracked projects and the file it is kept in.
#[derive(Debug, PartialEq, Eq)]
pub struct Projects {
    pub projects: Vec<Project>,
    pub project_path: String,
}

impl Default for Projects {
    fn default() -> (list: Self)
        ensures
            list.projects@.len() == 0,
            list.project_path@ == Seq::<char>::empty(),
    {
        Projects { projects: Vec::new(), project_path: String::new() }
    }
}

impl Projects {
    /// The file that holds the list of projects when no other is named: it
    /// lies in the folder of this tool below the user's configuration
    /// directory. There is none where the user has no such directory.
    pub fn default_dir() -> (path: Option<String>)
        ensures
            path is Some ==> exists|base: Seq<char>|
                path->Some_0@ == crate::paths::path_join(
                    #[trigger] crate::paths::path_join(base, "fpm"@),
                    "projects_db.json"@,
                ),
    {
        crate::config::config_file("projects_db.json")
    }
}

impl Clone for Projects {
    fn clone(&self) -> (copy: Self)
        ensures
            project_views(copy.projects@) == project_views(self.projects@),
            copy.project_path@ == self.project_path@,
    {
        Projects {
            projects: copy_projects(&self.projects),
            project_path: self.project_path.clone(),
        }
    }
}

/// Adds a project to the end of the list.
pub fn add_project(
    projects: &mut Projects,
    name: String,
    directory: String,
    p_type: Option<String>,
    category: Option<String>,
)
    ensures
        project_views(final(projects).projects@) == project_views(old(projects).projects@).push(
            ProjectView {
                name: name@,
                directory: directory@,
                category: opt_view(category),
                p_type: opt_view(p_type),
            },
        ),
        final(projects).project_path@ == old(projects).project_path@,
{
    let project = Project { name, directory, category, p_type };
    projects.projects.push(project);
    assert(project_views(projects.projects@) =~= project_views(old(projects).projects@).push(
        project@,
    ));
}

/// Puts a new project on the list. `project_vars` holds its name, category
/// and type, and as its directory the base directory that it goes below. The
/// result is the directory of the project itself, which is also what the list
/// holds for it.
pub fn new_project(projects: &mut Projects, project_vars: Project) -> (project_path: String)
    ensures
        project_path@ == placed(
            project_vars@.directory,
            project_vars@.category,
            project_vars@.p_type,
            project_vars@.name,
        ),
        project_views(final(projects).projects@) == project_views(old(projects).projects@).push(
            ProjectView { directory: project_path@, ..project_vars@ },
        ),
        final(projects).project_path@ == old(projects).project_path@,
{
    let project_path = project_dir(
        project_vars.directory.as_str(),
        &project_vars.category,
        &project_vars.p_type,
        project_vars.name.as_str(),
    );
    add_project(
        projects,
        project_vars.name,
        project_path.clone(),
        project_vars.p_type,
        project_vars.category,
    );
    project_path
}

/// Whether a project has this name or lies in this directory.
pub open spec fn claims(project: ProjectView, name: Seq<char>, directory: Seq<char>) -> bool {
    project.name == name || project.directory == directory
}

/// Whether some project of the list has this name or lies in this directory.
pub open spec fn on_record(projects: Seq<ProjectView>, name: Seq<char>, directory: Seq<char>) -> bool {
    exists|i: int| 0 <= i < projects.len() && claims(#[trigger] projects[i], name, directory)
}

/// Whether a folder is on record already, under its name or its directory.
pub fn is_tracked(projects: &Vec<Project>, name: &str, directory: &str) -> (known: bool)
    ensures
        known == on_record(project_views(projects@), name@, directory@),
{
    let wanted_name = String::from_str(name);
    let wanted_dir = String::from_str(directory);
    let ghost all = project_views(projects@);
    let mut i: usize = 0;
    while i < projects.len()
        invariant
            i <= projects.len(),
            wanted_name@ == name@,
            wanted_dir@ == directory@,
            all == project_views(projects@),
            forall|j: int| 0 <= j < i ==> !claims(#[trigger] all[j], name@, directory@),
        decreases projects.len() - i,
    {
        assert(all[i as int] == projects@[i as int]@);
        if projects[i].name == wanted_name || projects[i].directory == wanted_dir {
            assert(claims(all[i as int], name@, directory@));
            return true;
        }
        i = i + 1;
    }
    false
}

/// The positions of the projects that are called `name`, in rising order.
pub open spec fn positions_named(projects: Seq<ProjectView>, name: Seq<char>) -> Seq<int>
    decreases projects.len(),
{
    if projects.len() == 0 {
        Seq::empty()
    } else if projects.last().name == name {
        positions_named(projects.drop_last(), name).push(projects.len() - 1)
    } else {
        positions_named(projects.drop_last(), name)
    }
}

/// Every position that `positions_named` lists lies in the list.
pub proof fn lemma_positions_in_range(projects: Seq<ProjectView>, name: Seq<char>)
    ensures
        forall|k: int|
            0 <= k < positions_named(projects, name).len() ==> 0 <= #[trigger] positions_named(
                projects,
                name,
            )[k] < projects.len() && projects[positions_named(projects, name)[k]].name == name,
    decreases projects.len(),
{
    if projects.len() > 0 {
        lemma_positions_in_range(projects.drop_last(), name);
    }
}

/// The positions of the projects that are called `name`.
pub fn matching_projects(projects: &Vec<Project>, name: &str) -> (found: Vec<usize>)
    ensures
        found@.map_values(|i: usize| i as int) == positions_named(project_views(projects@), name@),
{
    let wanted = String::from_str(name);
    let mut found: Vec<usize> = Vec::new();
    let mut i: usize = 0;
    let ghost all = project_views(projects@);
    assert(all.take(0) =~= Seq::empty());
    assert(found@.map_values(|i: usize| i as int) =~= positions_named(all.take(0), name@));
    while i < projects.len()
        invariant
            i <= projects.len(),
            wanted@ == name@,
            all == project_views(projects@),
            found@.map_values(|i: usize| i as int) == positions_named(all.take(i as int), name@),
        decreases projects.len() - i,
    {
        assert(all.take(i + 1).drop_last() =~= all.take(i as int));
        assert(all.take(i + 1).last() == projects@[i as int]@);
        if projects[i].name == wanted {
            let ghost before = found@.map_values(|i: usize| i as int);
            found.push(i);
            assert(found@.map_values(|i: usize| i as int) =~= before.push(i as int));
        }
        i = i + 1;
    }
    assert(all.take(projects.len() as int) =~= all);
    found
}

/// What to change in a project.
#[derive(Debug, PartialEq, Eq)]
pub struct EditOptions {
    pub name: Option<String>,
    pub directory: Option<String>,
    pub p_type: Option<String>,
    pub category: Option<String>,
    pub remove_type: bool,
    pub remove_category: bool,
}

/// What `EditOptions` stand for.
pub struct EditView {
    pub name: Option<Seq<char>>,
    pub directory: Option<Seq<char>>,
    pub p_type: Option<Seq<char>>,
    pub category: Option<Seq<char>>,
    pub remove_type: bool,
    pub remove_category: bool,
}

impl View for EditOptions {
    type V = EditView;

    open spec fn view(&self) -> EditView {
        EditView {
            name: opt_view(self.name),
            directory: opt_view(self.directory),
            p_type: opt_view(self.p_type),
            category: opt_view(self.category),
            remove_type: self.remove_type,
            remove_category: self.remove_category,
        }
    }
}

/// A project after an edit: a field for which the options hold a value takes
/// that value; type and category are dropped where the options say so, also
/// where they hold a new value for them.
pub open spec fn edited(project: ProjectView, options: EditView) -> ProjectView {
    ProjectView {
        name: match options.name {
            Some(n) => n,
            None => project.name,
        },
        directory: match options.directory {
            Some(d) => d,
            None => project.directory,
        },
        p_type: if options.remove_type {
            None
        } else if options.p_type is Some {
            options.p_type
        } else {
            project.p_type
        },
        category: if options.remove_category {
            None
        } else if options.category is Some {
            options.category
        } else {
            project.category
        },
    }
}

impl Project {
    /// Changes the project as the options say.
    pub fn apply(&mut self, options: EditOptions)
        ensures
            final(self)@ == edited(old(self)@, options@),
    {
        match options.name {
            Some(name) => {
                self.name = name;
            },
            None => {},
        }
        match options.directory {
            Some(directory) => {
                self.directory = directory;
            },
            None => {},
        }
        match options.p_type {
            Some(p_type) => {
                self.p_type = Some(p_type);
            },
            None => {},
        }
        match options.category {
            Some(category) => {
                self.category = Some(category);
            },
            None => {},
        }
        if options.remove_type {
            self.p_type = None;
        }
        if options.remove_category {
            self.category = None;
        }
    }
}

/// Edits one of the projects called `project_name`: the one at place `choice`
/// among them, counted from 0 in the order of the list. The other projects
/// stay as they are.
pub fn edit_project(
    projects: &mut Vec<Project>,
    project_name: &str,
    choice: usize,
    options: EditOptions,
)
    requires
        choice < positions_named(project_views(old(projects)@), project_name@).len(),
    ensures
        project_views(final(projects)@) == project_views(old(projects)@).update(
            positions_named(project_views(old(projects)@), project_name@)[choice as int],
            edited(
                project_views(old(projects)@)[positions_named(
                    project_views(old(projects)@),
                    project_name@,
                )[choice as int]],
                options@,
            ),
        ),
{
    let found = matching_projects(projects, project_name);
    let ghost all = project_views(projects@);
    proof {
        lemma_positions_in_range(all, project_name@);
    }
    let ghost place = positions_named(all, project_name@)[choice as int];
    assert(found@.map_values(|i: usize| i as int)[choice as int] == found@[choice as int] as int);
    let index = found[choice];
    assert(index as int == place);
    let mut project = projects[index].clone();
    project.apply(options);
    projects.set(index, project);
    assert(project_views(projects@) =~= all.update(place, edited(all[place], options@)));
}

/// The distance between two texts that `strsim::osa_distance` computes: the
/// least number of insertions, deletions, substitutions and swaps of
/// neighbours that turn one into the other, where no part is edited twice.
pub uninterp spec fn edit_distance(a: Seq<char>, b: Seq<char>) -> usize;

/// Calls `strsim::osa_distance`. The distance depends on the two texts alone.
#[verifier::external_body]
pub(crate) fn distance(a: &str, b: &str) -> (d: usize)
    ensures
        d == edit_distance(a@, b@),
{
    strsim::osa_distance(a, b)
}

/// The least of the distances; 0 for an empty list.
pub open spec fn least(distances: Seq<usize>) -> usize
    decreases distances.len(),
{
    if distances.len() == 0 {
        0
    } else if distances.len() == 1 {
        distances[0]
    } else {
        let before = least(distances.drop_last());
        if distances.last() < before {
            distances.last()
        } else {
            before
        }
    }
}

/// The least distance is one of the distances, and none is below it.
pub proof fn lemma_least(distances: Seq<usize>)
    requires
        distances.len() > 0,
    ensures
        forall|i: int| 0 <= i < distances.len() ==> least(distances) <= #[trigger] distances[i],
        exists|i: int| 0 <= i < distances.len() && #[trigger] distances[i] == least(distances),
    decreases distances.len(),
{
    if distances.len() == 1 {
        assert(distances[0] == least(distances));
    } else {
        let init = distances.drop_last();
        lemma_least(init);
        assert forall|i: int| 0 <= i < distances.len() implies least(distances)
            <= #[trigger] distances[i] by {
            if i < init.len() {
                assert(init[i] == distances[i]);
            }
        }
        let w = choose|i: int| 0 <= i < init.len() && #[trigger] init[i] == least(init);
        assert(distances[w] == init[w]);
        if distances.last() < least(init) {
            assert(distances[distances.len() - 1] == least(distances));
        } else {
            assert(distances[w] == least(distances));
        }
    }
}

/// The names whose distance is `d`, in the order of the list.
pub open spec fn names_at(names: Seq<Seq<char>>, distances: Seq<usize>, d: usize) -> Seq<
    Seq<char>,
>
    decreases names.len(),
{
    if names.len() == 0 || distances.len() != names.len() {
        Seq::empty()
    } else {
        let before = names_at(names.drop_last(), distances.drop_last(), d);
        if distances.last() == d {
            before.push(names.last())
        } else {
            before
        }
    }
}

/// The least of the distances, and the names that lie at that distance.
pub fn closest_names(names: &Vec<String>, distances: &Vec<usize>) -> (best: (usize, Vec<String>))
    requires
        names.len() == distances.len(),
        names.len() > 0,
    ensures
        best.0 == least(distances@),
        views(best.1@) == names_at(views(names@), distances@, best.0),
{
    let mut min = distances[0];
    let mut i: usize = 1;
    assert(distances@.take(1) =~= seq![distances@[0]]);
    while i < distances.len()
        invariant
            1 <= i <= distances.len(),
            min == least(distances@.take(i as int)),
        decreases distances.len() - i,
    {
        assert(distances@.take(i + 1).drop_last() =~= distances@.take(i as int));
        if distances[i] < min {
            min = distances[i];
        }
        i = i + 1;
    }
    assert(distances@.take(distances.len() as int) =~= distances@);
    let mut picked: Vec<String> = Vec::new();
    let mut k: usize = 0;
    let ghost all = views(names@);
    assert(all.take(0) =~= Seq::empty());
    assert(views(picked@) =~= names_at(all.take(0), distances@.take(0), min));
    while k < names.len()
        invariant
            k <= names.len(),
            names.len() == distances.len(),
            all == views(names@),
            views(picked@) == names_at(all.take(k as int), distances@.take(k as int), min),
        decreases names.len() - k,
    {
        assert(all.take(k + 1).drop_last() =~= all.take(k as int));
        assert(distances@.take(k + 1).drop_last() =~= distances@.take(k as int));
        assert(all.take(k + 1).last() == names@[k as int]@);
        if distances[k] == min {
            let ghost before = views(picked@);
            picked.push(names[k].clone());
            assert(views(picked@) =~= before.push(names@[k as int]@));
        }
        k = k + 1;
    }
    assert(all.take(names.len() as int) =~= all);
    assert(distances@.take(names.len() as int) =~= distances@);
    (min, picked)
}

/// The names of a list of projects.
pub open spec fn names_of(projects: Seq<ProjectView>) -> Seq<Seq<char>> {
    projects.map_values(|p: ProjectView| p.name)
}

/// The distance of each name from `name`.
pub open spec fn distances_from(name: Seq<char>, names: Seq<Seq<char>>) -> Seq<usize> {
    names.map_values(|n: Seq<char>| edit_distance(name, n))
}

/// The names of the projects that are closest to `name`, with their distance
/// from it. A distance of 0 is that of the name itself.
pub fn get_similar(projects: &[Project], name: &str) -> (best: (usize, Vec<String>))
    requires
        projects@.len() > 0,
    ensures
        best.0 == least(distances_from(name@, names_of(project_views(projects@)))),
        views(best.1@) == names_at(
            names_of(project_views(projects@)),
            distances_from(name@, names_of(project_views(projects@))),
            best.0,
        ),
{
    let mut names: Vec<String> = Vec::new();
    let mut distances: Vec<usize> = Vec::new();
    let ghost all = names_of(project_views(projects@));
    let mut i: usize = 0;
    assert(views(names@) =~= all.take(0));
    assert(distances@ =~= distances_from(name@, all).take(0));
    while i < projects.len()
        invariant
            i <= projects.len(),
            all == names_of(project_views(projects@)),
            views(names@) == all.take(i as int),
            distances@ == distances_from(name@, all).take(i as int),
        decreases projects.len() - i,
    {
        let ghost names_before = views(names@);
        let ghost current = projects@[i as int].name@;
        assert(all[i as int] == current);
        let d = distance(name, projects[i].name.as_str());
        names.push(projects[i].name.clone());
        distances.push(d);
        assert(views(names@) =~= names_before.push(current));
        assert(all.take(i + 1) =~= all.take(i as int).push(current));
        assert(distances_from(name@, all).take(i + 1) =~= distances_from(name@, all).take(
            i as int,
        ).push(d));
        i = i + 1;
    }
    assert(all.take(projects.len() as int) =~= all);
    assert(distances_from(name@, all).take(projects.len() as int) =~= distances_from(name@, all));
    closest_names(&names, &distances)
}

/// Whether a command on projects can go on with `name`: it can where `*`
/// stands for all projects, and where a project lies at distance 0 from the
/// name. Where it cannot, the result holds the names closest to `name`.
pub fn unknown_name(projects: &[Project], name: &str) -> (closest: Option<Vec<String>>)
    requires
        projects@.len() > 0,
    ensures
        closest is None <==> (name@ == "*"@ || least(
            distances_from(name@, names_of(project_views(projects@))),
        ) == 0),
        closest is Some ==> views(closest->Some_0@) == names_at(
            names_of(project_views(projects@)),
            distances_from(name@, names_of(project_views(projects@))),
            least(distances_from(name@, names_of(project_views(projects@)))),
        ),
{
    let best = get_similar(projects, name);
    if String::from_str(name) == String::from_str("*") || best.0 == 0 {
        None
    } else {
        Some(best.1)
    }
}

} // verus!
