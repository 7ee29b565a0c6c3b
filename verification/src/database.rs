//! Described projects: a project with its description, tags and language,
//! and the list of them that the database holds.

use vstd::prelude::*;
use vstd::string::*;
use crate::config::{Config, Error, project_folder};
use crate::text::{opt_view, views};

verus! {

/// What a described `Project` stands for.
pub struct ProjectView {
    pub rowid: Option<i64>,
    pub name: Option<Seq<char>>,
    pub desc: Option<Seq<char>>,
    pub directory: Option<Seq<char>>,
    pub tags: Option<Seq<Seq<char>>>,
    pub language: Option<Seq<char>>,
    pub category: Option<Seq<char>>,
}

/// A project as the database holds it.
#[derive(Debug, PartialEq, Eq)]
pub struct Project {
    pub rowid: Option<i64>,
    pub name: Option<String>,
    pub desc: Option<String>,
    pub directory: Option<String>,
    pub tags: Option<Vec<String>>,
    pub language: Option<String>,
    pub category: Option<String>,
}

/// The view of an optional list of strings.
pub open spec fn opt_views(o: Option<Vec<String>>) -> Option<Seq<Seq<char>>> {
    match o {
        Some(v) => Some(views(v@)),
        None => None,
    }
}

impl View for Project {
    type V = ProjectView;

    open spec fn view(&self) -> ProjectView {
        ProjectView {
            rowid: self.rowid,
            name: opt_view(self.name),
            desc: opt_view(self.desc),
            directory: opt_view(self.directory),
            tags: opt_views(self.tags),
            language: opt_view(self.language),
            category: opt_view(self.category),
        }
    }
}

/// The views of a list of described projects.
pub open spec fn project_views(projects: Seq<Project>) -> Seq<ProjectView> {
    projects.map_values(|p: Project| p@)
}

impl Default for Project {
    fn default() -> (project: Self)
        ensures
            project@ == (ProjectView {
                rowid: None,
                name: None,
                desc: None,
                directory: None,
                tags: None,
                language: None,
                category: None,
            }),
    {
        Project {
            rowid: None,
            name: None,
            desc: None,
            directory: None,
            tags: None,
            language: None,
            category: None,
        }
    }
}

impl Project {
    /// A project that is not in the database yet and has no directory.
    pub fn new(
        name: Option<String>,
        desc: Option<String>,
        tags: Vec<String>,
        language: Option<String>,
        category: Option<String>,
    ) -> (project: Self)
        ensures
            project@ == (ProjectView {
                rowid: None,
                name: opt_view(name),
                desc: opt_view(desc),
                directory: None,
                tags: Some(views(tags@)),
                language: opt_view(language),
                category: opt_view(category),
            }),
    {
        Project { rowid: None, name, desc, directory: None, tags: Some(tags), language, category }
    }

    /// Settles where the project lies: in `dir` where one is given, else in
    /// the folder that the configuration gives it. Where neither can be had
    /// the project stays as it is. The directory is not created here.
    pub fn build(&mut self, dir: Option<String>, config: &Config) -> (done: Result<(), Error>)
        ensures
            match done {
                Ok(_) => final(self)@ == (ProjectView {
                    directory: Some(
                        if dir is Some {
                            dir->Some_0@
                        } else {
                            project_folder(config.base_dir->Some_0@, old(self)@)
                        },
                    ),
                    ..old(self)@
                }) && (dir is Some || config.base_dir is Some),
                Err(Error::ConfigMissingValue(what)) => dir is None && config.base_dir is None
                    && what@ == "base_dir"@ && final(self)@ == old(self)@,
            },
    {
        match dir {
            Some(d) => {
                self.directory = Some(d);
                Ok(())
            },
            None => match config.gen_project_folder(self) {
                Ok(folder) => {
                    self.directory = Some(folder);
                    Ok(())
                },
                Err(e) => Err(e),
            },
        }
    }
}

/// The list of projects that the database holds.
#[derive(Debug, PartialEq, Eq)]
pub struct Database {
    projects: Vec<Project>,
}

impl View for Database {
    type V = Seq<ProjectView>;

    closed spec fn view(&self) -> Seq<ProjectView> {
        project_views(self.projects@)
    }
}

impl Database {
    /// A database without projects.
    pub fn new() -> (database: Self)
        ensures
            database@ == Seq::<ProjectView>::empty(),
    {
        let database = Database { projects: Vec::new() };
        assert(database@ =~= Seq::<ProjectView>::empty());
        database
    }

    /// A database that holds the given projects.
    pub fn from_projects(projects: Vec<Project>) -> (database: Self)
        ensures
            database@ == project_views(projects@),
    {
        Database { projects }
    }

    /// Adds a project after those that are there.
    pub fn insert(&mut self, project: Project)
        ensures
            final(self)@ == old(self)@.push(project@),
    {
        self.projects.push(project);
        assert(self@ =~= old(self)@.push(project@));
    }

    /// The projects of the database, in their order.
    pub fn projects(&self) -> (projects: &Vec<Project>)
        ensures
            project_views(projects@) == self@,
    {
        &self.projects
    }
}

impl Default for Database {
    fn default() -> (database: Self)
        ensures
            database@ == Seq::<ProjectView>::empty(),
    {
        Database::new()
    }
}

} // verus!
