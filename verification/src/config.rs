//! Where things are kept: the folder of the configuration, the path of the
//! database of described projects, and the base directory for new projects.

use vstd::prelude::*;
use vstd::string::*;
use crate::database::Project;
use crate::paths::{join, join_opt, path_join, push_opt};

verus! {

/// What can go wrong with the configuration.
#[derive(Debug, PartialEq, Eq)]
pub enum Error {
    /// The configuration lacks the value of this name.
    ConfigMissingValue(String),
}

/// The configuration of the database of described projects.
#[derive(Debug, PartialEq, Eq)]
pub struct Config {
    pub database_path: String,
    pub base_dir: Option<String>,
}

/// Asks `dirs::config_dir` for the user's configuration directory, which
/// depends on the system and the environment; nothing is said of the answer.
/// A directory whose path is no text counts as none.
#[verifier::external_body]
pub(crate) fn system_config_dir() -> (dir: Option<String>) {
    dirs::config_dir().and_then(|p| p.to_str().map(String::from))
}

/// The folder `fpm` below `base`, or below the empty path where there is no
/// base.
pub fn config_folder_in(base: Option<String>) -> (folder: String)
    ensures
        folder@ == path_join(
            match base {
                Some(b) => b@,
                None => Seq::empty(),
            },
            "fpm"@,
        ),
{
    proof {
        reveal_strlit("");
        assert(""@ =~= Seq::<char>::empty());
    }
    match base {
        Some(b) => join(b.as_str(), "fpm"),
        None => join("", "fpm"),
    }
}

/// The folder of this tool below the user's configuration directory.
pub fn config_folder() -> (folder: String)
    ensures
        exists|base: Seq<char>| folder@ == #[trigger] path_join(base, "fpm"@),
{
    let folder = config_folder_in(system_config_dir());
    folder
}

/// The file `name` in the folder of this tool below the user's configuration
/// directory; none where the user has no such directory.
pub fn config_file(name: &str) -> (path: Option<String>)
    ensures
        path is Some ==> exists|base: Seq<char>|
            path->Some_0@ == path_join(#[trigger] path_join(base, "fpm"@), name@),
{
    config_file_in(system_config_dir(), name)
}

/// The file `name` in the folder `fpm` below `base`; none where there is no
/// base.
pub fn config_file_in(base: Option<String>, name: &str) -> (path: Option<String>)
    ensures
        crate::text::opt_view(path) == match base {
            Some(b) => Some(path_join(path_join(b@, "fpm"@), name@)),
            None => None,
        },
{
    match base {
        Some(b) => {
            let folder = config_folder_in(Some(b));
            Some(join(folder.as_str(), name))
        },
        None => None,
    }
}

/// Where a described project belongs: below `base`, in the folder of its
/// category, then in that of its language, under its name, leaving out what
/// the project does not have. The path is built from the empty path.
pub open spec fn project_folder(base: Seq<char>, project: crate::database::ProjectView) -> Seq<char> {
    join_opt(
        join_opt(join_opt(path_join(Seq::empty(), base), project.category), project.language),
        project.name,
    )
}

impl Config {
    /// The configuration whose database is the file `projectDB.db` in
    /// `folder`, with no base directory.
    pub fn in_folder(folder: &str) -> (config: Config)
        ensures
            config.database_path@ == path_join(folder@, "projectDB.db"@),
            config.base_dir is None,
    {
        Config { database_path: join(folder, "projectDB.db"), base_dir: None }
    }

    /// The configuration to start with: the database lies in the folder of
    /// this tool below the user's configuration directory, and no base
    /// directory is set.
    pub fn new() -> (config: Config)
        ensures
            config.base_dir is None,
            exists|base: Seq<char>|
                config.database_path@ == path_join(
                    #[trigger] path_join(base, "fpm"@),
                    "projectDB.db"@,
                ),
    {
        let folder = config_folder();
        Config::in_folder(folder.as_str())
    }

    /// The folder for a project: it needs the base directory.
    pub fn gen_project_folder(&self, project: &Project) -> (folder: Result<String, Error>)
        ensures
            match folder {
                Ok(path) => self.base_dir is Some && path@ == project_folder(
                    self.base_dir->Some_0@,
                    project@,
                ),
                Err(Error::ConfigMissingValue(what)) => self.base_dir is None && what@
                    == "base_dir"@,
            },
    {
        proof {
            reveal_strlit("");
            assert(""@ =~= Seq::<char>::empty());
        }
        match &self.base_dir {
            Some(base_dir) => {
                let root = join("", base_dir.as_str());
                let in_category = push_opt(root, &project.category);
                let in_language = push_opt(in_category, &project.language);
                Ok(push_opt(in_language, &project.name))
            },
            None => Err(Error::ConfigMissingValue(String::from_str("base_dir"))),
        }
    }
}

impl Default for Config {
    fn default() -> (config: Config)
        ensures
            config.base_dir is None,
            exists|base: Seq<char>|
                config.database_path@ == path_join(
                    #[trigger] path_join(base, "fpm"@),
                    "projectDB.db"@,
                ),
    {
        Config::new()
    }
}

} // verus!
