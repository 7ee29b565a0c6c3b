//! The settings of the tool: where projects and templates live, and how a
//! repository is cloned.

use vstd::prelude::*;
use vstd::string::*;
use crate::paths::{join, path_join};
use crate::text::{opt_view, replace, replaced, split, split_on, views};

verus! {

/// The settings that the configuration file holds.
#[derive(Debug, PartialEq, Eq)]
pub struct Settings {
    pub base_dir: Option<String>,
    pub template_dir: Option<String>,
    pub database_dir: Option<String>,
    pub git_command: String,
    pub config_dir: String,
}

/// A setting that can be given a new value by name.
#[derive(Debug, Clone, Copy, PartialEq, Eq, Structural)]
pub enum Setting {
    BaseDir,
    TemplateDir,
    GitCommand,
}

/// The clone command of a configuration file that names none.
pub fn default_git_command() -> (command: String)
    ensures
        command@ == "git clone {FPM_GIT_URL}"@,
{
    String::from_str("git clone {FPM_GIT_URL}")
}

impl Default for Settings {
    fn default() -> (settings: Self)
        ensures
            settings.base_dir is None,
            settings.template_dir is None,
            settings.database_dir is None,
            settings.git_command@ == "git clone {fpm_git_url} --recursive {fpm_project_dir}"@,
            settings.config_dir@ == Seq::<char>::empty(),
    {
        Settings {
            base_dir: None,
            template_dir: None,
            database_dir: None,
            git_command: String::from_str("git clone {fpm_git_url} --recursive {fpm_project_dir}"),
            config_dir: String::new(),
        }
    }
}

impl Setting {
    /// The setting of the given name, if there is one.
    pub fn parse(name: &str) -> (setting: Option<Setting>)
        ensures
            setting == if name@ == "base_dir"@ {
                Some(Setting::BaseDir)
            } else if name@ == "template_dir"@ {
                Some(Setting::TemplateDir)
            } else if name@ == "git_command"@ {
                Some(Setting::GitCommand)
            } else {
                None::<Setting>
            },
    {
        let name = String::from_str(name);
        if name == String::from_str("base_dir") {
            Some(Setting::BaseDir)
        } else if name == String::from_str("template_dir") {
            Some(Setting::TemplateDir)
        } else if name == String::from_str("git_command") {
            Some(Setting::GitCommand)
        } else {
            None
        }
    }
}

/// A clone command with the address of the repository and the directory of
/// the project filled in, word by word.
pub open spec fn clone_command(command: Seq<char>, git_url: Seq<char>, project_dir: Seq<char>) -> Seq<
    Seq<char>,
> {
    split_on(
        replaced(
            replaced(replaced(command, "{FPM_GIT_URL}"@, git_url), "{fpm_git_url}"@, git_url),
            "{fpm_project_dir}"@,
            project_dir,
        ),
        ' ',
    )
}

impl Settings {
    /// Gives one setting a new value and leaves the others as they are.
    pub fn set(&mut self, setting: Setting, value: String)
        ensures
            opt_view(final(self).base_dir) == if setting == Setting::BaseDir {
                Some(value@)
            } else {
                opt_view(old(self).base_dir)
            },
            opt_view(final(self).template_dir) == if setting == Setting::TemplateDir {
                Some(value@)
            } else {
                opt_view(old(self).template_dir)
            },
            final(self).git_command@ == if setting == Setting::GitCommand {
                value@
            } else {
                old(self).git_command@
            },
            opt_view(final(self).database_dir) == opt_view(old(self).database_dir),
            final(self).config_dir@ == old(self).config_dir@,
    {
        match setting {
            Setting::BaseDir => {
                self.base_dir = Some(value);
            },
            Setting::TemplateDir => {
                self.template_dir = Some(value);
            },
            Setting::GitCommand => {
                self.git_command = value;
            },
        }
    }

    /// The base directory to work in: the one given, else the configured one.
    pub fn resolve_base_dir(&self, directory: Option<String>) -> (dir: Option<String>)
        ensures
            opt_view(dir) == if directory is Some {
                opt_view(directory)
            } else {
                opt_view(self.base_dir)
            },
    {
        match directory {
            Some(d) => Some(d),
            None => match &self.base_dir {
                Some(b) => Some(b.clone()),
                None => None,
            },
        }
    }

    /// Makes sure that a template directory is set: where none is, it becomes
    /// the folder `templates` below `dir`.
    pub fn ensure_template_dir(&mut self, dir: &str)
        ensures
            opt_view(final(self).template_dir) == if old(self).template_dir is Some {
                opt_view(old(self).template_dir)
            } else {
                Some(path_join(dir@, "templates"@))
            },
            opt_view(final(self).base_dir) == opt_view(old(self).base_dir),
            opt_view(final(self).database_dir) == opt_view(old(self).database_dir),
            final(self).git_command@ == old(self).git_command@,
            final(self).config_dir@ == old(self).config_dir@,
    {
        if self.template_dir.is_none() {
            self.template_dir = Some(join(dir, "templates"));
        }
    }

    /// The words of the command that clones `git_url` into `project_dir`: the
    /// configured command with `{FPM_GIT_URL}` and `{fpm_git_url}` replaced by
    /// the address, `{fpm_project_dir}` by the directory, split at spaces.
    pub fn git_clone_command(&self, git_url: &str, project_dir: &str) -> (words: Vec<String>)
        ensures
            views(words@) == clone_command(self.git_command@, git_url@, project_dir@),
            words@.len() >= 1,
    {
        let upper = replace(self.git_command.as_str(), "{FPM_GIT_URL}", git_url);
        let lower = replace(upper.as_str(), "{fpm_git_url}", git_url);
        let full = replace(lower.as_str(), "{fpm_project_dir}", project_dir);
        split(full.as_str(), ' ')
    }
}

} // verus!
