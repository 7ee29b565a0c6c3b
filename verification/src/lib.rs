//! A project folder manager: tracked project records, configuration defaults,
//! and a small template engine that composes folder trees.

use vstd::prelude::*;

pub mod config;
pub mod database;
pub mod filter;
pub mod folder;
pub mod materialize;
pub mod paths;
pub mod project;
pub mod reconcile;
pub mod settings;
pub mod sorting;
pub mod templates;
pub mod text;

verus! {

/// The name of the tool, and of its folder below the configuration directory.
pub const PROJECT_NAME: &'static str = "fpm";

/// The name of the file that holds the settings.
pub const CONFIG_FILENAME: &'static str = "config.toml";

/// The name of the file that holds the list of projects.
pub const PROJECT_DB_FILENAME: &'static str = "projects_db.json";

/// What the names of the tool's environment variables start with.
pub const PROJECT_ENV_PREFIX: &'static str = "FPM";

} // verus!
