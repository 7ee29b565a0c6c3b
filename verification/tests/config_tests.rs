use fpm::config::{config_file, config_file_in, config_folder, config_folder_in, Config, Error};
use fpm::database::{Database, Project};
use fpm::filter::list_names;
use fpm::project::new_project;
use fpm::text::{distinct, is_yes, non_empty};
use fpm::{CONFIG_FILENAME, PROJECT_DB_FILENAME, PROJECT_ENV_PREFIX, PROJECT_NAME};

fn described(name: Option<&str>, language: Option<&str>, category: Option<&str>) -> Project {
    Project::new(
        name.map(|s| s.to_string()),
        None,
        vec![],
        language.map(|s| s.to_string()),
        category.map(|s| s.to_string()),
    )
}

#[test]
fn constants_name_the_files() {
    assert_eq!(PROJECT_NAME, "fpm");
    assert_eq!(CONFIG_FILENAME, "config.toml");
    assert_eq!(PROJECT_DB_FILENAME, "projects_db.json");
    assert_eq!(PROJECT_ENV_PREFIX, "FPM");
}

#[test]
fn config_folder_lies_below_the_base() {
    assert_eq!(config_folder_in(Some("/home/me/.config".to_string())), "/home/me/.config/fpm");
    assert_eq!(config_folder_in(None), "fpm");
    assert!(config_folder().ends_with("fpm"));
    if let Some(path) = config_file("config.toml") {
        assert!(path.ends_with("fpm/config.toml"));
    }
}

#[test]
fn config_starts_without_a_base_directory() {
    let config = Config::in_folder("/home/me/.config/fpm");
    assert_eq!(config.database_path, "/home/me/.config/fpm/projectDB.db".to_string());
    assert_eq!(config.base_dir, None);
    let fresh = Config::new();
    assert_eq!(fresh.base_dir, None);
    assert!(fresh.database_path.ends_with("projectDB.db"));
    assert_eq!(Config::default().base_dir, None);
}

#[test]
fn project_folder_needs_the_base_directory() {
    let config = Config { database_path: "/db".to_string(), base_dir: None };
    assert_eq!(
        config.gen_project_folder(&described(Some("tool"), None, None)),
        Err(Error::ConfigMissingValue("base_dir".to_string()))
    );
}

#[test]
fn project_folder_is_base_category_language_name() {
    let config = Config { database_path: "/db".to_string(), base_dir: Some("/base".to_string()) };
    assert_eq!(
        config.gen_project_folder(&described(Some("tool"), Some("rust"), Some("work"))),
        Ok("/base/work/rust/tool".to_string())
    );
    assert_eq!(
        config.gen_project_folder(&described(Some("tool"), None, Some("work"))),
        Ok("/base/work/tool".to_string())
    );
    assert_eq!(
        config.gen_project_folder(&described(None, Some("rust"), None)),
        Ok("/base/rust".to_string())
    );
    assert_eq!(config.gen_project_folder(&described(None, None, None)), Ok("/base".to_string()));
}

#[test]
fn new_described_project_has_no_directory() {
    let p = Project::new(
        Some("Test".to_string()),
        Some("a test project".to_string()),
        vec!["test".to_string(), "project".to_string()],
        Some("rust".to_string()),
        None,
    );
    assert_eq!(
        p,
        Project {
            rowid: None,
            name: Some("Test".to_string()),
            desc: Some("a test project".to_string()),
            directory: None,
            tags: Some(vec!["test".to_string(), "project".to_string()]),
            language: Some("rust".to_string()),
            category: None,
        }
    );
    assert_eq!(Project::default().tags, None);
}

#[test]
fn build_takes_the_given_directory() {
    let config = Config { database_path: "/db".to_string(), base_dir: Some("/base".to_string()) };
    let mut p = described(Some("tool"), Some("rust"), None);
    assert_eq!(p.build(Some("/given".to_string()), &config), Ok(()));
    assert_eq!(p.directory, Some("/given".to_string()));
    assert_eq!(p.name, Some("tool".to_string()));
}

#[test]
fn build_generates_the_directory() {
    let config = Config { database_path: "/db".to_string(), base_dir: Some("/base".to_string()) };
    let mut p = described(Some("tool"), Some("rust"), None);
    assert_eq!(p.build(None, &config), Ok(()));
    assert_eq!(p.directory, Some("/base/rust/tool".to_string()));
}

#[test]
fn build_fails_without_directory_and_base() {
    let config = Config { database_path: "/db".to_string(), base_dir: None };
    let mut p = described(Some("tool"), None, None);
    assert_eq!(
        p.build(None, &config),
        Err(Error::ConfigMissingValue("base_dir".to_string()))
    );
    assert_eq!(p.directory, None);
    assert_eq!(p.build(Some("/given".to_string()), &config), Ok(()));
}

#[test]
fn database_starts_empty_and_grows() {
    let mut db = Database::new();
    assert_eq!(db, Database::default());
    assert!(db.projects().is_empty());
    db.insert(described(Some("a"), None, None));
    db.insert(described(Some("b"), None, None));
    assert_eq!(db.projects().len(), 2);
    assert_eq!(db.projects()[1].name, Some("b".to_string()));
    assert_eq!(
        Database::from_projects(vec![described(Some("a"), None, None), described(Some("b"), None, None)]),
        db
    );
}

#[test]
fn new_project_records_where_the_project_lies() {
    let mut projects = fpm::project::Projects::default();
    let path = new_project(
        &mut projects,
        fpm::project::Project {
            name: "tool".to_string(),
            directory: "/base".to_string(),
            category: Some("work".to_string()),
            p_type: Some("rust".to_string()),
        },
    );
    assert_eq!(path, "/base/work/rust/tool".to_string());
    assert_eq!(
        projects.projects,
        vec![fpm::project::Project {
            name: "tool".to_string(),
            directory: "/base/work/rust/tool".to_string(),
            category: Some("work".to_string()),
            p_type: Some("rust".to_string()),
        }]
    );
}

#[test]
fn list_names_without_and_with_a_filter() {
    let projects: Vec<fpm::project::Project> = ["alpha", "beta", "alphabet", "gamma"]
        .iter()
        .map(|n| fpm::project::Project {
            name: n.to_string(),
            directory: format!("/x/{}", n),
            category: None,
            p_type: None,
        })
        .collect();
    let all: Vec<String> = vec!["alpha", "beta", "alphabet", "gamma"].iter().map(|s| s.to_string()).collect();
    assert_eq!(list_names(&projects, &None), Some(all));
    assert_eq!(
        list_names(&projects, &Some("^alpha".to_string())),
        Some(vec!["alpha".to_string(), "alphabet".to_string()])
    );
    assert_eq!(
        list_names(&projects, &Some("a$".to_string())),
        Some(vec!["alpha".to_string(), "beta".to_string(), "gamma".to_string()])
    );
    assert_eq!(list_names(&projects, &Some("zzz".to_string())), Some(vec![]));
    assert_eq!(list_names(&projects, &Some("(unclosed".to_string())), None);
    assert_eq!(list_names(&Vec::new(), &Some("(unclosed".to_string())), None);
}

#[test]
fn small_helpers_on_text() {
    assert_eq!(non_empty("".to_string()), None);
    assert_eq!(non_empty("x".to_string()), Some("x".to_string()));
    assert_eq!(non_empty(" ".to_string()), Some(" ".to_string()));
    assert!(is_yes("y"));
    assert!(is_yes(" y\n"));
    assert!(!is_yes("Y"));
    assert!(!is_yes("yes"));
    assert!(!is_yes(""));
    let items: Vec<String> = ["b", "a", "b", "c", "a"].iter().map(|s| s.to_string()).collect();
    assert_eq!(distinct(&items), vec!["b".to_string(), "a".to_string(), "c".to_string()]);
    assert_eq!(distinct(&Vec::new()), Vec::<String>::new());
}

#[test]
fn config_file_lies_in_the_folder_of_the_tool() {
    assert_eq!(
        config_file_in(Some("/home/me/.config".to_string()), "config.toml"),
        Some("/home/me/.config/fpm/config.toml".to_string())
    );
    assert_eq!(
        config_file_in(Some("/c".to_string()), "projects_db.json"),
        Some("/c/fpm/projects_db.json".to_string())
    );
    assert_eq!(config_file_in(None, "config.toml"), None);
}
