use fpm::project::{
    add_project, closest_names, edit_project, get_similar, is_tracked, matching_projects,
    unknown_name, EditOptions, FileError, Project, Projects,
};
use fpm::sorting::{add_tag, key_less, normalized, project_less, sorted_strings};

fn project(name: &str, directory: &str) -> Project {
    Project {
        name: name.to_string(),
        directory: directory.to_string(),
        category: None,
        p_type: None,
    }
}

fn no_edit() -> EditOptions {
    EditOptions {
        name: None,
        directory: None,
        p_type: None,
        category: None,
        remove_type: false,
        remove_category: false,
    }
}

#[test]
fn test_project_add() {
    let mut projects = Projects {
        project_path: "./tests/projects_db_project_add.json".to_string(),
        ..Projects::default()
    };

    add_project(
        &mut projects,
        "test_proj".to_string(),
        "./tests".to_string(),
        None,
        None,
    );

    assert_eq!(
        projects.projects[0],
        Project {
            name: "test_proj".to_string(),
            directory: "./tests".to_string(),
            category: None,
            p_type: None,
        }
    );
}

#[test]
fn add_project_appends_and_keeps_the_path() {
    let mut projects = Projects {
        projects: vec![project("a", "/a")],
        project_path: "/db.json".to_string(),
    };
    add_project(
        &mut projects,
        "b".to_string(),
        "/b".to_string(),
        Some("rust".to_string()),
        Some("work".to_string()),
    );
    assert_eq!(projects.projects.len(), 2);
    assert_eq!(projects.projects[0], project("a", "/a"));
    assert_eq!(
        projects.projects[1],
        Project {
            name: "b".to_string(),
            directory: "/b".to_string(),
            category: Some("work".to_string()),
            p_type: Some("rust".to_string()),
        }
    );
    assert_eq!(projects.project_path, "/db.json".to_string());
}

#[test]
fn file_errors_differ() {
    assert_ne!(FileError::LoadingError, FileError::ParsingError);
}

#[test]
fn project_clone_and_default() {
    let p = Project {
        name: "n".to_string(),
        directory: "/d".to_string(),
        category: Some("c".to_string()),
        p_type: None,
    };
    assert_eq!(p.clone(), p);
    assert!(p.same_as(&p.clone()));
    assert!(!p.same_as(&project("n", "/d")));
    assert_eq!(Project::default(), project("", ""));
    let list = Projects { projects: vec![p], project_path: "/x".to_string() };
    assert_eq!(list.clone(), list);
}

#[test]
fn is_tracked_by_name_or_directory() {
    let projects = vec![project("a", "/x/a"), project("b", "/x/b")];
    assert!(is_tracked(&projects, "a", "/elsewhere"));
    assert!(is_tracked(&projects, "other", "/x/b"));
    assert!(!is_tracked(&projects, "c", "/x/c"));
    assert!(!is_tracked(&Vec::new(), "a", "/x/a"));
}

#[test]
fn matching_projects_lists_positions() {
    let projects = vec![project("a", "/1"), project("b", "/2"), project("a", "/3")];
    assert_eq!(matching_projects(&projects, "a"), vec![0, 2]);
    assert_eq!(matching_projects(&projects, "b"), vec![1]);
    assert_eq!(matching_projects(&projects, "c"), Vec::<usize>::new());
}

#[test]
fn edit_changes_the_chosen_project_only() {
    let mut projects = vec![project("a", "/1"), project("b", "/2"), project("a", "/3")];
    edit_project(
        &mut projects,
        "a",
        1,
        EditOptions {
            name: Some("z".to_string()),
            directory: Some("/9".to_string()),
            p_type: Some("rust".to_string()),
            category: Some("work".to_string()),
            ..no_edit()
        },
    );
    assert_eq!(projects[0], project("a", "/1"));
    assert_eq!(projects[1], project("b", "/2"));
    assert_eq!(
        projects[2],
        Project {
            name: "z".to_string(),
            directory: "/9".to_string(),
            category: Some("work".to_string()),
            p_type: Some("rust".to_string()),
        }
    );
}

#[test]
fn edit_removal_wins_over_a_new_value() {
    let mut p = Project {
        name: "a".to_string(),
        directory: "/a".to_string(),
        category: Some("old".to_string()),
        p_type: Some("old".to_string()),
    };
    p.apply(EditOptions {
        p_type: Some("new".to_string()),
        category: Some("new".to_string()),
        remove_type: true,
        remove_category: true,
        ..no_edit()
    });
    assert_eq!(p, project("a", "/a"));
    let mut q = Project {
        name: "a".to_string(),
        directory: "/a".to_string(),
        category: Some("old".to_string()),
        p_type: Some("old".to_string()),
    };
    q.apply(no_edit());
    assert_eq!(q.category, Some("old".to_string()));
    assert_eq!(q.p_type, Some("old".to_string()));
}

#[test]
fn closest_names_picks_all_at_the_least_distance() {
    let names = vec!["a".to_string(), "b".to_string(), "c".to_string(), "d".to_string()];
    assert_eq!(
        closest_names(&names, &vec![3, 1, 2, 1]),
        (1, vec!["b".to_string(), "d".to_string()])
    );
    assert_eq!(closest_names(&names, &vec![0, 1, 2, 3]), (0, vec!["a".to_string()]));
    assert_eq!(
        closest_names(&vec!["x".to_string()], &vec![7]),
        (7, vec!["x".to_string()])
    );
}

#[test]
fn get_similar_finds_the_exact_name() {
    let projects = vec![project("alpha", "/1"), project("beta", "/2"), project("gamma", "/3")];
    assert_eq!(get_similar(&projects, "beta"), (0, vec!["beta".to_string()]));
}

#[test]
fn get_similar_counts_a_swap_as_one_edit() {
    let projects = vec![project("abcd", "/1"), project("xyz", "/2"), project("abdc", "/3")];
    assert_eq!(get_similar(&projects, "abdc"), (0, vec!["abdc".to_string()]));
    assert_eq!(get_similar(&projects, "bacd"), (1, vec!["abcd".to_string()]));
    assert_eq!(
        get_similar(&projects, "abxx"),
        (2, vec!["abcd".to_string(), "abdc".to_string()])
    );
    let far = vec![project("ab", "/1")];
    assert_eq!(get_similar(&far, "bca"), (3, vec!["ab".to_string()]));
}

#[test]
fn normalized_keeps_the_first_project_of_each_name_and_directory() {
    let with_type = Project {
        name: "a".to_string(),
        directory: "/1".to_string(),
        category: None,
        p_type: Some("t".to_string()),
    };
    let with_category = Project {
        name: "a".to_string(),
        directory: "/1".to_string(),
        category: Some("c".to_string()),
        p_type: None,
    };
    let projects = vec![
        project("b", "/2"),
        with_category.clone(),
        project("a", "/1"),
        project("b", "/2"),
        with_type.clone(),
        project("a", "/0"),
        project("a", "/1"),
    ];
    assert_eq!(
        normalized(&projects),
        vec![project("a", "/0"), with_category.clone(), project("b", "/2")]
    );
    assert_eq!(
        normalized(&vec![with_type.clone(), with_category.clone(), project("a", "/1")]),
        vec![with_type.clone()]
    );
    assert_eq!(
        normalized(&vec![project("a", "/1"), with_type, with_category]),
        vec![project("a", "/1")]
    );
    assert_eq!(normalized(&Vec::new()), Vec::<Project>::new());
}

#[test]
fn normalized_orders_by_name_then_directory() {
    let projects = vec![
        project("b", "/1"),
        project("a", "/2"),
        project("a", "/10"),
        project("B", "/3"),
        project("", "/z"),
    ];
    assert_eq!(
        normalized(&projects),
        vec![
            project("", "/z"),
            project("B", "/3"),
            project("a", "/10"),
            project("a", "/2"),
            project("b", "/1"),
        ]
    );
    assert!(key_less(&project("a", "/2"), &project("b", "/1")));
    assert!(key_less(&project("a", "/1"), &project("a", "/2")));
    assert!(!key_less(&project("a", "/1"), &project("a", "/1")));
    assert!(!key_less(&project("b", "/1"), &project("a", "/2")));
    let filed = Project { category: Some("c".to_string()), ..project("a", "/1") };
    assert!(!key_less(&project("a", "/1"), &filed));
    assert!(!key_less(&filed, &project("a", "/1")));
    assert!(project_less(&project("a", "/1"), &filed));
}

#[test]
fn normalized_agrees_with_the_derived_order() {
    let projects = vec![
        project("zeta", "/z"),
        project("Alpha", "/a"),
        project("alpha", "/b"),
        project("alpha", "/a"),
        project("", "/e"),
    ];
    let mut expected = projects.clone();
    expected.sort();
    expected.dedup();
    assert_eq!(normalized(&projects), expected);
    for a in &projects {
        for b in &projects {
            assert_eq!(project_less(a, b), a < b);
        }
    }
}

#[test]
fn unknown_name_offers_the_closest_names() {
    let projects = vec![project("alpha", "/1"), project("beta", "/2"), project("alpah", "/3")];
    assert_eq!(unknown_name(&projects, "beta"), None);
    assert_eq!(unknown_name(&projects, "*"), None);
    assert_eq!(unknown_name(&projects, "betta"), Some(vec!["beta".to_string()]));
    assert_eq!(
        unknown_name(&projects, "alpa"),
        Some(vec!["alpha".to_string(), "alpah".to_string()])
    );
}

#[test]
fn default_dir_names_the_list_of_projects() {
    if let Some(path) = Projects::default_dir() {
        assert!(path.ends_with("fpm/projects_db.json"));
    }
}

#[test]
fn tags_are_kept_in_order() {
    let mut tags = vec!["web".to_string(), "cli".to_string()];
    add_tag(&mut tags, "rust".to_string());
    assert_eq!(tags, vec!["cli".to_string(), "rust".to_string(), "web".to_string()]);
    add_tag(&mut tags, "cli".to_string());
    assert_eq!(
        tags,
        vec!["cli".to_string(), "cli".to_string(), "rust".to_string(), "web".to_string()]
    );
    let mut none: Vec<String> = vec![];
    add_tag(&mut none, "only".to_string());
    assert_eq!(none, vec!["only".to_string()]);
}

#[test]
fn sorted_strings_agree_with_the_standard_library() {
    let items: Vec<String> =
        ["b", "", "a", "B", "ab", "a", "é", "aa"].iter().map(|s| s.to_string()).collect();
    let mut expected = items.clone();
    expected.sort();
    assert_eq!(sorted_strings(&items), expected);
    assert_eq!(sorted_strings(&Vec::new()), Vec::<String>::new());
}
