use fpm::paths::{project_dir, push_opt, rebase, replace_prefix};

#[test]
fn project_dir_with_category_and_type() {
    assert_eq!(
        project_dir("/base", &Some("work".to_string()), &Some("rust".to_string()), "tool"),
        "/base/work/rust/tool".to_string()
    );
}

#[test]
fn project_dir_leaves_out_what_is_missing() {
    assert_eq!(project_dir("/base", &None, &None, "tool"), "/base/tool".to_string());
    assert_eq!(
        project_dir("/base", &Some("work".to_string()), &None, "tool"),
        "/base/work/tool".to_string()
    );
    assert_eq!(
        project_dir("/base", &None, &Some("rust".to_string()), "tool"),
        "/base/rust/tool".to_string()
    );
}

#[test]
fn push_opt_joins_only_what_is_there() {
    assert_eq!(push_opt("/a".to_string(), &Some("b".to_string())), "/a/b".to_string());
    assert_eq!(push_opt("/a".to_string(), &None), "/a".to_string());
    assert_eq!(push_opt("/a".to_string(), &Some("/b".to_string())), "/b".to_string());
}

#[test]
fn replace_prefix_moves_a_path() {
    assert_eq!(replace_prefix("/from/a/b.txt", "/from", "/to"), "/to/a/b.txt".to_string());
    assert_eq!(replace_prefix("/from/a", "/from/a", "/to"), "/to/".to_string());
}

#[test]
fn rebase_tells_when_the_path_lies_elsewhere() {
    assert_eq!(rebase("/from/a/b.txt", "/from", "/to"), Some("/to/a/b.txt".to_string()));
    assert_eq!(rebase("/other/a", "/from", "/to"), None);
}
