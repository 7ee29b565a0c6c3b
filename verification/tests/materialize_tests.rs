use fpm::folder::{File, Folder};
use fpm::materialize::{build_command, build_file, build_folder, process_template_vars, BuildStep};
use fpm::templates::TemplateVars;

fn vars() -> TemplateVars {
    TemplateVars { project_name: "demo".to_string() }
}

fn user_vars() -> Vec<(String, String)> {
    vec![
        ("author".to_string(), "Ada".to_string()),
        ("year".to_string(), "1843".to_string()),
    ]
}

fn file(name: &str, lines: &[&str]) -> File {
    File {
        filename: name.to_string(),
        lines_of_file: lines.iter().map(|l| l.to_string()).collect(),
    }
}

#[test]
fn variables_are_filled_in() {
    assert_eq!(
        process_template_vars("# {fpm_project_name} by {author}, {year}", &vars(), &user_vars()),
        "# demo by Ada, 1843".to_string()
    );
    assert_eq!(
        process_template_vars("{fpm_project_name}{fpm_project_name}", &vars(), &vec![]),
        "demodemo".to_string()
    );
    assert_eq!(process_template_vars("{unknown} {", &vars(), &user_vars()), "{unknown} {".to_string());
    assert_eq!(process_template_vars("", &vars(), &user_vars()), "".to_string());
}

#[test]
fn variables_are_filled_in_one_after_the_other() {
    let chained = vec![
        ("a".to_string(), "{b}".to_string()),
        ("b".to_string(), "end".to_string()),
    ];
    assert_eq!(process_template_vars("{a}", &vars(), &chained), "end".to_string());
    let reversed = vec![
        ("b".to_string(), "end".to_string()),
        ("a".to_string(), "{b}".to_string()),
    ];
    assert_eq!(process_template_vars("{a}", &vars(), &reversed), "{b}".to_string());
    let named = TemplateVars { project_name: "{a}".to_string() };
    assert_eq!(process_template_vars("{fpm_project_name}", &named, &chained), "end".to_string());
}

#[test]
fn a_file_is_written_line_by_line() {
    let step = build_file(
        "/p".to_string(),
        &file("README.md", &["# {fpm_project_name}", "", "by {author}"]),
        &vars(),
        &user_vars(),
    );
    assert_eq!(
        step,
        BuildStep::WriteFile {
            path: "/p/README.md".to_string(),
            contents: "# demo\n\nby Ada\n".to_string(),
        }
    );
    let empty = build_file("/p".to_string(), &file("empty", &[]), &vars(), &user_vars());
    assert_eq!(
        empty,
        BuildStep::WriteFile { path: "/p/empty".to_string(), contents: "".to_string() }
    );
}

#[test]
fn a_command_is_split_at_spaces() {
    assert_eq!(
        build_command("/p", "cargo init --bin"),
        BuildStep::RunCommand {
            dir: "/p".to_string(),
            program: "cargo".to_string(),
            args: vec!["init".to_string(), "--bin".to_string()],
        }
    );
    assert_eq!(
        build_command("/p", "ls"),
        BuildStep::RunCommand { dir: "/p".to_string(), program: "ls".to_string(), args: vec![] }
    );
    assert_eq!(
        build_command("/p", ""),
        BuildStep::RunCommand { dir: "/p".to_string(), program: "".to_string(), args: vec![] }
    );
    assert_eq!(
        build_command("/p", "a  {fpm_project_name}"),
        BuildStep::RunCommand {
            dir: "/p".to_string(),
            program: "a".to_string(),
            args: vec!["".to_string(), "{fpm_project_name}".to_string()],
        }
    );
}

#[test]
fn a_folder_is_built_sub_folders_first() {
    let mut inner = Folder::new("inner".to_string());
    inner.add_file(file("deep.txt", &["{fpm_project_name}"]));
    inner.commands.push("touch done".to_string());
    let mut src = Folder::new("src".to_string());
    src.add_sub_folder(inner);
    src.add_file(file("main.rs", &["fn main() {}"]));
    let mut root = Folder::new("demo".to_string());
    root.add_sub_folder(src);
    root.add_sub_folder(Folder::new("docs".to_string()));
    root.add_file(file("README", &["{author}"]));
    root.commands.push("git init".to_string());
    root.commands.push("git add .".to_string());

    let steps = build_folder("/base/demo".to_string(), &root, &vars(), &user_vars());
    assert_eq!(
        steps,
        vec![
            BuildStep::CreateDir { path: "/base/demo/src".to_string() },
            BuildStep::CreateDir { path: "/base/demo/src/inner".to_string() },
            BuildStep::WriteFile {
                path: "/base/demo/src/inner/deep.txt".to_string(),
                contents: "demo\n".to_string(),
            },
            BuildStep::RunCommand {
                dir: "/base/demo/src/inner".to_string(),
                program: "touch".to_string(),
                args: vec!["done".to_string()],
            },
            BuildStep::WriteFile {
                path: "/base/demo/src/main.rs".to_string(),
                contents: "fn main() {}\n".to_string(),
            },
            BuildStep::CreateDir { path: "/base/demo/docs".to_string() },
            BuildStep::WriteFile {
                path: "/base/demo/README".to_string(),
                contents: "Ada\n".to_string(),
            },
            BuildStep::RunCommand {
                dir: "/base/demo".to_string(),
                program: "git".to_string(),
                args: vec!["init".to_string()],
            },
            BuildStep::RunCommand {
                dir: "/base/demo".to_string(),
                program: "git".to_string(),
                args: vec!["add".to_string(), ".".to_string()],
            },
        ]
    );
}

#[test]
fn an_empty_folder_needs_no_step() {
    let steps = build_folder("/x".to_string(), &Folder::new("x".to_string()), &vars(), &vec![]);
    assert!(steps.is_empty());
}
