//! Turning a folder tree into the steps that create it on disk: the
//! directories to make, the files to write and the commands to run, in order.

use vstd::prelude::*;
use vstd::string::*;
use crate::folder::{File, FileView, Folder, FolderView, lemma_sub_folders, file_views, folder_views};
use crate::paths::{join, path_join};
use crate::templates::TemplateVars;
use crate::text::{chars_of, replace_chars, replaced, split, split_on, string_of, views};

verus! {

/// What a `BuildStep` stands for.
pub enum BuildStepView {
    CreateDir { path: Seq<char> },
    WriteFile { path: Seq<char>, contents: Seq<char> },
    RunCommand { dir: Seq<char>, program: Seq<char>, args: Seq<Seq<char>> },
}

/// One thing to do on disk when a project is built.
#[derive(Debug, PartialEq, Eq)]
pub enum BuildStep {
    /// Create the directory `path` and the directories above it.
    CreateDir { path: String },
    /// Create the file `path` with exactly these contents.
    WriteFile { path: String, contents: String },
    /// Run `program` with `args` in the directory `dir`.
    RunCommand { dir: String, program: String, args: Vec<String> },
}

impl View for BuildStep {
    type V = BuildStepView;

    open spec fn view(&self) -> BuildStepView {
        match self {
            BuildStep::CreateDir { path } => BuildStepView::CreateDir { path: path@ },
            BuildStep::WriteFile { path, contents } => BuildStepView::WriteFile {
                path: path@,
                contents: contents@,
            },
            BuildStep::RunCommand { dir, program, args } => BuildStepView::RunCommand {
                dir: dir@,
                program: program@,
                args: views(args@),
            },
        }
    }
}

/// The views of a list of steps.
pub open spec fn step_views(steps: Seq<BuildStep>) -> Seq<BuildStepView> {
    steps.map_values(|s: BuildStep| s@)
}

/// The views of a list of pairs of strings.
pub open spec fn pair_views(pairs: Seq<(String, String)>) -> Seq<(Seq<char>, Seq<char>)> {
    pairs.map_values(|p: (String, String)| (p.0@, p.1@))
}

/// How a variable is written in a template: its name in curly brackets.
pub open spec fn placeholder(name: Seq<char>) -> Seq<char> {
    seq!['{'] + name + seq!['}']
}

/// `line` with the user's variables filled in, one variable after the other
/// in the order of the list.
pub open spec fn with_user_vars(line: Seq<char>, user_vars: Seq<(Seq<char>, Seq<char>)>) -> Seq<
    char,
>
    decreases user_vars.len(),
{
    if user_vars.len() == 0 {
        line
    } else {
        replaced(
            with_user_vars(line, user_vars.drop_last()),
            placeholder(user_vars.last().0),
            user_vars.last().1,
        )
    }
}

/// `line` with `{fpm_project_name}` replaced by the project's name, and then
/// the user's variables filled in.
pub open spec fn substituted(
    line: Seq<char>,
    project_name: Seq<char>,
    user_vars: Seq<(Seq<char>, Seq<char>)>,
) -> Seq<char> {
    with_user_vars(replaced(line, "{fpm_project_name}"@, project_name), user_vars)
}

/// The contents of a file: each of its lines with the variables filled in
/// and a line feed after it.
pub open spec fn rendered(
    lines: Seq<Seq<char>>,
    project_name: Seq<char>,
    user_vars: Seq<(Seq<char>, Seq<char>)>,
) -> Seq<char>
    decreases lines.len(),
{
    if lines.len() == 0 {
        Seq::empty()
    } else {
        rendered(lines.drop_last(), project_name, user_vars) + substituted(
            lines.last(),
            project_name,
            user_vars,
        ) + seq!['\n']
    }
}

/// The step that writes `file` into the directory `path`.
pub open spec fn file_step(
    path: Seq<char>,
    file: FileView,
    project_name: Seq<char>,
    user_vars: Seq<(Seq<char>, Seq<char>)>,
) -> BuildStepView {
    BuildStepView::WriteFile {
        path: path_join(path, file.filename),
        contents: rendered(file.lines, project_name, user_vars),
    }
}

/// The step that runs `command` in the directory `path`: the command is split
/// at spaces, its first word is the program and the others are its arguments.
pub open spec fn command_step(path: Seq<char>, command: Seq<char>) -> BuildStepView {
    let words = split_on(command, ' ');
    BuildStepView::RunCommand { dir: path, program: words[0], args: words.drop_first() }
}

/// The steps for the first `upto` sub-folders of `folder`, which lies at
/// `path`: each sub-folder's directory is created, then the sub-folder is
/// built.
pub open spec fn sub_folder_steps(
    path: Seq<char>,
    folder: FolderView,
    upto: nat,
    project_name: Seq<char>,
    user_vars: Seq<(Seq<char>, Seq<char>)>,
) -> Seq<BuildStepView>
    decreases folder, upto,
{
    if upto == 0 || upto > folder.sub_folders.len() {
        Seq::empty()
    } else {
        let sub = folder.sub_folders[upto - 1];
        let dir = path_join(path, sub.name);
        sub_folder_steps(path, folder, (upto - 1) as nat, project_name, user_vars)
            + seq![BuildStepView::CreateDir { path: dir }] + build_steps(
            dir,
            sub,
            project_name,
            user_vars,
        )
    }
}

/// The steps that build `folder` at `path`: first its sub-folders, each
/// created and then built in full, then its files, then its commands.
pub open spec fn build_steps(
    path: Seq<char>,
    folder: FolderView,
    project_name: Seq<char>,
    user_vars: Seq<(Seq<char>, Seq<char>)>,
) -> Seq<BuildStepView>
    decreases folder, folder.sub_folders.len() + 1,
{
    sub_folder_steps(path, folder, folder.sub_folders.len(), project_name, user_vars)
        + folder.files.map_values(|f: FileView| file_step(path, f, project_name, user_vars))
        + folder.commands.map_values(|c: Seq<char>| command_step(path, c))
}

/// Fills the variables into one line of a template.
pub fn process_template_vars(
    string: &str,
    vars: &TemplateVars,
    user_vars: &Vec<(String, String)>,
) -> (line: String)
    ensures
        line@ == substituted(string@, vars.project_name@, pair_views(user_vars@)),
{
    let text = chars_of(string);
    let pattern = chars_of("{fpm_project_name}");
    let name = chars_of(vars.project_name.as_str());
    let mut line = replace_chars(&text, &pattern, &name);
    let mut i: usize = 0;
    assert(pair_views(user_vars@).take(0) =~= Seq::empty());
    while i < user_vars.len()
        invariant
            i <= user_vars.len(),
            line@ == with_user_vars(
                replaced(string@, "{fpm_project_name}"@, vars.project_name@),
                pair_views(user_vars@).take(i as int),
            ),
        decreases user_vars.len() - i,
    {
        let key = chars_of(user_vars[i].0.as_str());
        let value = chars_of(user_vars[i].1.as_str());
        let mut wanted: Vec<char> = Vec::new();
        wanted.push('{');
        let mut k: usize = 0;
        while k < key.len()
            invariant
                k <= key.len(),
                wanted@ == seq!['{'] + key@.take(k as int),
            decreases key.len() - k,
        {
            wanted.push(key[k]);
            assert(key@.take(k + 1) =~= key@.take(k as int).push(key@[k as int]));
            k = k + 1;
        }
        assert(key@.take(key.len() as int) =~= key@);
        wanted.push('}');
        assert(wanted@ =~= placeholder(key@));
        line = replace_chars(&line, &wanted, &value);
        proof {
            let all = pair_views(user_vars@);
            assert(all.take(i + 1).drop_last() =~= all.take(i as int));
            assert(all.take(i + 1).last() == (key@, value@));
        }
        i = i + 1;
    }
    assert(pair_views(user_vars@).take(user_vars.len() as int) =~= pair_views(user_vars@));
    string_of(&line)
}

/// The step that writes `file` into the directory `path`.
pub fn build_file(
    path: String,
    file: &File,
    template_vars: &TemplateVars,
    user_vars: &Vec<(String, String)>,
) -> (step: BuildStep)
    ensures
        step@ == file_step(path@, file@, template_vars.project_name@, pair_views(user_vars@)),
{
    let target = join(path.as_str(), file.filename.as_str());
    let mut contents = String::new();
    let mut i: usize = 0;
    let ghost lines = views(file.lines_of_file@);
    assert(lines.take(0) =~= Seq::empty());
    while i < file.lines_of_file.len()
        invariant
            i <= file.lines_of_file.len(),
            lines == views(file.lines_of_file@),
            contents@ == rendered(
                lines.take(i as int),
                template_vars.project_name@,
                pair_views(user_vars@),
            ),
        decreases file.lines_of_file.len() - i,
    {
        let line = process_template_vars(file.lines_of_file[i].as_str(), template_vars, user_vars);
        contents.append(line.as_str());
        contents.push('\n');
        proof {
            assert(lines.take(i + 1).drop_last() =~= lines.take(i as int));
            assert(lines.take(i + 1).last() == file.lines_of_file@[i as int]@);
        }
        i = i + 1;
    }
    assert(lines.take(file.lines_of_file.len() as int) =~= lines);
    BuildStep::WriteFile { path: target, contents }
}

/// The step that runs `command` in the directory `path`.
pub fn build_command(path: &str, command: &str) -> (step: BuildStep)
    ensures
        step@ == command_step(path@, command@),
{
    let mut words = split(command, ' ');
    let ghost all = views(words@);
    let program = words.remove(0);
    assert(views(words@) =~= all.drop_first());
    BuildStep::RunCommand { dir: String::from_str(path), program, args: words }
}

/// The steps that build `folder` at `path`, in the order in which they are
/// to be taken.
pub fn build_folder(
    path: String,
    folder: &Folder,
    template_vars: &TemplateVars,
    user_vars: &Vec<(String, String)>,
) -> (steps: Vec<BuildStep>)
    ensures
        step_views(steps@) == build_steps(
            path@,
            folder@,
            template_vars.project_name@,
            pair_views(user_vars@),
        ),
    decreases folder,
{
    let ghost name = template_vars.project_name@;
    let ghost vars = pair_views(user_vars@);
    proof {
        lemma_sub_folders(*folder);
    }
    let mut steps: Vec<BuildStep> = Vec::new();
    let mut i: usize = 0;
    assert(step_views(steps@) =~= sub_folder_steps(path@, folder@, 0, name, vars));
    while i < folder.sub_folders.len()
        invariant
            i <= folder.sub_folders.len(),
            name == template_vars.project_name@,
            vars == pair_views(user_vars@),
            folder@.sub_folders == folder_views(folder.sub_folders@),
            step_views(steps@) == sub_folder_steps(path@, folder@, i as nat, name, vars),
        decreases folder.sub_folders.len() - i,
    {
        let sub = &folder.sub_folders[i];
        proof {
            lemma_sub_folders(*sub);
        }
        let dir = join(path.as_str(), sub.name.as_str());
        let ghost before = step_views(steps@);
        steps.push(BuildStep::CreateDir { path: dir.clone() });
        let mut inner = build_folder(dir, sub, template_vars, user_vars);
        let ghost inner_views = step_views(inner@);
        let ghost middle = step_views(steps@);
        assert(middle =~= before.push(BuildStepView::CreateDir { path: dir@ }));
        steps.append(&mut inner);
        assert(step_views(steps@) =~= middle + inner_views);
        assert(folder@.sub_folders[i as int] == sub@);
        i = i + 1;
    }
    let ghost sub_part = step_views(steps@);
    let ghost file_part = folder@.files.map_values(
        |f: FileView| file_step(path@, f, name, vars),
    );
    let mut j: usize = 0;
    assert(step_views(steps@) =~= sub_part + file_part.take(0));
    while j < folder.files.len()
        invariant
            j <= folder.files.len(),
            name == template_vars.project_name@,
            vars == pair_views(user_vars@),
            folder@.files == file_views(folder.files@),
            file_part == folder@.files.map_values(|f: FileView| file_step(path@, f, name, vars)),
            step_views(steps@) == sub_part + file_part.take(j as int),
        decreases folder.files.len() - j,
    {
        let ghost before = step_views(steps@);
        let step = build_file(path.clone(), &folder.files[j], template_vars, user_vars);
        steps.push(step);
        assert(step_views(steps@) =~= before.push(step@));
        assert(file_part.take(j + 1) =~= file_part.take(j as int).push(file_part[j as int]));
        j = j + 1;
    }
    assert(file_part.take(folder.files.len() as int) =~= file_part);
    let ghost command_part = folder@.commands.map_values(|c: Seq<char>| command_step(path@, c));
    let mut k: usize = 0;
    assert(step_views(steps@) =~= sub_part + file_part + command_part.take(0));
    while k < folder.commands.len()
        invariant
            k <= folder.commands.len(),
            folder@.commands == views(folder.commands@),
            command_part == folder@.commands.map_values(|c: Seq<char>| command_step(path@, c)),
            step_views(steps@) == sub_part + file_part + command_part.take(k as int),
        decreases folder.commands.len() - k,
    {
        let ghost before = step_views(steps@);
        let step = build_command(path.as_str(), folder.commands[k].as_str());
        steps.push(step);
        assert(step_views(steps@) =~= before.push(step@));
        assert(command_part.take(k + 1) =~= command_part.take(k as int).push(
            command_part[k as int],
        ));
        k = k + 1;
    }
    assert(command_part.take(folder.commands.len() as int) =~= command_part);
    steps
}

} // verus!
