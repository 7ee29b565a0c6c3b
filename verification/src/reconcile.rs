//! Bringing the list of projects back in line with the disk. Two sessions
//! walk the list: one looks for projects whose directory is gone, one for
//! projects that do not lie where their category, type and name put them.
//! A session decides; its caller looks at the disk, talks to the user and
//! moves folders, and tells the session what came of it.

use vstd::prelude::*;
use vstd::string::*;
use crate::paths::{path_same, placed, project_dir, same};
use crate::project::{Project, ProjectView, project_views};
use crate::text::{trim, trim_start, trimmed, trimmed_start};

verus! {

/// Whether a session looks at a project: it does where the project has the
/// name asked for, and at every project where `*` is asked for.
pub open spec fn selected(project: ProjectView, name: Seq<char>) -> bool {
    project.name == name || name == "*"@
}

/// Whether two projects have the same name and directory.
pub open spec fn same_key(a: ProjectView, b: ProjectView) -> bool {
    a.name == b.name && a.directory == b.directory
}

/// Whether a project agrees in name and directory with one marked for removal.
pub open spec fn marked(removals: Seq<ProjectView>, project: ProjectView) -> bool {
    exists|i: int| 0 <= i < removals.len() && same_key(#[trigger] removals[i], project)
}

/// The projects that stay when the marked ones are removed, in their order.
pub open spec fn kept(projects: Seq<ProjectView>, removals: Seq<ProjectView>) -> Seq<ProjectView>
    decreases projects.len(),
{
    if projects.len() == 0 {
        Seq::empty()
    } else if marked(removals, projects.last()) {
        kept(projects.drop_last(), removals)
    } else {
        kept(projects.drop_last(), removals).push(projects.last())
    }
}

/// Whether a project agrees in name and directory with one of `removals`.
fn is_marked(removals: &Vec<Project>, project: &Project) -> (r: bool)
    ensures
        r == marked(project_views(removals@), project@),
{
    let ghost all = project_views(removals@);
    let mut i: usize = 0;
    while i < removals.len()
        invariant
            i <= removals.len(),
            all == project_views(removals@),
            forall|j: int| 0 <= j < i ==> !same_key(#[trigger] all[j], project@),
        decreases removals.len() - i,
    {
        assert(all[i as int] == removals@[i as int]@);
        if removals[i].name == project.name && removals[i].directory == project.directory {
            assert(same_key(all[i as int], project@));
            return true;
        }
        i = i + 1;
    }
    false
}

/// Removes from the list every project that agrees in name and directory
/// with one of `removals`.
pub fn remove_projects(projects: &Vec<Project>, removals: &Vec<Project>) -> (out: Vec<Project>)
    ensures
        project_views(out@) == kept(project_views(projects@), project_views(removals@)),
{
    let ghost all = project_views(projects@);
    let ghost gone = project_views(removals@);
    let mut out: Vec<Project> = Vec::new();
    let mut i: usize = 0;
    assert(all.take(0) =~= Seq::empty());
    assert(project_views(out@) =~= kept(all.take(0), gone));
    while i < projects.len()
        invariant
            i <= projects.len(),
            all == project_views(projects@),
            gone == project_views(removals@),
            project_views(out@) == kept(all.take(i as int), gone),
        decreases projects.len() - i,
    {
        assert(all.take(i + 1).drop_last() =~= all.take(i as int));
        assert(all.take(i + 1).last() == projects@[i as int]@);
        if !is_marked(removals, &projects[i]) {
            let ghost before = project_views(out@);
            out.push(projects[i].clone());
            assert(project_views(out@) =~= before.push(projects@[i as int]@));
        }
        i = i + 1;
    }
    assert(all.take(projects.len() as int) =~= all);
    out
}

/// Whether a session looks at a project.
fn is_selected(project: &Project, name: &String) -> (r: bool)
    ensures
        r == selected(project@, name@),
{
    project.name == *name || *name == String::from_str("*")
}

/// How missing directories are dealt with.
#[derive(Debug, Clone, Copy, PartialEq, Eq, Structural)]
pub struct VerifyFlags {
    /// Only say which projects have lost their directory.
    pub list: bool,
    /// Remove such projects without asking.
    pub remove_invalid: bool,
    /// Ask the user about each of them.
    pub interactive: bool,
}

/// Where a verifying session stands.
#[derive(Debug, Clone, Copy, PartialEq, Eq, Structural)]
pub enum VerifyStage {
    /// Nothing is pending.
    Idle,
    /// The session has asked whether a directory exists.
    Probing,
    /// The session has had a missing directory reported.
    Reported,
    /// The user is asked whether to change the project.
    AskingModify,
    /// The user is asked for the new directory.
    AskingDirectory,
    /// The user is asked to confirm a removal.
    AskingConfirm,
    /// All projects have been looked at.
    Finished,
    /// A directory is missing, and no mode was chosen.
    Refused,
}

/// What a verifying session is told.
#[derive(Debug, PartialEq, Eq)]
pub enum VerifyEvent {
    /// Go on.
    Continue,
    /// Whether the directory asked about exists.
    Exists(bool),
    /// The line that the user typed.
    Answer(String),
}

/// What a `VerifyEvent` stands for.
pub enum VerifyEventView {
    Continue,
    Exists(bool),
    Answer(Seq<char>),
}

impl View for VerifyEvent {
    type V = VerifyEventView;

    open spec fn view(&self) -> VerifyEventView {
        match self {
            VerifyEvent::Continue => VerifyEventView::Continue,
            VerifyEvent::Exists(e) => VerifyEventView::Exists(*e),
            VerifyEvent::Answer(a) => VerifyEventView::Answer(a@),
        }
    }
}

/// What a verifying session asks its caller to do.
#[derive(Debug, PartialEq, Eq)]
pub enum VerifyAction {
    /// Find out whether the directory exists, and tell with `Exists`.
    Probe { directory: String },
    /// Tell the user that the project's directory does not exist, then
    /// `Continue`.
    Report { name: String, directory: String },
    /// Tell the user that the project's directory does not exist, ask whether
    /// to change the project (`y`), remove it (`r`) or leave it, and hand the
    /// line over with `Answer`.
    AskModify { name: String, directory: String },
    /// Ask the user for the new directory and hand the line over.
    AskDirectory,
    /// Ask the user to confirm the removal with `y` and hand the line over.
    AskConfirm,
    /// A directory is missing, and no mode was chosen: the session is over
    /// and the list is not to be written.
    Refuse,
    /// The session is over.
    Done,
    /// The event does not fit the stage; nothing has changed.
    Unexpected,
}

/// What a `VerifyAction` stands for.
pub enum VerifyActionView {
    Probe { directory: Seq<char> },
    Report { name: Seq<char>, directory: Seq<char> },
    AskModify { name: Seq<char>, directory: Seq<char> },
    AskDirectory,
    AskConfirm,
    Refuse,
    Done,
    Unexpected,
}

impl View for VerifyAction {
    type V = VerifyActionView;

    open spec fn view(&self) -> VerifyActionView {
        match self {
            VerifyAction::Probe { directory } => VerifyActionView::Probe { directory: directory@ },
            VerifyAction::Report { name, directory } => VerifyActionView::Report {
                name: name@,
                directory: directory@,
            },
            VerifyAction::AskModify { name, directory } => VerifyActionView::AskModify {
                name: name@,
                directory: directory@,
            },
            VerifyAction::AskDirectory => VerifyActionView::AskDirectory,
            VerifyAction::AskConfirm => VerifyActionView::AskConfirm,
            VerifyAction::Refuse => VerifyActionView::Refuse,
            VerifyAction::Done => VerifyActionView::Done,
            VerifyAction::Unexpected => VerifyActionView::Unexpected,
        }
    }
}

/// The state of a verifying session.
pub struct VerifyView {
    pub projects: Seq<ProjectView>,
    pub name: Seq<char>,
    pub flags: VerifyFlags,
    pub position: nat,
    pub removals: Seq<ProjectView>,
    pub stage: VerifyStage,
}

/// The first position from `from` on whose project the session looks at; the
/// length of the list where there is none.
pub open spec fn next_selected(projects: Seq<ProjectView>, name: Seq<char>, from: nat) -> nat
    decreases projects.len() - from,
{
    if from >= projects.len() {
        projects.len()
    } else if selected(projects[from as int], name) {
        from
    } else {
        next_selected(projects, name, from + 1)
    }
}

/// `next_selected` stays within the list and does not go back.
pub proof fn lemma_next_selected(projects: Seq<ProjectView>, name: Seq<char>, from: nat)
    ensures
        from <= projects.len() ==> from <= next_selected(projects, name, from) <= projects.len(),
        next_selected(projects, name, from) < projects.len() ==> selected(
            projects[next_selected(projects, name, from) as int],
            name,
        ),
    decreases projects.len() - from,
{
    if from < projects.len() && !selected(projects[from as int], name) {
        lemma_next_selected(projects, name, from + 1);
    }
}

/// The session goes to the next project it looks at, from `from` on, and
/// asks about its directory; where no project is left, it removes the marked
/// projects and ends.
pub open spec fn verify_advance(s: VerifyView, from: nat) -> (VerifyView, VerifyActionView) {
    let i = next_selected(s.projects, s.name, from);
    if i < s.projects.len() {
        (
            VerifyView { position: i, stage: VerifyStage::Probing, ..s },
            VerifyActionView::Probe { directory: s.projects[i as int].directory },
        )
    } else {
        (
            VerifyView {
                position: kept(s.projects, s.removals).len(),
                stage: VerifyStage::Finished,
                projects: kept(s.projects, s.removals),
                ..s
            },
            VerifyActionView::Done,
        )
    }
}

/// What a verifying session does with a missing directory: in list mode it
/// has it reported; else, where invalid projects are to be removed, it marks
/// the project and has it reported; else, in interactive mode, it has the user
/// asked; else it refuses.
pub open spec fn verify_missing(s: VerifyView) -> (VerifyView, VerifyActionView) {
    let project = s.projects[s.position as int];
    if s.flags.list {
        (
            VerifyView { stage: VerifyStage::Reported, ..s },
            VerifyActionView::Report { name: project.name, directory: project.directory },
        )
    } else if s.flags.remove_invalid {
        (
            VerifyView {
                stage: VerifyStage::Reported,
                removals: s.removals.push(project),
                ..s
            },
            VerifyActionView::Report { name: project.name, directory: project.directory },
        )
    } else if s.flags.interactive {
        (
            VerifyView { stage: VerifyStage::AskingModify, ..s },
            VerifyActionView::AskModify { name: project.name, directory: project.directory },
        )
    } else {
        (VerifyView { stage: VerifyStage::Refused, ..s }, VerifyActionView::Refuse)
    }
}

/// One step of a verifying session: the state after the event, and what the
/// caller is to do next.
pub open spec fn verify_step(s: VerifyView, e: VerifyEventView) -> (VerifyView, VerifyActionView) {
    match (s.stage, e) {
        (VerifyStage::Idle, VerifyEventView::Continue) => verify_advance(s, s.position),
        (VerifyStage::Probing, VerifyEventView::Exists(true)) => verify_advance(s, s.position + 1),
        (VerifyStage::Probing, VerifyEventView::Exists(false)) => verify_missing(s),
        (VerifyStage::Reported, VerifyEventView::Continue) => verify_advance(s, s.position + 1),
        (VerifyStage::AskingModify, VerifyEventView::Answer(a)) => if trimmed(a) == "y"@ {
            (VerifyView { stage: VerifyStage::AskingDirectory, ..s }, VerifyActionView::AskDirectory)
        } else if trimmed(a) == "r"@ {
            (VerifyView { stage: VerifyStage::AskingConfirm, ..s }, VerifyActionView::AskConfirm)
        } else {
            verify_advance(s, s.position + 1)
        },
        (VerifyStage::AskingDirectory, VerifyEventView::Answer(a)) => verify_advance(
            VerifyView {
                projects: s.projects.update(
                    s.position as int,
                    ProjectView { directory: trimmed(a), ..s.projects[s.position as int] },
                ),
                ..s
            },
            s.position + 1,
        ),
        (VerifyStage::AskingConfirm, VerifyEventView::Answer(a)) => if trimmed(a) == "y"@ {
            verify_advance(
                VerifyView { removals: s.removals.push(s.projects[s.position as int]), ..s },
                s.position + 1,
            )
        } else {
            verify_advance(s, s.position + 1)
        },
        (VerifyStage::Finished, _) => (s, VerifyActionView::Done),
        (VerifyStage::Refused, _) => (s, VerifyActionView::Refuse),
        _ => (s, VerifyActionView::Unexpected),
    }
}

/// Whether the state of a verifying session is sound: while something is
/// pending, the position is that of a project.
pub open spec fn verify_sound(s: VerifyView) -> bool {
    &&& s.position <= s.projects.len()
    &&& (s.stage != VerifyStage::Idle && s.stage != VerifyStage::Finished) ==> s.position
        < s.projects.len()
}

/// A step leaves a sound state sound.
pub proof fn lemma_verify_step_sound(s: VerifyView, e: VerifyEventView)
    requires
        verify_sound(s),
    ensures
        verify_sound(verify_step(s, e).0),
{
    lemma_next_selected(s.projects, s.name, s.position);
    lemma_next_selected(s.projects, s.name, s.position + 1);
    match (s.stage, e) {
        (VerifyStage::AskingDirectory, VerifyEventView::Answer(a)) => {
            let changed = s.projects.update(
                s.position as int,
                ProjectView { directory: trimmed(a), ..s.projects[s.position as int] },
            );
            lemma_next_selected(changed, s.name, s.position + 1);
        },
        _ => {},
    }
}

/// In list mode no step changes a project or marks one for removal, until
/// the session ends; and then no project is removed.
pub proof fn lemma_list_mode_keeps(s: VerifyView, e: VerifyEventView)
    requires
        verify_sound(s),
        s.flags.list,
        s.removals.len() == 0,
        s.stage != VerifyStage::AskingModify,
        s.stage != VerifyStage::AskingDirectory,
        s.stage != VerifyStage::AskingConfirm,
    ensures
        verify_step(s, e).0.projects == s.projects,
        verify_step(s, e).0.removals.len() == 0,
        verify_step(s, e).0.stage != VerifyStage::AskingModify,
        verify_step(s, e).0.stage != VerifyStage::AskingDirectory,
        verify_step(s, e).0.stage != VerifyStage::AskingConfirm,
{
    lemma_kept_all(s.projects, s.removals);
}

/// With nothing marked, every project stays.
pub proof fn lemma_kept_all(projects: Seq<ProjectView>, removals: Seq<ProjectView>)
    requires
        removals.len() == 0,
    ensures
        kept(projects, removals) == projects,
    decreases projects.len(),
{
    if projects.len() > 0 {
        lemma_kept_all(projects.drop_last(), removals);
        assert(projects.drop_last().push(projects.last()) =~= projects);
    } else {
        assert(projects =~= Seq::empty());
    }
}

/// A walk through the list of projects that looks for missing directories.
pub struct VerifySession {
    projects: Vec<Project>,
    name: String,
    flags: VerifyFlags,
    position: usize,
    removals: Vec<Project>,
    stage: VerifyStage,
}

impl View for VerifySession {
    type V = VerifyView;

    closed spec fn view(&self) -> VerifyView {
        VerifyView {
            projects: project_views(self.projects@),
            name: self.name@,
            flags: self.flags,
            position: self.position as nat,
            removals: project_views(self.removals@),
            stage: self.stage,
        }
    }
}

impl VerifySession {
    /// Goes to the next project to look at, from `from` on.
    fn advance(&mut self, from: usize) -> (action: VerifyAction)
        requires
            from <= old(self).projects.len(),
        ensures
            (final(self)@, action@) == verify_advance(old(self)@, from as nat),
    {
        let ghost all = project_views(self.projects@);
        let mut i: usize = from;
        while i < self.projects.len() && !is_selected(&self.projects[i], &self.name)
            invariant
                from <= i <= self.projects.len(),
                all == project_views(self.projects@),
                *self == *old(self),
                next_selected(all, self.name@, from as nat) == next_selected(
                    all,
                    self.name@,
                    i as nat,
                ),
            decreases self.projects.len() - i,
        {
            assert(all[i as int] == self.projects@[i as int]@);
            i = i + 1;
        }
        if i < self.projects.len() {
            assert(all[i as int] == self.projects@[i as int]@);
            self.position = i;
            self.stage = VerifyStage::Probing;
            VerifyAction::Probe { directory: self.projects[i].directory.clone() }
        } else {
            self.projects = remove_projects(&self.projects, &self.removals);
            self.position = self.projects.len();
            self.stage = VerifyStage::Finished;
            proof {
                lemma_kept_len(all, project_views(self.removals@));
            }
            VerifyAction::Done
        }
    }

    /// Takes one step: hears what came of the last action and says what to
    /// do next.
    pub fn step(&mut self, event: VerifyEvent) -> (action: VerifyAction)
        requires
            verify_sound(old(self)@),
        ensures
            (final(self)@, action@) == verify_step(old(self)@, event@),
            verify_sound(final(self)@),
    {
        proof {
            lemma_verify_step_sound(self@, event@);
        }
        let ghost all = project_views(self.projects@);
        assert(all.len() == self.projects.len());
        match self.stage {
            VerifyStage::Idle => match event {
                VerifyEvent::Continue => self.advance(self.position),
                _ => VerifyAction::Unexpected,
            },
            VerifyStage::Probing => match event {
                VerifyEvent::Exists(exists) => {
                    if exists {
                        self.advance(self.position + 1)
                    } else {
                        assert(all[self.position as int] == self.projects@[self.position as int]@);
                        let name = self.projects[self.position].name.clone();
                        let directory = self.projects[self.position].directory.clone();
                        if self.flags.list {
                            self.stage = VerifyStage::Reported;
                            VerifyAction::Report { name, directory }
                        } else if self.flags.remove_invalid {
                            let ghost before = project_views(self.removals@);
                            let gone = self.projects[self.position].clone();
                            self.removals.push(gone);
                            assert(project_views(self.removals@) =~= before.push(gone@));
                            self.stage = VerifyStage::Reported;
                            VerifyAction::Report { name, directory }
                        } else if self.flags.interactive {
                            self.stage = VerifyStage::AskingModify;
                            VerifyAction::AskModify { name, directory }
                        } else {
                            self.stage = VerifyStage::Refused;
                            VerifyAction::Refuse
                        }
                    }
                },
                _ => VerifyAction::Unexpected,
            },
            VerifyStage::Reported => match event {
                VerifyEvent::Continue => self.advance(self.position + 1),
                _ => VerifyAction::Unexpected,
            },
            VerifyStage::AskingModify => match event {
                VerifyEvent::Answer(answer) => {
                    let word = trim(answer.as_str());
                    if word == String::from_str("y") {
                        self.stage = VerifyStage::AskingDirectory;
                        VerifyAction::AskDirectory
                    } else if word == String::from_str("r") {
                        self.stage = VerifyStage::AskingConfirm;
                        VerifyAction::AskConfirm
                    } else {
                        self.advance(self.position + 1)
                    }
                },
                _ => VerifyAction::Unexpected,
            },
            VerifyStage::AskingDirectory => match event {
                VerifyEvent::Answer(answer) => {
                    assert(all[self.position as int] == self.projects@[self.position as int]@);
                    let mut project = self.projects[self.position].clone();
                    project.directory = trim(answer.as_str());
                    self.projects.set(self.position, project);
                    assert(project_views(self.projects@) =~= all.update(
                        self.position as int,
                        project@,
                    ));
                    self.advance(self.position + 1)
                },
                _ => VerifyAction::Unexpected,
            },
            VerifyStage::AskingConfirm => match event {
                VerifyEvent::Answer(answer) => {
                    let word = trim(answer.as_str());
                    if word == String::from_str("y") {
                        assert(all[self.position as int] == self.projects@[self.position as int]@);
                        let ghost before = project_views(self.removals@);
                        let gone = self.projects[self.position].clone();
                        self.removals.push(gone);
                        assert(project_views(self.removals@) =~= before.push(gone@));
                    }
                    self.advance(self.position + 1)
                },
                _ => VerifyAction::Unexpected,
            },
            VerifyStage::Finished => VerifyAction::Done,
            VerifyStage::Refused => VerifyAction::Refuse,
        }
    }

    /// Where the session stands.
    pub fn stage(&self) -> (stage: VerifyStage)
        ensures
            stage == self@.stage,
    {
        self.stage
    }

    /// The list of projects as the session has left it.
    pub fn into_projects(self) -> (projects: Vec<Project>)
        ensures
            project_views(projects@) == self@.projects,
    {
        self.projects
    }
}

/// Removing projects does not make the list longer.
pub proof fn lemma_kept_len(projects: Seq<ProjectView>, removals: Seq<ProjectView>)
    ensures
        kept(projects, removals).len() <= projects.len(),
    decreases projects.len(),
{
    if projects.len() > 0 {
        lemma_kept_len(projects.drop_last(), removals);
    }
}

/// How misplaced projects are dealt with.
#[derive(Debug, Clone, Copy, PartialEq, Eq, Structural)]
pub struct RefactorFlags {
    /// Only say what would be moved.
    pub dry_run: bool,
    /// Move without asking.
    pub force: bool,
    /// Ask the user about each folder.
    pub interactive: bool,
}

/// Where a refactoring session stands.
#[derive(Debug, Clone, Copy, PartialEq, Eq, Structural)]
pub enum RefactorStage {
    /// Nothing is pending.
    Idle,
    /// The session has had a move announced that is not made.
    Announced,
    /// The user is asked whether to move a folder.
    Confirming,
    /// A folder is being moved.
    Moving,
    /// All projects have been looked at.
    Finished,
    /// A folder would have to move, and no mode was chosen.
    Refused,
}

/// What a refactoring session is told.
#[derive(Debug, PartialEq, Eq)]
pub enum RefactorEvent {
    /// Go on.
    Continue,
    /// The line that the user typed.
    Answer(String),
    /// The folder has been moved.
    Moved,
}

/// What a `RefactorEvent` stands for.
pub enum RefactorEventView {
    Continue,
    Answer(Seq<char>),
    Moved,
}

impl View for RefactorEvent {
    type V = RefactorEventView;

    open spec fn view(&self) -> RefactorEventView {
        match self {
            RefactorEvent::Continue => RefactorEventView::Continue,
            RefactorEvent::Answer(a) => RefactorEventView::Answer(a@),
            RefactorEvent::Moved => RefactorEventView::Moved,
        }
    }
}

/// What a refactoring session asks its caller to do.
#[derive(Debug, PartialEq, Eq)]
pub enum RefactorAction {
    /// Tell the user that the project would move from `from` to `to`, then
    /// `Continue`.
    Announce { name: String, from: String, to: String },
    /// Tell the user that the project moves from `from` to `to`, ask whether
    /// to move it (`y`), and hand the line over with `Answer`.
    Confirm { name: String, from: String, to: String },
    /// Move the folder `from` with all that lies in it to `to`, so that what
    /// was `from` is `to` afterwards, then tell with `Moved`. Where
    /// `announce` is set, tell the user first that the project moves from
    /// `from` to `to`.
    Move { name: String, from: String, to: String, announce: bool },
    /// A folder would have to move, and no mode was chosen: the session is
    /// over and the list is not to be written.
    Refuse,
    /// The session is over.
    Done,
    /// The event does not fit the stage; nothing has changed.
    Unexpected,
}

/// What a `RefactorAction` stands for.
pub enum RefactorActionView {
    Announce { name: Seq<char>, from: Seq<char>, to: Seq<char> },
    Confirm { name: Seq<char>, from: Seq<char>, to: Seq<char> },
    Move { name: Seq<char>, from: Seq<char>, to: Seq<char>, announce: bool },
    Refuse,
    Done,
    Unexpected,
}

impl View for RefactorAction {
    type V = RefactorActionView;

    open spec fn view(&self) -> RefactorActionView {
        match self {
            RefactorAction::Announce { name, from, to } => RefactorActionView::Announce {
                name: name@,
                from: from@,
                to: to@,
            },
            RefactorAction::Confirm { name, from, to } => RefactorActionView::Confirm {
                name: name@,
                from: from@,
                to: to@,
            },
            RefactorAction::Move { name, from, to, announce } => RefactorActionView::Move {
                name: name@,
                from: from@,
                to: to@,
                announce: *announce,
            },
            RefactorAction::Refuse => RefactorActionView::Refuse,
            RefactorAction::Done => RefactorActionView::Done,
            RefactorAction::Unexpected => RefactorActionView::Unexpected,
        }
    }
}

/// The state of a refactoring session.
pub struct RefactorView {
    pub projects: Seq<ProjectView>,
    pub name: Seq<char>,
    pub base_dir: Seq<char>,
    pub flags: RefactorFlags,
    pub position: nat,
    pub stage: RefactorStage,
}

/// Where a project belongs below `base`.
pub open spec fn home(base: Seq<char>, project: ProjectView) -> Seq<char> {
    placed(base, project.category, project.p_type, project.name)
}

/// Where a project lies: its directory without leading white space.
pub open spec fn whereabouts(project: ProjectView) -> Seq<char> {
    trimmed_start(project.directory)
}

/// Whether a project lies elsewhere than where it belongs.
pub open spec fn misplaced(base: Seq<char>, project: ProjectView) -> bool {
    !path_same(home(base, project), whereabouts(project))
}

/// The first position from `from` on whose project the session looks at and
/// finds misplaced; the length of the list where there is none.
pub open spec fn next_misplaced(
    projects: Seq<ProjectView>,
    name: Seq<char>,
    base: Seq<char>,
    from: nat,
) -> nat
    decreases projects.len() - from,
{
    if from >= projects.len() {
        projects.len()
    } else if selected(projects[from as int], name) && misplaced(base, projects[from as int]) {
        from
    } else {
        next_misplaced(projects, name, base, from + 1)
    }
}

/// `next_misplaced` stays within the list and does not go back.
pub proof fn lemma_next_misplaced(
    projects: Seq<ProjectView>,
    name: Seq<char>,
    base: Seq<char>,
    from: nat,
)
    ensures
        from <= projects.len() ==> from <= next_misplaced(projects, name, base, from)
            <= projects.len(),
    decreases projects.len() - from,
{
    if from < projects.len() && !(selected(projects[from as int], name) && misplaced(
        base,
        projects[from as int],
    )) {
        lemma_next_misplaced(projects, name, base, from + 1);
    }
}

/// The session goes to the next misplaced project it looks at, from `from`
/// on. In a dry run the move is announced only. Else, in interactive mode the
/// user is asked; else, where moves are forced, the folder is moved; else the
/// session refuses. Where no project is left, the session ends.
pub open spec fn refactor_advance(s: RefactorView, from: nat) -> (RefactorView, RefactorActionView) {
    let i = next_misplaced(s.projects, s.name, s.base_dir, from);
    if i < s.projects.len() {
        let project = s.projects[i as int];
        let name = project.name;
        let from_dir = whereabouts(project);
        let to = home(s.base_dir, project);
        if s.flags.dry_run {
            (
                RefactorView { position: i, stage: RefactorStage::Announced, ..s },
                RefactorActionView::Announce { name, from: from_dir, to },
            )
        } else if s.flags.interactive {
            (
                RefactorView { position: i, stage: RefactorStage::Confirming, ..s },
                RefactorActionView::Confirm { name, from: from_dir, to },
            )
        } else if s.flags.force {
            (
                RefactorView { position: i, stage: RefactorStage::Moving, ..s },
                RefactorActionView::Move { name, from: from_dir, to, announce: true },
            )
        } else {
            (
                RefactorView { position: i, stage: RefactorStage::Refused, ..s },
                RefactorActionView::Refuse,
            )
        }
    } else {
        (
            RefactorView { position: s.projects.len(), stage: RefactorStage::Finished, ..s },
            RefactorActionView::Done,
        )
    }
}

/// One step of a refactoring session: the state after the event, and what
/// the caller is to do next. A project that has been moved gets the directory
/// in which it belongs.
pub open spec fn refactor_step(s: RefactorView, e: RefactorEventView) -> (
    RefactorView,
    RefactorActionView,
) {
    match (s.stage, e) {
        (RefactorStage::Idle, RefactorEventView::Continue) => refactor_advance(s, s.position),
        (RefactorStage::Announced, RefactorEventView::Continue) => refactor_advance(
            s,
            s.position + 1,
        ),
        (RefactorStage::Confirming, RefactorEventView::Answer(a)) => if trimmed(a) == "y"@ {
            let project = s.projects[s.position as int];
            let to = home(s.base_dir, project);
            (
                RefactorView { stage: RefactorStage::Moving, ..s },
                RefactorActionView::Move {
                    name: project.name,
                    from: whereabouts(project),
                    to,
                    announce: false,
                },
            )
        } else {
            refactor_advance(s, s.position + 1)
        },
        (RefactorStage::Moving, RefactorEventView::Moved) => refactor_advance(
            RefactorView {
                projects: s.projects.update(
                    s.position as int,
                    ProjectView {
                        directory: home(s.base_dir, s.projects[s.position as int]),
                        ..s.projects[s.position as int]
                    },
                ),
                ..s
            },
            s.position + 1,
        ),
        (RefactorStage::Finished, _) => (s, RefactorActionView::Done),
        (RefactorStage::Refused, _) => (s, RefactorActionView::Refuse),
        _ => (s, RefactorActionView::Unexpected),
    }
}

/// Whether the state of a refactoring session is sound: while something is
/// pending, the position is that of a project.
pub open spec fn refactor_sound(s: RefactorView) -> bool {
    &&& s.position <= s.projects.len()
    &&& (s.stage != RefactorStage::Idle && s.stage != RefactorStage::Finished) ==> s.position
        < s.projects.len()
}

/// A step leaves a sound state sound.
pub proof fn lemma_refactor_step_sound(s: RefactorView, e: RefactorEventView)
    requires
        refactor_sound(s),
    ensures
        refactor_sound(refactor_step(s, e).0),
{
    lemma_next_misplaced(s.projects, s.name, s.base_dir, s.position);
    lemma_next_misplaced(s.projects, s.name, s.base_dir, s.position + 1);
    match (s.stage, e) {
        (RefactorStage::Moving, RefactorEventView::Moved) => {
            let changed = s.projects.update(
                s.position as int,
                ProjectView {
                    directory: home(s.base_dir, s.projects[s.position as int]),
                    ..s.projects[s.position as int]
                },
            );
            lemma_next_misplaced(changed, s.name, s.base_dir, s.position + 1);
        },
        _ => {},
    }
}

/// A dry run changes no project and has nothing moved.
pub proof fn lemma_dry_run_keeps(s: RefactorView, e: RefactorEventView)
    requires
        refactor_sound(s),
        s.flags.dry_run,
        s.stage != RefactorStage::Moving,
        s.stage != RefactorStage::Confirming,
    ensures
        refactor_step(s, e).0.projects == s.projects,
        !(refactor_step(s, e).1 is Move),
        refactor_step(s, e).0.stage != RefactorStage::Moving,
        refactor_step(s, e).0.stage != RefactorStage::Confirming,
{
}

/// A walk through the list of projects that looks for misplaced folders.
pub struct RefactorSession {
    projects: Vec<Project>,
    name: String,
    base_dir: String,
    flags: RefactorFlags,
    position: usize,
    stage: RefactorStage,
}

impl View for RefactorSession {
    type V = RefactorView;

    closed spec fn view(&self) -> RefactorView {
        RefactorView {
            projects: project_views(self.projects@),
            name: self.name@,
            base_dir: self.base_dir@,
            flags: self.flags,
            position: self.position as nat,
            stage: self.stage,
        }
    }
}

impl RefactorSession {
    /// Where the project at `index` belongs.
    fn home_of(&self, index: usize) -> (dir: String)
        requires
            index < self.projects.len(),
        ensures
            dir@ == home(self@.base_dir, self@.projects[index as int]),
    {
        let project = &self.projects[index];
        project_dir(
            self.base_dir.as_str(),
            &project.category,
            &project.p_type,
            project.name.as_str(),
        )
    }

    /// Goes to the next project to deal with, from `from` on.
    fn advance(&mut self, from: usize) -> (action: RefactorAction)
        requires
            from <= old(self).projects.len(),
        ensures
            (final(self)@, action@) == refactor_advance(old(self)@, from as nat),
    {
        let ghost all = project_views(self.projects@);
        let ghost base = self.base_dir@;
        let mut i: usize = from;
        let mut found = false;
        while i < self.projects.len() && !found
            invariant
                from <= i <= self.projects.len(),
                all == project_views(self.projects@),
                base == self.base_dir@,
                *self == *old(self),
                next_misplaced(all, self.name@, base, from as nat) == next_misplaced(
                    all,
                    self.name@,
                    base,
                    i as nat,
                ),
                found ==> i < self.projects.len() && selected(all[i as int], self.name@)
                    && misplaced(base, all[i as int]),
            decreases self.projects.len() - i, (if found { 0int } else { 1int }),
        {
            assert(all[i as int] == self.projects@[i as int]@);
            if is_selected(&self.projects[i], &self.name) {
                let to = self.home_of(i);
                let from_dir = trim_start(self.projects[i].directory.as_str());
                if !same(to.as_str(), from_dir.as_str()) {
                    found = true;
                }
            }
            if !found {
                i = i + 1;
            }
        }
        if i < self.projects.len() {
            assert(all[i as int] == self.projects@[i as int]@);
            let name = self.projects[i].name.clone();
            let to = self.home_of(i);
            let from_dir = trim_start(self.projects[i].directory.as_str());
            self.position = i;
            if self.flags.dry_run {
                self.stage = RefactorStage::Announced;
                RefactorAction::Announce { name, from: from_dir, to }
            } else if self.flags.interactive {
                self.stage = RefactorStage::Confirming;
                RefactorAction::Confirm { name, from: from_dir, to }
            } else if self.flags.force {
                self.stage = RefactorStage::Moving;
                RefactorAction::Move { name, from: from_dir, to, announce: true }
            } else {
                self.stage = RefactorStage::Refused;
                RefactorAction::Refuse
            }
        } else {
            self.position = self.projects.len();
            self.stage = RefactorStage::Finished;
            RefactorAction::Done
        }
    }

    /// Takes one step: hears what came of the last action and says what to
    /// do next.
    pub fn step(&mut self, event: RefactorEvent) -> (action: RefactorAction)
        requires
            refactor_sound(old(self)@),
        ensures
            (final(self)@, action@) == refactor_step(old(self)@, event@),
            refactor_sound(final(self)@),
    {
        proof {
            lemma_refactor_step_sound(self@, event@);
        }
        let ghost all = project_views(self.projects@);
        assert(all.len() == self.projects.len());
        match self.stage {
            RefactorStage::Idle => match event {
                RefactorEvent::Continue => self.advance(self.position),
                _ => RefactorAction::Unexpected,
            },
            RefactorStage::Announced => match event {
                RefactorEvent::Continue => self.advance(self.position + 1),
                _ => RefactorAction::Unexpected,
            },
            RefactorStage::Confirming => match event {
                RefactorEvent::Answer(answer) => {
                    let word = trim(answer.as_str());
                    if word == String::from_str("y") {
                        assert(all[self.position as int] == self.projects@[self.position as int]@);
                        let name = self.projects[self.position].name.clone();
                        let to = self.home_of(self.position);
                        let from_dir = trim_start(self.projects[self.position].directory.as_str());
                        self.stage = RefactorStage::Moving;
                        RefactorAction::Move { name, from: from_dir, to, announce: false }
                    } else {
                        self.advance(self.position + 1)
                    }
                },
                _ => RefactorAction::Unexpected,
            },
            RefactorStage::Moving => match event {
                RefactorEvent::Moved => {
                    assert(all[self.position as int] == self.projects@[self.position as int]@);
                    let mut project = self.projects[self.position].clone();
                    project.directory = self.home_of(self.position);
                    self.projects.set(self.position, project);
                    assert(project_views(self.projects@) =~= all.update(
                        self.position as int,
                        project@,
                    ));
                    self.advance(self.position + 1)
                },
                _ => RefactorAction::Unexpected,
            },
            RefactorStage::Finished => RefactorAction::Done,
            RefactorStage::Refused => RefactorAction::Refuse,
        }
    }

    /// Where the session stands.
    pub fn stage(&self) -> (stage: RefactorStage)
        ensures
            stage == self@.stage,
    {
        self.stage
    }

    /// The list of projects as the session has left it.
    pub fn into_projects(self) -> (projects: Vec<Project>)
        ensures
            project_views(projects@) == self@.projects,
    {
        self.projects
    }
}

/// Starts a walk through `projects` that looks for missing directories. It
/// looks at the projects called `name`, or at all of them where `name` is `*`.
pub fn verify_projects(projects: Vec<Project>, name: String, flags: VerifyFlags) -> (session:
    VerifySession)
    ensures
        session@ == (VerifyView {
            projects: project_views(projects@),
            name: name@,
            flags,
            position: 0,
            removals: Seq::empty(),
            stage: VerifyStage::Idle,
        }),
        verify_sound(session@),
{
    let session = VerifySession {
        projects,
        name,
        flags,
        position: 0,
        removals: Vec::new(),
        stage: VerifyStage::Idle,
    };
    assert(project_views(session.removals@) =~= Seq::empty());
    session
}

/// Starts a walk through `projects` that looks for misplaced folders. It
/// looks at the projects called `name`, or at all of them where `name` is
/// `*`, and files them below `base_dir`.
pub fn refactor_projects(
    projects: Vec<Project>,
    name: String,
    base_dir: String,
    flags: RefactorFlags,
) -> (session: RefactorSession)
    ensures
        session@ == (RefactorView {
            projects: project_views(projects@),
            name: name@,
            base_dir: base_dir@,
            flags,
            position: 0,
            stage: RefactorStage::Idle,
        }),
        refactor_sound(session@),
{
    RefactorSession { projects, name, base_dir, flags, position: 0, stage: RefactorStage::Idle }
}

} // verus!
