use fpm::project::Project;
use fpm::reconcile::{
    refactor_projects, remove_projects, verify_projects, RefactorAction, RefactorEvent,
    RefactorFlags, RefactorStage, VerifyAction, VerifyEvent, VerifyFlags, VerifyStage,
};

fn project(name: &str, directory: &str) -> Project {
    Project {
        name: name.to_string(),
        directory: directory.to_string(),
        category: None,
        p_type: None,
    }
}

fn filed(name: &str, directory: &str, category: &str, p_type: &str) -> Project {
    Project {
        name: name.to_string(),
        directory: directory.to_string(),
        category: Some(category.to_string()),
        p_type: Some(p_type.to_string()),
    }
}

fn three() -> Vec<Project> {
    vec![project("a", "/x/a"), project("b", "/x/b"), project("a", "/y/a")]
}

const LIST: VerifyFlags = VerifyFlags { list: true, remove_invalid: false, interactive: false };
const REMOVE: VerifyFlags = VerifyFlags { list: false, remove_invalid: true, interactive: false };
const ASK: VerifyFlags = VerifyFlags { list: false, remove_invalid: false, interactive: true };

fn probe(directory: &str) -> VerifyAction {
    VerifyAction::Probe { directory: directory.to_string() }
}

fn answer(text: &str) -> VerifyEvent {
    VerifyEvent::Answer(text.to_string())
}

#[test]
fn remove_projects_goes_by_name_and_directory() {
    let projects = vec![
        project("a", "/x/a"),
        filed("a", "/x/a", "c", "t"),
        project("a", "/y/a"),
        project("b", "/x/a"),
    ];
    let out = remove_projects(&projects, &vec![project("a", "/x/a")]);
    assert_eq!(out, vec![project("a", "/y/a"), project("b", "/x/a")]);
    assert_eq!(remove_projects(&projects, &vec![]), projects);
    assert_eq!(remove_projects(&vec![], &projects), Vec::<Project>::new());
}

#[test]
fn verify_looks_at_the_named_projects_only() {
    let mut session = verify_projects(three(), "a".to_string(), LIST);
    assert_eq!(session.stage(), VerifyStage::Idle);
    assert_eq!(session.step(VerifyEvent::Continue), probe("/x/a"));
    assert_eq!(session.stage(), VerifyStage::Probing);
    assert_eq!(session.step(VerifyEvent::Exists(true)), probe("/y/a"));
    assert_eq!(session.step(VerifyEvent::Exists(true)), VerifyAction::Done);
    assert_eq!(session.stage(), VerifyStage::Finished);
    assert_eq!(session.step(VerifyEvent::Continue), VerifyAction::Done);
    assert_eq!(session.into_projects(), three());
}

#[test]
fn verify_looks_at_all_projects_for_the_star() {
    let mut session = verify_projects(three(), "*".to_string(), LIST);
    assert_eq!(session.step(VerifyEvent::Continue), probe("/x/a"));
    assert_eq!(session.step(VerifyEvent::Exists(true)), probe("/x/b"));
    assert_eq!(session.step(VerifyEvent::Exists(true)), probe("/y/a"));
    assert_eq!(session.step(VerifyEvent::Exists(true)), VerifyAction::Done);
}

#[test]
fn verify_with_no_project_of_that_name_ends_at_once() {
    let mut session = verify_projects(three(), "zzz".to_string(), REMOVE);
    assert_eq!(session.step(VerifyEvent::Continue), VerifyAction::Done);
    assert_eq!(session.into_projects(), three());
    let mut empty = verify_projects(vec![], "*".to_string(), ASK);
    assert_eq!(empty.step(VerifyEvent::Continue), VerifyAction::Done);
}

#[test]
fn verify_in_list_mode_reports_and_keeps() {
    let mut session = verify_projects(three(), "*".to_string(), LIST);
    assert_eq!(session.step(VerifyEvent::Continue), probe("/x/a"));
    assert_eq!(
        session.step(VerifyEvent::Exists(false)),
        VerifyAction::Report { name: "a".to_string(), directory: "/x/a".to_string() }
    );
    assert_eq!(session.stage(), VerifyStage::Reported);
    assert_eq!(session.step(VerifyEvent::Continue), probe("/x/b"));
    assert_eq!(session.step(VerifyEvent::Exists(true)), probe("/y/a"));
    assert_eq!(
        session.step(VerifyEvent::Exists(false)),
        VerifyAction::Report { name: "a".to_string(), directory: "/y/a".to_string() }
    );
    assert_eq!(session.step(VerifyEvent::Continue), VerifyAction::Done);
    assert_eq!(session.into_projects(), three());
}

#[test]
fn verify_list_mode_comes_before_the_other_modes() {
    let all = VerifyFlags { list: true, remove_invalid: true, interactive: true };
    let mut session = verify_projects(three(), "b".to_string(), all);
    assert_eq!(session.step(VerifyEvent::Continue), probe("/x/b"));
    assert_eq!(
        session.step(VerifyEvent::Exists(false)),
        VerifyAction::Report { name: "b".to_string(), directory: "/x/b".to_string() }
    );
    assert_eq!(session.step(VerifyEvent::Continue), VerifyAction::Done);
    assert_eq!(session.into_projects(), three());
}

#[test]
fn verify_in_remove_mode_removes_what_is_missing() {
    let mut session = verify_projects(three(), "*".to_string(), REMOVE);
    assert_eq!(session.step(VerifyEvent::Continue), probe("/x/a"));
    assert_eq!(session.step(VerifyEvent::Exists(true)), probe("/x/b"));
    assert_eq!(
        session.step(VerifyEvent::Exists(false)),
        VerifyAction::Report { name: "b".to_string(), directory: "/x/b".to_string() }
    );
    assert_eq!(session.step(VerifyEvent::Continue), probe("/y/a"));
    assert_eq!(
        session.step(VerifyEvent::Exists(false)),
        VerifyAction::Report { name: "a".to_string(), directory: "/y/a".to_string() }
    );
    assert_eq!(session.step(VerifyEvent::Continue), VerifyAction::Done);
    assert_eq!(session.into_projects(), vec![project("a", "/x/a")]);
}

#[test]
fn verify_remove_mode_comes_before_interactive_mode() {
    let both = VerifyFlags { list: false, remove_invalid: true, interactive: true };
    let mut session = verify_projects(three(), "b".to_string(), both);
    assert_eq!(session.step(VerifyEvent::Continue), probe("/x/b"));
    assert_eq!(
        session.step(VerifyEvent::Exists(false)),
        VerifyAction::Report { name: "b".to_string(), directory: "/x/b".to_string() }
    );
    assert_eq!(session.step(VerifyEvent::Continue), VerifyAction::Done);
    assert_eq!(session.into_projects(), vec![project("a", "/x/a"), project("a", "/y/a")]);
}

#[test]
fn verify_interactive_changes_the_directory() {
    let mut session = verify_projects(three(), "*".to_string(), ASK);
    assert_eq!(session.step(VerifyEvent::Continue), probe("/x/a"));
    assert_eq!(
        session.step(VerifyEvent::Exists(false)),
        VerifyAction::AskModify { name: "a".to_string(), directory: "/x/a".to_string() }
    );
    assert_eq!(session.stage(), VerifyStage::AskingModify);
    assert_eq!(session.step(answer(" y\n")), VerifyAction::AskDirectory);
    assert_eq!(session.stage(), VerifyStage::AskingDirectory);
    assert_eq!(session.step(answer("  /new/place \n")), probe("/x/b"));
    assert_eq!(session.step(VerifyEvent::Exists(true)), probe("/y/a"));
    assert_eq!(session.step(VerifyEvent::Exists(true)), VerifyAction::Done);
    assert_eq!(
        session.into_projects(),
        vec![project("a", "/new/place"), project("b", "/x/b"), project("a", "/y/a")]
    );
}

#[test]
fn verify_interactive_removes_after_confirmation() {
    let mut session = verify_projects(three(), "*".to_string(), ASK);
    assert_eq!(session.step(VerifyEvent::Continue), probe("/x/a"));
    session.step(VerifyEvent::Exists(false));
    assert_eq!(session.step(answer("r\n")), VerifyAction::AskConfirm);
    assert_eq!(session.stage(), VerifyStage::AskingConfirm);
    assert_eq!(session.step(answer("y\n")), probe("/x/b"));
    session.step(VerifyEvent::Exists(false));
    assert_eq!(session.step(answer("r\n")), VerifyAction::AskConfirm);
    assert_eq!(session.step(answer("n\n")), probe("/y/a"));
    session.step(VerifyEvent::Exists(false));
    assert_eq!(session.step(answer("whatever\n")), VerifyAction::Done);
    assert_eq!(session.into_projects(), vec![project("b", "/x/b"), project("a", "/y/a")]);
}

#[test]
fn verify_rejects_an_event_that_does_not_fit() {
    let mut session = verify_projects(three(), "*".to_string(), ASK);
    assert_eq!(session.step(VerifyEvent::Exists(true)), VerifyAction::Unexpected);
    assert_eq!(session.step(answer("y")), VerifyAction::Unexpected);
    assert_eq!(session.stage(), VerifyStage::Idle);
    assert_eq!(session.step(VerifyEvent::Continue), probe("/x/a"));
    assert_eq!(session.step(VerifyEvent::Continue), VerifyAction::Unexpected);
    assert_eq!(session.step(answer("y")), VerifyAction::Unexpected);
    assert_eq!(session.stage(), VerifyStage::Probing);
    session.step(VerifyEvent::Exists(false));
    assert_eq!(session.step(VerifyEvent::Continue), VerifyAction::Unexpected);
    assert_eq!(session.step(VerifyEvent::Exists(true)), VerifyAction::Unexpected);
    assert_eq!(session.stage(), VerifyStage::AskingModify);
}

const DRY: RefactorFlags = RefactorFlags { dry_run: true, force: false, interactive: false };
const FORCE: RefactorFlags = RefactorFlags { dry_run: false, force: true, interactive: false };
const CONFIRM: RefactorFlags = RefactorFlags { dry_run: false, force: false, interactive: true };
const NONE: RefactorFlags = RefactorFlags { dry_run: false, force: false, interactive: false };

fn scattered() -> Vec<Project> {
    vec![
        filed("tool", "/base/work/rust/tool", "work", "rust"),
        filed("site", "/old/site", "home", "web"),
        project("notes", "  /base/notes"),
        project("lost", "/somewhere/lost"),
    ]
}

#[test]
fn refactor_dry_run_announces_and_keeps() {
    let mut session = refactor_projects(scattered(), "*".to_string(), "/base".to_string(), DRY);
    assert_eq!(
        session.step(RefactorEvent::Continue),
        RefactorAction::Announce {
            name: "site".to_string(),
            from: "/old/site".to_string(),
            to: "/base/home/web/site".to_string(),
        }
    );
    assert_eq!(session.stage(), RefactorStage::Announced);
    assert_eq!(
        session.step(RefactorEvent::Continue),
        RefactorAction::Announce {
            name: "lost".to_string(),
            from: "/somewhere/lost".to_string(),
            to: "/base/lost".to_string(),
        }
    );
    assert_eq!(session.step(RefactorEvent::Continue), RefactorAction::Done);
    assert_eq!(session.stage(), RefactorStage::Finished);
    assert_eq!(session.into_projects(), scattered());
}

#[test]
fn refactor_dry_run_comes_before_the_other_modes() {
    let all = RefactorFlags { dry_run: true, force: true, interactive: true };
    let mut session = refactor_projects(scattered(), "lost".to_string(), "/base".to_string(), all);
    assert_eq!(
        session.step(RefactorEvent::Continue),
        RefactorAction::Announce {
            name: "lost".to_string(),
            from: "/somewhere/lost".to_string(),
            to: "/base/lost".to_string(),
        }
    );
    assert_eq!(session.step(RefactorEvent::Continue), RefactorAction::Done);
    assert_eq!(session.into_projects(), scattered());
}

#[test]
fn refactor_force_moves_and_records_the_new_directory() {
    let mut session = refactor_projects(scattered(), "*".to_string(), "/base".to_string(), FORCE);
    assert_eq!(
        session.step(RefactorEvent::Continue),
        RefactorAction::Move {
            name: "site".to_string(),
            from: "/old/site".to_string(),
            to: "/base/home/web/site".to_string(),
            announce: true,
        }
    );
    assert_eq!(session.stage(), RefactorStage::Moving);
    assert_eq!(
        session.step(RefactorEvent::Moved),
        RefactorAction::Move {
            name: "lost".to_string(),
            from: "/somewhere/lost".to_string(),
            to: "/base/lost".to_string(),
            announce: true,
        }
    );
    assert_eq!(session.step(RefactorEvent::Moved), RefactorAction::Done);
    assert_eq!(
        session.into_projects(),
        vec![
            filed("tool", "/base/work/rust/tool", "work", "rust"),
            filed("site", "/base/home/web/site", "home", "web"),
            project("notes", "  /base/notes"),
            project("lost", "/base/lost"),
        ]
    );
}

#[test]
fn refactor_interactive_asks_for_each_folder() {
    let mut session =
        refactor_projects(scattered(), "*".to_string(), "/base".to_string(), CONFIRM);
    assert_eq!(
        session.step(RefactorEvent::Continue),
        RefactorAction::Confirm {
            name: "site".to_string(),
            from: "/old/site".to_string(),
            to: "/base/home/web/site".to_string(),
        }
    );
    assert_eq!(session.stage(), RefactorStage::Confirming);
    assert_eq!(
        session.step(RefactorEvent::Answer("n\n".to_string())),
        RefactorAction::Confirm {
            name: "lost".to_string(),
            from: "/somewhere/lost".to_string(),
            to: "/base/lost".to_string(),
        }
    );
    assert_eq!(
        session.step(RefactorEvent::Answer(" y \n".to_string())),
        RefactorAction::Move {
            name: "lost".to_string(),
            from: "/somewhere/lost".to_string(),
            to: "/base/lost".to_string(),
            announce: false,
        }
    );
    assert_eq!(session.step(RefactorEvent::Moved), RefactorAction::Done);
    let projects = session.into_projects();
    assert_eq!(projects[1], filed("site", "/old/site", "home", "web"));
    assert_eq!(projects[3], project("lost", "/base/lost"));
}

#[test]
fn refactor_interactive_comes_before_force() {
    let both = RefactorFlags { dry_run: false, force: true, interactive: true };
    let mut session = refactor_projects(scattered(), "lost".to_string(), "/base".to_string(), both);
    assert_eq!(
        session.step(RefactorEvent::Continue),
        RefactorAction::Confirm {
            name: "lost".to_string(),
            from: "/somewhere/lost".to_string(),
            to: "/base/lost".to_string(),
        }
    );
}

#[test]
fn refactor_without_a_mode_refuses_at_the_first_misplaced_project() {
    let mut session = refactor_projects(scattered(), "*".to_string(), "/base".to_string(), NONE);
    assert_eq!(session.step(RefactorEvent::Continue), RefactorAction::Refuse);
    assert_eq!(session.stage(), RefactorStage::Refused);
    assert_eq!(session.step(RefactorEvent::Continue), RefactorAction::Refuse);
    assert_eq!(session.into_projects(), scattered());
    let mut fine =
        refactor_projects(scattered(), "tool".to_string(), "/base".to_string(), NONE);
    assert_eq!(fine.step(RefactorEvent::Continue), RefactorAction::Done);
}

#[test]
fn refactor_rejects_an_event_that_does_not_fit() {
    let mut session =
        refactor_projects(scattered(), "*".to_string(), "/base".to_string(), CONFIRM);
    assert_eq!(session.step(RefactorEvent::Moved), RefactorAction::Unexpected);
    assert_eq!(session.stage(), RefactorStage::Idle);
    session.step(RefactorEvent::Continue);
    assert_eq!(session.step(RefactorEvent::Continue), RefactorAction::Unexpected);
    assert_eq!(session.step(RefactorEvent::Moved), RefactorAction::Unexpected);
    assert_eq!(session.stage(), RefactorStage::Confirming);
}

#[test]
fn refactor_treats_equal_paths_as_equal() {
    let projects = vec![project("notes", "/base//notes/"), project("other", "/base/./other")];
    let mut session = refactor_projects(projects, "*".to_string(), "/base".to_string(), NONE);
    assert_eq!(session.step(RefactorEvent::Continue), RefactorAction::Done);
}

#[test]
fn verify_without_a_mode_refuses_at_the_first_missing_directory() {
    let none = VerifyFlags { list: false, remove_invalid: false, interactive: false };
    let mut session = verify_projects(three(), "*".to_string(), none);
    assert_eq!(session.step(VerifyEvent::Continue), probe("/x/a"));
    assert_eq!(session.step(VerifyEvent::Exists(true)), probe("/x/b"));
    assert_eq!(session.step(VerifyEvent::Exists(false)), VerifyAction::Refuse);
    assert_eq!(session.stage(), VerifyStage::Refused);
    assert_eq!(session.step(VerifyEvent::Continue), VerifyAction::Refuse);
    assert_eq!(session.into_projects(), three());
    let mut fine = verify_projects(three(), "b".to_string(), none);
    assert_eq!(fine.step(VerifyEvent::Continue), probe("/x/b"));
    assert_eq!(fine.step(VerifyEvent::Exists(true)), VerifyAction::Done);
}
