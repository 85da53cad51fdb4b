use krun::cli::Commands;
use krun::models::{Profile, Workspace};
use krun::session::{after_answer, after_edit, after_id, after_lookup, KrunAction, SessionError};

fn sample() -> Workspace {
    let mut w = Workspace::new("id1", "proj");
    w.profiles.push(Profile { name: "lint".to_string(), content: "cargo clippy".to_string() });
    w
}

#[test]
fn init_stops_when_set_up() {
    assert!(matches!(after_lookup(&Commands::Init, Some(sample())), KrunAction::AlreadyInitialized));
    assert!(matches!(after_lookup(&Commands::Init, None), KrunAction::ResolveId));
}

#[test]
fn commands_need_a_workspace() {
    assert!(matches!(after_lookup(&Commands::Edit, None), KrunAction::MissingWorkspace));
    assert!(matches!(after_lookup(&Commands::Remove, None), KrunAction::MissingWorkspace));
    assert!(matches!(
        after_lookup(&Commands::Run { profile: None }, None),
        KrunAction::MissingWorkspace
    ));
}

#[test]
fn edit_opens_text() {
    let w = sample();
    match after_lookup(&Commands::Edit, Some(w.clone())) {
        KrunAction::OpenEditor { id, text, creating } => {
            assert_eq!(id, "id1");
            assert_eq!(text, w.to_text());
            assert!(!creating);
        }
        other => panic!("unexpected {:?}", other),
    }
}

#[test]
fn remove_asks_first() {
    match after_lookup(&Commands::Remove, Some(sample())) {
        KrunAction::ConfirmRemove { id, name } => {
            assert_eq!(id, "id1");
            assert_eq!(name, "proj");
        }
        other => panic!("unexpected {:?}", other),
    }
    assert!(matches!(after_answer("id1".to_string(), true), KrunAction::Delete { id } if id == "id1"));
    assert!(matches!(after_answer("id1".to_string(), false), KrunAction::Keep));
}

#[test]
fn run_picks_profile() {
    match after_lookup(&Commands::Run { profile: None }, Some(sample())) {
        KrunAction::RunScript { shell, script } => {
            assert_eq!(shell, "bash");
            assert_eq!(script, "make");
        }
        other => panic!("unexpected {:?}", other),
    }
    match after_lookup(&Commands::Run { profile: Some("lint".to_string()) }, Some(sample())) {
        KrunAction::RunScript { script, .. } => assert_eq!(script, "cargo clippy"),
        other => panic!("unexpected {:?}", other),
    }
    match after_lookup(&Commands::Run { profile: Some("x".to_string()) }, Some(sample())) {
        KrunAction::Fail(e) => assert_eq!(
            e,
            SessionError::ProfileNotFound { profile: "x".to_string(), workspace: "proj".to_string() }
        ),
        other => panic!("unexpected {:?}", other),
    }
}

#[test]
fn init_edits_new_workspace() {
    match after_id("abc".to_string(), "/home/u/proj") {
        KrunAction::OpenEditor { id, text, creating } => {
            assert_eq!(id, "abc");
            assert_eq!(text, Workspace::new("abc", "proj").to_text());
            assert!(creating);
        }
        other => panic!("unexpected {:?}", other),
    }
}

#[test]
fn edit_saves_only_parsed_text() {
    match after_edit("abc", "[config]\nname = \"n\"\n", true) {
        KrunAction::Save { workspace, creating } => {
            assert_eq!(workspace.id, "abc");
            assert_eq!(workspace.name, "n");
            assert!(creating);
        }
        other => panic!("unexpected {:?}", other),
    }
    assert!(matches!(after_edit("abc", "no config", false), KrunAction::Abort { creating: false }));
}
