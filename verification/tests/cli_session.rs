use krun::cli::{confirm_answer, CommonArgs};
use krun::models::{Profile, Workspace};
use krun::session::{
    dir_label, profile_to_run, workspace_id_by_name, workspace_query, SessionError, WorkspaceQuery,
};

#[test]
fn confirm_answers() {
    assert!(confirm_answer(""));
    assert!(confirm_answer("  \n"));
    assert!(confirm_answer("y\n"));
    assert!(confirm_answer(" Y "));
    assert!(!confirm_answer("yes"));
    assert!(!confirm_answer("n"));
    assert!(!confirm_answer("ÿ"));
}

#[test]
fn target_dir_defaults_to_current() {
    let c = CommonArgs { dir: None, workspace: None };
    assert_eq!(c.target_dir(), ".");
    let c = CommonArgs { dir: Some("/srv".to_string()), workspace: None };
    assert_eq!(c.target_dir(), "/srv");
}

#[test]
fn query_prefers_name() {
    let c = CommonArgs { dir: None, workspace: Some("w".to_string()) };
    assert_eq!(workspace_query(&c, "/d"), WorkspaceQuery::ByName("w".to_string()));
    let c = CommonArgs { dir: Some("/d".to_string()), workspace: None };
    assert_eq!(workspace_query(&c, "/canon/d"), WorkspaceQuery::ByDir("/canon/d".to_string()));
}

#[test]
fn id_by_name() {
    assert_eq!(workspace_id_by_name("w", Some("abc".to_string())), Ok("abc".to_string()));
    assert_eq!(
        workspace_id_by_name("w", None),
        Err(SessionError::WorkspaceNotFound("w".to_string()))
    );
}

#[test]
fn dir_labels() {
    assert_eq!(dir_label("/home/user/proj"), "proj");
    assert_eq!(dir_label("/home/user/proj/"), "proj");
    assert_eq!(dir_label("a//b//"), "b");
    assert_eq!(dir_label("/"), "unknown");
    assert_eq!(dir_label(""), "unknown");
}

#[test]
fn run_profile_choice() {
    let mut w = Workspace::new("i", "n");
    w.profiles.push(Profile { name: "lint".to_string(), content: "cargo clippy".to_string() });
    assert_eq!(profile_to_run(&w, None).unwrap().content, "make");
    assert_eq!(profile_to_run(&w, Some("lint")).unwrap().content, "cargo clippy");
    assert_eq!(
        profile_to_run(&w, Some("deploy")).unwrap_err(),
        SessionError::ProfileNotFound { profile: "deploy".to_string(), workspace: "n".to_string() }
    );
    w.default_profile = "missing".to_string();
    assert!(profile_to_run(&w, None).is_err());
}
