use krun::models::{Profile, Workspace};
use krun::store::{choose_saved_name, plan_save, workspace_from_rows};

fn sample() -> Workspace {
    Workspace {
        id: "id1".to_string(),
        name: "proj".to_string(),
        shell: "zsh".to_string(),
        default_profile: "b".to_string(),
        profiles: vec![
            Profile { name: "a".to_string(), content: "1".to_string() },
            Profile { name: "b".to_string(), content: "2".to_string() },
        ],
    }
}

#[test]
fn saved_name_keeps_free_name() {
    let w = sample();
    assert_eq!(choose_saved_name(&w, false, None), Some("proj".to_string()));
    assert_eq!(choose_saved_name(&w, false, Some("old".to_string())), Some("proj".to_string()));
}

#[test]
fn saved_name_falls_back_when_taken() {
    let w = sample();
    assert_eq!(choose_saved_name(&w, true, Some("old".to_string())), Some("old".to_string()));
    assert_eq!(choose_saved_name(&w, true, None), None);
}

#[test]
fn plan_save_rows() {
    let w = sample();
    let plan = plan_save(&w, "renamed".to_string());
    assert_eq!(plan.id, "id1");
    assert_eq!(plan.repo.id, "id1");
    assert_eq!(plan.repo.name, "renamed");
    assert_eq!(plan.repo.shell, "zsh");
    assert_eq!(plan.repo.default_profile, "b");
    let rows: Vec<(String, String, String)> =
        plan.profiles.iter().map(|r| (r.id.clone(), r.name.clone(), r.content.clone())).collect();
    assert_eq!(
        rows,
        vec![
            ("id1".to_string(), "a".to_string(), "1".to_string()),
            ("id1".to_string(), "b".to_string(), "2".to_string()),
        ]
    );
}

#[test]
fn rows_make_workspace() {
    let w = workspace_from_rows(
        "id1",
        Some(("proj".to_string(), "zsh".to_string(), "b".to_string())),
        vec![("a".to_string(), "1".to_string()), ("b".to_string(), "2".to_string())],
    )
    .unwrap();
    assert_eq!(w.id, "id1");
    assert_eq!(w.name, "proj");
    assert_eq!(w.shell, "zsh");
    assert_eq!(w.default_profile, "b");
    assert_eq!(w.profiles.len(), 2);
    assert_eq!(w.profiles[1].content, "2");
    assert!(workspace_from_rows("id1", None, vec![("a".to_string(), "1".to_string())]).is_none());
}

#[test]
fn plan_then_rows_read_back() {
    let w = sample();
    let plan = plan_save(&w, "proj".to_string());
    let back = workspace_from_rows(
        &plan.id,
        Some((plan.repo.name.clone(), plan.repo.shell.clone(), plan.repo.default_profile.clone())),
        plan.profiles.iter().map(|r| (r.name.clone(), r.content.clone())).collect(),
    )
    .unwrap();
    assert_eq!(back.name, w.name);
    assert_eq!(back.profiles.len(), w.profiles.len());
    assert_eq!(back.profiles[0].name, "a");
}
