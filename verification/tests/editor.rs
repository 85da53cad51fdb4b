use krun::editor::{choose_editor, editor_variable, fallback_editors};

#[test]
fn fallback_order() {
    assert_eq!(fallback_editors(), vec!["nvim", "helix", "code", "micro", "nano", "vim", "vi"]);
}

#[test]
fn visual_before_editor() {
    assert_eq!(editor_variable(Some("v".to_string()), Some("e".to_string())), Some("v".to_string()));
    assert_eq!(editor_variable(None, Some("e".to_string())), Some("e".to_string()));
    assert_eq!(editor_variable(None, None), None);
}

#[test]
fn editor_choice() {
    let found = vec![None, Some("/usr/bin/hx".to_string()), Some("/usr/bin/code".to_string())];
    assert_eq!(choose_editor(None, found.clone()), Some("/usr/bin/hx".to_string()));
    assert_eq!(
        choose_editor(Some("/usr/bin/nano".to_string()), found),
        Some("/usr/bin/nano".to_string())
    );
    assert_eq!(choose_editor(None, vec![None, None]), None);
    assert_eq!(choose_editor(None, vec![]), None);
}
