use krun::models::{Profile, Workspace};
use krun::round_trip::config_keys_are_lowercase;

fn profile(name: &str, content: &str) -> Profile {
    Profile { name: name.to_string(), content: content.to_string() }
}

fn names(w: &Workspace) -> Vec<(String, String)> {
    w.profiles.iter().map(|p| (p.name.clone(), p.content.clone())).collect()
}

#[test]
fn new_workspace_has_defaults() {
    let w = Workspace::new("id1", "proj");
    assert_eq!(w.id, "id1");
    assert_eq!(w.name, "proj");
    assert_eq!(w.shell, "bash");
    assert_eq!(w.default_profile, "test");
    assert_eq!(names(&w), vec![("test".to_string(), "make".to_string())]);
}

#[test]
fn new_workspace_text() {
    let w = Workspace::new("id1", "proj");
    assert_eq!(
        w.to_text(),
        "[config]\nname = \"proj\"\nshell = \"bash\"\ndefault_profile = \"test\"\n\n[test]\nmake\n"
    );
}

#[test]
fn text_without_profiles() {
    let mut w = Workspace::new("i", "n");
    w.profiles.clear();
    assert_eq!(
        w.to_text(),
        "[config]\nname = \"n\"\nshell = \"bash\"\ndefault_profile = \"test\"\n"
    );
}

#[test]
fn text_trims_trailing_whitespace_of_last_script() {
    let mut w = Workspace::new("i", "n");
    w.profiles = vec![profile("a", "x"), profile("b", "y  \t")];
    assert_eq!(
        w.to_text(),
        "[config]\nname = \"n\"\nshell = \"bash\"\ndefault_profile = \"test\"\n\n[a]\nx\n\n[b]\ny\n"
    );
}

#[test]
fn text_with_empty_last_script() {
    let mut w = Workspace::new("i", "n");
    w.profiles = vec![profile("a", "")];
    assert_eq!(
        w.to_text(),
        "[config]\nname = \"n\"\nshell = \"bash\"\ndefault_profile = \"test\"\n\n[a]\n"
    );
}

#[test]
fn from_text_without_config_is_none() {
    assert!(Workspace::from_text("i", "").is_none());
    assert!(Workspace::from_text("i", "[a]\nls\n").is_none());
    assert!(Workspace::from_text("i", "name = x\n").is_none());
}

#[test]
fn from_text_uses_defaults() {
    let w = Workspace::from_text("abc", "[config]\n").unwrap();
    assert_eq!(w.id, "abc");
    assert_eq!(w.name, "unknown");
    assert_eq!(w.shell, "bash");
    assert_eq!(w.default_profile, "test");
    assert!(w.profiles.is_empty());
}

#[test]
fn from_text_reads_sections() {
    let raw = "junk before\n[config]\nNAME = 'x'\n[a]\necho 1\n\n  echo 2  \n[config]\nname = y\n";
    let w = Workspace::from_text("id", raw).unwrap();
    assert_eq!(w.name, "x");
    assert_eq!(
        names(&w),
        vec![
            ("a".to_string(), "echo 1\n  echo 2  ".to_string()),
            ("config".to_string(), "name = y".to_string()),
        ]
    );
}

#[test]
fn from_text_handles_crlf() {
    let w = Workspace::from_text("id", "[config]\r\nname = \"w\"\r\nshell=zsh\r\n[p]\r\nls\r\n").unwrap();
    assert_eq!(w.name, "w");
    assert_eq!(w.shell, "zsh");
    assert_eq!(names(&w), vec![("p".to_string(), "ls".to_string())]);
}

#[test]
fn from_text_empty_header_drops_lines() {
    let w = Workspace::from_text("id", "[config]\nname=a\n[]\nignored\n[b]\nx").unwrap();
    assert_eq!(w.name, "a");
    assert_eq!(names(&w), vec![("b".to_string(), "x".to_string())]);
}

#[test]
fn from_text_values() {
    let raw = "[config]\nname = a=b\nno equals here\nshell = \"\"\"q\"\"\"\ndefault_profile =   \"build\"  \nname = second\n";
    let w = Workspace::from_text("id", raw).unwrap();
    assert_eq!(w.name, "second");
    assert_eq!(w.shell, "q");
    assert_eq!(w.default_profile, "build");
}

#[test]
fn from_text_lowercases_keys() {
    let w = Workspace::from_text("id", "[config]\nShell = fish\nDEFAULT_PROFILE = run\n").unwrap();
    assert_eq!(w.shell, "fish");
    assert_eq!(w.default_profile, "run");
}

#[test]
fn round_trip_of_a_workspace() {
    let w = Workspace {
        id: "7f3a".to_string(),
        name: "my project ünïcode".to_string(),
        shell: "/bin/zsh".to_string(),
        default_profile: "build".to_string(),
        profiles: vec![
            profile("build", "cargo build\n  cargo test --all"),
            profile("empty", ""),
            profile("config", "echo config = \"x\""),
            profile(" spaced ", "make run"),
        ],
    };
    let back = Workspace::from_text(&w.id, &w.to_text()).unwrap();
    assert_eq!(back.id, w.id);
    assert_eq!(back.name, w.name);
    assert_eq!(back.shell, w.shell);
    assert_eq!(back.default_profile, w.default_profile);
    assert_eq!(names(&back), names(&w));
}

#[test]
fn round_trip_of_a_new_workspace() {
    let w = Workspace::new("id9", "proj");
    let back = Workspace::from_text("id9", &w.to_text()).unwrap();
    assert_eq!(back.name, "proj");
    assert_eq!(names(&back), names(&w));
}

#[test]
fn quoted_value_does_not_round_trip() {
    let mut w = Workspace::new("i", "\"quoted\"");
    w.profiles.clear();
    let back = Workspace::from_text("i", &w.to_text()).unwrap();
    assert_eq!(back.name, "quoted");
}

#[test]
fn get_profile_finds_first() {
    let mut w = Workspace::new("i", "n");
    w.profiles = vec![profile("a", "1"), profile("b", "2"), profile("a", "3")];
    assert_eq!(w.get_profile("a").unwrap().content, "1");
    assert_eq!(w.get_profile("b").unwrap().content, "2");
    assert!(w.get_profile("c").is_none());
    assert!(w.get_profile("").is_none());
}

#[test]
fn config_keys_lowercase_holds() {
    assert!(config_keys_are_lowercase());
}
