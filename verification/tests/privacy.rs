use autokeyboardlayot_core::privacy::ExclusionPolicy;

#[test]
fn default_policy_matches_names_and_full_paths_case_insensitively() {
    let policy = ExclusionPolicy::default();
    assert!(policy.is_excluded("KeePassXC.exe"));
    assert!(policy.is_excluded("C:\\Tools\\BITWARDEN.EXE"));
    assert!(policy.is_excluded("C:\\Tools\\AutoKeyboardLayot.exe"));
    assert!(!policy.is_excluded("notepad.exe"));
}

#[test]
fn user_lines_ignore_comments_and_accept_windows_or_unix_paths() {
    let policy = ExclusionPolicy::from_lines(&[
        "# private editor",
        " C:\\Apps\\PrivateEditor.exe ",
        "/opt/tools/secret-terminal",
        "",
    ]);
    assert_eq!(policy.len(), 2);
    assert!(policy.is_excluded("privateeditor.exe"));
    assert!(policy.is_excluded("SECRET-TERMINAL"));
}

#[test]
fn extending_keeps_each_name_once() {
    let mut policy = ExclusionPolicy::from_lines(&["a.exe", "A.EXE"]);
    assert_eq!(policy.len(), 1);
    policy.extend_lines(&["c:\\x\\a.exe", "b.exe"]);
    assert_eq!(policy.len(), 2);
    assert!(!policy.is_empty());
    assert!(ExclusionPolicy::from_lines(&["# only a comment", "   "]).is_empty());
}

#[test]
fn normalize_entry_keeps_only_the_lowercase_file_name() {
    assert_eq!(
        ExclusionPolicy::normalize_entry(" C:\\Apps\\Editor.EXE "),
        Some("editor.exe".to_owned())
    );
    assert_eq!(ExclusionPolicy::normalize_entry("/opt/Tools/Secret-Terminal"), Some("secret-terminal".to_owned()));
    assert_eq!(ExclusionPolicy::normalize_entry("   "), None);
}
