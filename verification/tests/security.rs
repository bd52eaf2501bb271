use aidms_core::security::{canonicalize_safe, redact_log, target_path, SecurityError};

#[test]
fn redact_masks_secret() {
    let out = redact_log("call api_key=sk-1234567890abcdef payload=ok");
    assert!(!out.contains("sk-1234567890abcdef"));
    assert!(out.contains("***"));
    assert!(out.contains("payload=ok"));
}

#[test]
fn within_root_by_whole_components() {
    let ok = |p: &str| canonicalize_safe(Some("/data/root".into()), Some(p.into())).is_ok();
    assert!(ok("/data/root/a.txt"));
    assert!(ok("/data/root"));
    assert!(!ok("/data/rootkit/a.txt"));
    assert!(!ok("/etc/passwd"));
    assert!(canonicalize_safe(Some("/".into()), Some("/anything".into())).is_ok());
}

#[test]
fn join_relative_and_absolute() {
    assert_eq!(target_path("/data/root", "a/b.txt"), "/data/root/a/b.txt");
    assert_eq!(target_path("/data/root/", "b.txt"), "/data/root/b.txt");
    assert_eq!(target_path("/data/root", "/etc/passwd"), "/etc/passwd");
}

#[test]
fn canonical_verdicts() {
    assert_eq!(canonicalize_safe(None, Some("/x".into())), Err(SecurityError::RootNotExists));
    assert_eq!(canonicalize_safe(Some("/r".into()), None), Err(SecurityError::InvalidPath));
    assert_eq!(canonicalize_safe(Some("/r".into()), Some("/etc".into())), Err(SecurityError::EscapeAllowedRoot));
    assert_eq!(canonicalize_safe(Some("/r".into()), Some("/r/a".into())), Ok("/r/a".to_string()));
}

#[test]
fn long_word_cut_on_a_character_boundary() {
    let word = format!("a{}", "中".repeat(41));
    assert_eq!(redact_log(&word), format!("a{}…", "中".repeat(39)));
    let ascii = "x.".repeat(65);
    assert_eq!(redact_log(&format!("{ascii} ok")), format!("{}… ok", "x.".repeat(60)));
}
