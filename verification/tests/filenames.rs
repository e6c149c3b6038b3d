use ani_rust::filenames::sanitize;

#[test]
fn safe() {
    for s in ["../a:b", "CON", "", "a/b\\c"] {
        let x = sanitize(s);
        assert!(!x.contains(['/', '\\', ':', '.']));
        assert!(x.starts_with("ani-"));
    }
}

#[test]
fn sanitize_replaces_and_truncates() {
    assert_eq!(sanitize("../a:b"), "ani-___a_b");
    assert_eq!(sanitize(""), "ani-_");
    assert_eq!(sanitize("Case Closed"), "ani-Case_Closed");
    assert_eq!(sanitize("a-b_c9"), "ani-a-b_c9");
    assert_eq!(sanitize("é"), "ani-_");
    let long: String = "x".repeat(100);
    assert_eq!(sanitize(&long), format!("ani-{}", "x".repeat(80)));
}
