use docguard::detect::DetectionRule;
use docguard::vcs::{parse_changed_files, parse_last_commit, split_lines};

fn s(x: &str) -> String {
    x.to_string()
}

#[test]
fn lines_like_std() {
    for text in ["", "a", "a\n", "a\nb", "a\r\nb\r\n", "\n\nx", "a\rb\n", "x\r", "\n"] {
        let expected: Vec<String> = text.lines().map(String::from).collect();
        assert_eq!(split_lines(text), expected, "{:?}", text);
    }
}

#[test]
fn last_commit_from_log_output() {
    assert_eq!(
        parse_last_commit("0123abcd\nAdd parser\n"),
        Some((s("0123abcd"), s("Add parser")))
    );
    assert_eq!(parse_last_commit("0123abcd\n"), Some((s("0123abcd"), s(""))));
    assert_eq!(parse_last_commit(""), None);
}

#[test]
fn changed_files_from_diff_tree() {
    assert_eq!(
        parse_changed_files("src/a.rs\ndocs/README.md\n"),
        vec![s("src/a.rs"), s("docs/README.md")]
    );
    assert!(parse_changed_files("").is_empty());
}

#[test]
fn rule_from_stored_name() {
    assert_eq!(DetectionRule::from_name("config"), Some(DetectionRule::Config));
    assert_eq!(DetectionRule::from_name("reference"), Some(DetectionRule::Reference));
    assert_eq!(DetectionRule::from_name("pattern"), Some(DetectionRule::Pattern));
    assert_eq!(DetectionRule::from_name("Config"), None);
}
