use docguard::detect::{detect, CodeFile, DetectionRule, DocMapping, DocRules, ReferencePattern};
use docguard::paths::{classify, file_extension, get_default_doc_for_file, is_doc_file};

fn s(x: &str) -> String {
    x.to_string()
}

fn code(path: &str) -> CodeFile {
    CodeFile { path: s(path), content: None }
}

fn code_with(path: &str, content: &str) -> CodeFile {
    CodeFile { path: s(path), content: Some(s(content)) }
}

fn no_rules() -> DocRules {
    DocRules { mappings: vec![], reference_patterns: vec![] }
}

fn sorted(mut v: Vec<String>) -> Vec<String> {
    v.sort();
    v
}

#[test]
fn extension_of_last_component() {
    assert_eq!(file_extension("x.tar.gz"), Some(s("gz")));
    assert_eq!(file_extension("a.b/c"), None);
    assert_eq!(file_extension(".gitignore"), None);
    assert_eq!(file_extension("dir/.env.local"), Some(s("local")));
    assert_eq!(file_extension("Makefile"), None);
    assert_eq!(file_extension("a."), Some(s("")));
    assert_eq!(file_extension("src/.."), None);
}

#[test]
fn doc_files_by_extension_ignoring_case() {
    let exts = vec![s("Md"), s("txt")];
    assert!(is_doc_file("README.MD", &exts));
    assert!(is_doc_file("docs/notes.txt", &exts));
    assert!(!is_doc_file("src/main.rs", &exts));
    assert!(!is_doc_file("Makefile", &exts));
    assert!(!is_doc_file(".md", &exts));
    assert!(!is_doc_file("README.md", &vec![]));
}

#[test]
fn default_table() {
    assert_eq!(get_default_doc_for_file("src/lib.rs"), Some(s("specs/ARCHITECTURE.md")));
    assert_eq!(get_default_doc_for_file("tool.PY"), Some(s("specs/ARCHITECTURE.md")));
    for p in ["a.ts", "b/c.tsx", "d.js", "e.JSX"] {
        assert_eq!(get_default_doc_for_file(p), Some(s("docs/README.md")));
    }
    assert_eq!(get_default_doc_for_file("main.go"), None);
    assert_eq!(get_default_doc_for_file("Makefile"), None);
}

#[test]
fn classify_keeps_order() {
    let changed = vec![s("src/a.rs"), s("README.md"), s("Makefile"), s("docs/B.MD")];
    let (c, d) = classify(&changed, &vec![s("md")]);
    assert_eq!(c, vec![s("src/a.rs"), s("Makefile")]);
    assert_eq!(d, vec![s("README.md"), s("docs/B.MD")]);
}

#[test]
fn mapping_example_is_config() {
    let rules = DocRules {
        mappings: vec![DocMapping { code: s("src/api/*.rs"), doc: s("docs/API.md") }],
        reference_patterns: vec![],
    };
    let det = detect(&vec![code("src/api/handler.rs")], &vec![], &rules).unwrap();
    assert_eq!(det.rule, DetectionRule::Config);
    assert!(det.expected_docs.contains(&s("docs/API.md")));
    // the built-in table also applies to a `.rs` file
    assert_eq!(sorted(det.expected_docs), vec![s("docs/API.md"), s("specs/ARCHITECTURE.md")]);
}

#[test]
fn mapping_outranks_default_table() {
    let rules = DocRules {
        mappings: vec![DocMapping { code: s("src/*.rs"), doc: s("docs/CORE.md") }],
        reference_patterns: vec![],
    };
    let files = vec![code("src/util.rs")];
    let det = detect(&files, &vec![s("docs/CORE.md")], &rules).unwrap();
    assert_eq!(det.rule, DetectionRule::Config);
    assert_eq!(det.expected_docs, vec![s("specs/ARCHITECTURE.md")]);
}

#[test]
fn glob_star_stays_within_a_segment() {
    let rules = DocRules {
        mappings: vec![DocMapping { code: s("src/api/*.rs"), doc: s("docs/API.md") }],
        reference_patterns: vec![],
    };
    let det = detect(&vec![code("src/api/v1/handler.rs")], &vec![], &rules).unwrap();
    assert_eq!(det.rule, DetectionRule::Pattern);
    assert_eq!(det.expected_docs, vec![s("specs/ARCHITECTURE.md")]);
    let nested = DocRules {
        mappings: vec![DocMapping { code: s("src/**/*.rs"), doc: s("docs/API.md") }],
        reference_patterns: vec![],
    };
    let det = detect(&vec![code("src/api/v1/handler.rs")], &vec![], &nested).unwrap();
    assert_eq!(det.rule, DetectionRule::Config);
}

#[test]
fn default_extension_example() {
    let det = detect(&vec![code("src/util.rs")], &vec![], &no_rules()).unwrap();
    assert_eq!(det.rule, DetectionRule::Pattern);
    assert_eq!(det.expected_docs, vec![s("specs/ARCHITECTURE.md")]);
}

#[test]
fn touched_doc_resolves_default_debt() {
    let changed = vec![s("src/util.rs"), s("specs/ARCHITECTURE.md")];
    let (c, d) = classify(&changed, &vec![s("md")]);
    let files: Vec<CodeFile> = c.iter().map(|p| code(p)).collect();
    assert!(detect(&files, &d, &no_rules()).is_none());
}

#[test]
fn touched_readme_resolves_debt() {
    let changed = vec![s("web/app.ts"), s("docs/README.md")];
    let (c, d) = classify(&changed, &vec![s("md")]);
    assert_eq!(c, vec![s("web/app.ts")]);
    let files: Vec<CodeFile> = c.iter().map(|p| code(p)).collect();
    assert!(detect(&files, &d, &no_rules()).is_none());
}

#[test]
fn reference_pattern_fires_on_content() {
    let rules = DocRules {
        mappings: vec![],
        reference_patterns: vec![
            ReferencePattern { pattern: s(r"SCHEMA-\d+"), doc: s("docs/SCHEMA.md") },
            ReferencePattern { pattern: s("("), doc: s("docs/BROKEN.md") },
        ],
    };
    let files = vec![code_with("db/migrate.sql", "-- see SCHEMA-001\n"), code("db/other.sql")];
    let det = detect(&files, &vec![], &rules).unwrap();
    assert_eq!(det.rule, DetectionRule::Reference);
    assert_eq!(det.expected_docs, vec![s("docs/SCHEMA.md")]);
}

#[test]
fn unreadable_content_is_skipped() {
    let rules = DocRules {
        mappings: vec![],
        reference_patterns: vec![ReferencePattern { pattern: s("x"), doc: s("docs/X.md") }],
    };
    assert!(detect(&vec![code("data.bin")], &vec![], &rules).is_none());
}

#[test]
fn invalid_glob_matches_nothing() {
    let rules = DocRules {
        mappings: vec![DocMapping { code: s("src/[.rs"), doc: s("docs/A.md") }],
        reference_patterns: vec![],
    };
    assert!(detect(&vec![code("src/[.rs"), code("Makefile")], &vec![], &rules).is_some_and(|d| d.rule
        == DetectionRule::Pattern
        && d.expected_docs == vec![s("specs/ARCHITECTURE.md")]));
}

#[test]
fn no_rule_no_debt() {
    assert!(detect(&vec![code("main.go"), code("Makefile")], &vec![], &no_rules()).is_none());
    assert!(detect(&vec![], &vec![], &no_rules()).is_none());
}

#[test]
fn order_does_not_matter() {
    let m1 = DocMapping { code: s("src/api/*"), doc: s("docs/API.md") };
    let m2 = DocMapping { code: s("ui/*.ts"), doc: s("docs/WEB.md") };
    let r1 = DocRules { mappings: vec![m1.clone(), m2.clone()], reference_patterns: vec![] };
    let r2 = DocRules { mappings: vec![m2, m1], reference_patterns: vec![] };
    let f1 = vec![code("src/api/a.rs"), code("ui/b.ts"), code("src/api/a.rs")];
    let f2 = vec![code("ui/b.ts"), code("src/api/a.rs")];
    let d1 = detect(&f1, &vec![s("docs/README.md")], &r1).unwrap();
    let d2 = detect(&f2, &vec![s("docs/README.md")], &r2).unwrap();
    assert_eq!(d1.rule, d2.rule);
    assert_eq!(sorted(d1.expected_docs.clone()), sorted(d2.expected_docs));
    assert_eq!(
        sorted(d1.expected_docs),
        vec![s("docs/API.md"), s("docs/WEB.md"), s("specs/ARCHITECTURE.md")]
    );
}

#[test]
fn rule_names() {
    assert_eq!(DetectionRule::Config.as_str(), "config");
    assert_eq!(DetectionRule::Reference.as_str(), "reference");
    assert_eq!(DetectionRule::Pattern.as_str(), "pattern");
}
