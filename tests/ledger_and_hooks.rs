use docguard::detect::{CodeFile, DetectionRule, DocMapping, DocRules};
use docguard::hook::{check_decision, render_report, short_sha};
use docguard::ledger::{AddOutcome, DebtLedger, DebtRecord, RecordOutcome};
use docguard::status::{get_memory_counts, humanize_elapsed, status_exit_code};
use docguard::text::{decimal, join};

fn s(x: &str) -> String {
    x.to_string()
}

fn code(path: &str) -> CodeFile {
    CodeFile { path: s(path), content: None }
}

fn no_rules() -> DocRules {
    DocRules { mappings: vec![], reference_patterns: vec![] }
}

fn record(sha: &str, msg: Option<&str>, docs: &[&str]) -> DebtRecord {
    DebtRecord {
        commit_sha: s(sha),
        commit_message: msg.map(s),
        code_files: vec![s("src/a.rs")],
        expected_docs: docs.iter().map(|d| s(d)).collect(),
        detection_rule: DetectionRule::Pattern,
    }
}

#[test]
fn recording_twice_keeps_one_entry() {
    let mut ledger = DebtLedger::new();
    let files = vec![code("src/util.rs")];
    let first = ledger.record_commit("abc123", Some(s("work")), &files, &vec![], &no_rules());
    let second = ledger.record_commit("abc123", Some(s("work")), &files, &vec![], &no_rules());
    assert_eq!(first, RecordOutcome::Recorded);
    assert_eq!(second, RecordOutcome::AlreadyRecorded);
    assert_eq!(ledger.unresolved_records().len(), 1);
    assert!(ledger.has_record("abc123"));
    assert!(!ledger.has_record("abc12"));
}

#[test]
fn stored_record_contents() {
    let mut ledger = DebtLedger::new();
    let rules = DocRules {
        mappings: vec![DocMapping { code: s("src/api/*.rs"), doc: s("docs/API.md") }],
        reference_patterns: vec![],
    };
    let files = vec![code("src/api/handler.rs")];
    let out = ledger.record_commit("f00d", Some(s("api")), &files, &vec![s("specs/ARCHITECTURE.md")], &rules);
    assert_eq!(out, RecordOutcome::Recorded);
    let rec = &ledger.unresolved_records()[0];
    assert_eq!(rec.commit_sha, "f00d");
    assert_eq!(rec.commit_message, Some(s("api")));
    assert_eq!(rec.code_files, vec![s("src/api/handler.rs")]);
    assert_eq!(rec.expected_docs, vec![s("docs/API.md")]);
    assert_eq!(rec.detection_rule, DetectionRule::Config);
}

#[test]
fn no_record_without_debt_or_code() {
    let mut ledger = DebtLedger::new();
    let files = vec![code("src/util.rs")];
    assert_eq!(
        ledger.record_commit("a1", None, &files, &vec![s("specs/ARCHITECTURE.md")], &no_rules()),
        RecordOutcome::NoDebt
    );
    assert_eq!(ledger.record_commit("a2", None, &vec![], &vec![s("README.md")], &no_rules()), RecordOutcome::NoCodeFiles);
    assert_eq!(ledger.unresolved_records().len(), 0);
}

#[test]
fn add_record_outcomes() {
    let mut ledger = DebtLedger::new();
    assert_eq!(ledger.add_record(record("1111111", None, &[])), AddOutcome::NothingExpected);
    assert_eq!(ledger.add_record(record("1111111", None, &["a.md"])), AddOutcome::Added);
    assert_eq!(ledger.add_record(record("2222222", None, &["b.md"])), AddOutcome::Added);
    assert_eq!(ledger.add_record(record("1111111", None, &["c.md"])), AddOutcome::AlreadyRecorded);
    let shas: Vec<&str> = ledger.unresolved_records().iter().map(|r| r.commit_sha.as_str()).collect();
    assert_eq!(shas, vec!["1111111", "2222222"]);
}

#[test]
fn push_allowed_without_debt() {
    let d = check_decision(&vec![], true);
    assert!(d.allow);
    assert!(d.report.is_none());
}

#[test]
fn push_blocked_or_warned() {
    let records = vec![
        record("0123456789abcdef", Some("add api"), &["docs/API.md", "specs/ARCHITECTURE.md"]),
        record("abc", None, &["docs/README.md"]),
    ];
    let blocked = check_decision(&records, true);
    assert!(!blocked.allow);
    let warned = check_decision(&records, false);
    assert!(warned.allow);
    let body = "⚠️  Doc debt detected! 2 commits have unupdated docs:\n\n  0123456 add api\n    Expected docs: docs/API.md, specs/ARCHITECTURE.md\n\n  abc (no message)\n    Expected docs: docs/README.md\n\nRun 'sqrl status' for details.\n";
    assert_eq!(
        blocked.report.unwrap(),
        format!("{}Push blocked. Update docs or use 'git push --no-verify' to bypass.\n", body)
    );
    assert_eq!(warned.report.unwrap(), format!("{}Warning only. Push will continue.\n", body));
    assert_eq!(render_report(&records, false), format!("{}Warning only. Push will continue.\n", body));
}

#[test]
fn numerals_and_joins() {
    assert_eq!(decimal(0), "0");
    assert_eq!(decimal(7), "7");
    assert_eq!(decimal(1234), "1234");
    assert_eq!(decimal(u64::MAX), u64::MAX.to_string());
    assert_eq!(join(&vec![], ", "), "");
    assert_eq!(join(&vec![s("a")], ", "), "a");
    assert_eq!(join(&vec![s("a"), s("b"), s("c")], ", "), "a, b, c");
    assert_eq!(short_sha("0123456789"), "0123456");
    assert_eq!(short_sha("abc"), "abc");
}

#[test]
fn elapsed_in_words() {
    assert_eq!(humanize_elapsed(0), "just now");
    assert_eq!(humanize_elapsed(59), "just now");
    assert_eq!(humanize_elapsed(60), "1 minute ago");
    assert_eq!(humanize_elapsed(150), "2 minutes ago");
    assert_eq!(humanize_elapsed(3600), "1 hour ago");
    assert_eq!(humanize_elapsed(86399), "23 hours ago");
    assert_eq!(humanize_elapsed(86400), "1 day ago");
    assert_eq!(humanize_elapsed(3 * 86400 + 5), "3 days ago");
}

#[test]
fn memory_counts_and_exit_codes() {
    assert_eq!(get_memory_counts(Some(4), None), (4, 0));
    assert_eq!(get_memory_counts(None, Some(2)), (0, 2));
    assert_eq!(status_exit_code(false, true), 1);
    assert_eq!(status_exit_code(true, false), 2);
    assert_eq!(status_exit_code(true, true), 0);
}
