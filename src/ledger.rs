//! The debt ledger: outstanding documentation debt, at most one record per
//! commit, oldest first.

use vstd::prelude::*;
use crate::detect::{
    detect, distinct_docs, expected_doc, has_debt, has_doc, primary_rule, CodeFile, DetectionRule,
    DocRules,
};

verus! {

/// Debt recorded for one commit.
#[derive(Clone, Debug)]
pub struct DebtRecord {
    pub commit_sha: String,
    /// First line of the commit message, for display.
    pub commit_message: Option<String>,
    /// The commit's changed code files, in the order reported.
    pub code_files: Vec<String>,
    /// Docs the commit should have updated and did not, each once.
    pub expected_docs: Vec<String>,
    pub detection_rule: DetectionRule,
}

/// What became of a record handed to the ledger.
#[derive(Clone, Copy, Debug, PartialEq, Eq, Structural)]
pub enum AddOutcome {
    /// The record is now the ledger's newest.
    Added,
    /// The ledger already holds a record for the commit; nothing changed.
    AlreadyRecorded,
    /// The record expects no doc, so it was not stored.
    NothingExpected,
}

/// What the post-commit step did for a commit.
#[derive(Clone, Copy, Debug, PartialEq, Eq, Structural)]
pub enum RecordOutcome {
    /// Debt for the commit was recorded earlier.
    AlreadyRecorded,
    /// The commit changed no code file.
    NoCodeFiles,
    /// Every doc the rules require was touched, or none is required.
    NoDebt,
    /// A new record was stored.
    Recorded,
}

/// Some record of `records` is for commit `sha`.
pub open spec fn has_commit(records: Seq<DebtRecord>, sha: Seq<char>) -> bool {
    exists|i: int| 0 <= i < records.len() && #[trigger] records[i].commit_sha@ == sha
}

/// No two records share a commit.
pub open spec fn unique_commits(records: Seq<DebtRecord>) -> bool {
    forall|a: int, b: int|
        0 <= a < b < records.len() ==> #[trigger] records[a].commit_sha@ != #[trigger] records[b].commit_sha@
}

/// The ledger's invariant: one record per commit, none that expects nothing.
pub open spec fn ledger_wf(records: Seq<DebtRecord>) -> bool {
    &&& unique_commits(records)
    &&& forall|i: int| 0 <= i < records.len() ==> #[trigger] records[i].expected_docs@.len() > 0
}

/// `rec` is the record that detection gives for the commit.
pub open spec fn record_describes(
    rec: DebtRecord,
    sha: Seq<char>,
    message: Option<String>,
    files: Seq<CodeFile>,
    doc_files: Seq<String>,
    rules: DocRules,
) -> bool {
    &&& rec.commit_sha@ == sha
    &&& rec.commit_message == message
    &&& rec.code_files@ == files.map_values(|f: CodeFile| f.path)
    &&& distinct_docs(rec.expected_docs@)
    &&& forall|d: Seq<char>|
        #[trigger] has_doc(rec.expected_docs@, d) <==> expected_doc(files, doc_files, rules, d)
    &&& rec.detection_rule == primary_rule(files, rules)
}

/// One post-commit step for a commit takes the ledger from `before` to
/// `after`: a new record is appended exactly when the ledger has none for
/// the commit, the commit changed code, and some doc remains expected.
pub open spec fn record_step(
    before: Seq<DebtRecord>,
    after: Seq<DebtRecord>,
    sha: Seq<char>,
    message: Option<String>,
    files: Seq<CodeFile>,
    doc_files: Seq<String>,
    rules: DocRules,
) -> bool {
    if has_commit(before, sha) || files.len() == 0 || !has_debt(files, doc_files, rules) {
        after == before
    } else {
        &&& after.len() == before.len() + 1
        &&& after.drop_last() == before
        &&& record_describes(after.last(), sha, message, files, doc_files, rules)
    }
}

/// The ledger of outstanding debt, oldest record first.
pub struct DebtLedger {
    records: Vec<DebtRecord>,
}

impl View for DebtLedger {
    type V = Seq<DebtRecord>;

    closed spec fn view(&self) -> Seq<DebtRecord> {
        self.records@
    }
}

impl DebtLedger {
    /// An empty ledger.
    pub fn new() -> (r: DebtLedger)
        ensures
            r@ == Seq::<DebtRecord>::empty(),
            ledger_wf(r@),
    {
        DebtLedger { records: Vec::new() }
    }

    /// Whether the ledger holds a record for commit `commit_sha`.
    pub fn has_record(&self, commit_sha: &str) -> (r: bool)
        ensures
            r == has_commit(self@, commit_sha@),
    {
        let sha = String::from_str(commit_sha);
        let mut i: usize = 0;
        while i < self.records.len()
            invariant
                i <= self@.len(),
                sha@ == commit_sha@,
                self@ == self.records@,
                forall|k: int| 0 <= k < i ==> #[trigger] self@[k].commit_sha@ != commit_sha@,
            decreases self@.len() - i,
        {
            if self.records[i].commit_sha == sha {
                return true;
            }
            i = i + 1;
        }
        false
    }

    /// Stores `rec` as the newest record, unless the ledger already holds one
    /// for its commit (a duplicate counts as already recorded) or it expects
    /// no doc.
    pub fn add_record(&mut self, rec: DebtRecord) -> (r: AddOutcome)
        requires
            ledger_wf(old(self)@),
        ensures
            ledger_wf(final(self)@),
            has_commit(old(self)@, rec.commit_sha@) ==> r == AddOutcome::AlreadyRecorded && final(self)@ == old(self)@,
            !has_commit(old(self)@, rec.commit_sha@) && rec.expected_docs@.len() == 0 ==> r
                == AddOutcome::NothingExpected && final(self)@ == old(self)@,
            !has_commit(old(self)@, rec.commit_sha@) && rec.expected_docs@.len() > 0 ==> r == AddOutcome::Added
                && final(self)@ == old(self)@.push(rec),
    {
        if self.has_record(rec.commit_sha.as_str()) {
            return AddOutcome::AlreadyRecorded;
        }
        if rec.expected_docs.len() == 0 {
            return AddOutcome::NothingExpected;
        }
        let ghost before = self@;
        self.records.push(rec);
        assert forall|a: int, b: int|
            0 <= a < b < self@.len() implies #[trigger] self@[a].commit_sha@ != #[trigger] self@[b].commit_sha@ by {
            if b == before.len() {
                assert(before[a].commit_sha@ != rec.commit_sha@);
            } else {
                assert(self@[a] == before[a] && self@[b] == before[b]);
            }
        }
        assert forall|i: int| 0 <= i < self@.len() implies #[trigger] self@[i].expected_docs@.len() > 0 by {
            if i < before.len() {
                assert(self@[i] == before[i]);
            }
        }
        AddOutcome::Added
    }

    /// All stored records, oldest first.
    pub fn unresolved_records(&self) -> (r: &Vec<DebtRecord>)
        ensures
            r@ == self@,
    {
        &self.records
    }

    /// The post-commit step for one commit: unless the ledger already holds
    /// a record for it or it changed no code file, runs detection over the
    /// code files (with their contents) against the docs it touched, and
    /// stores a record when some doc remains expected.
    pub fn record_commit(
        &mut self,
        commit_sha: &str,
        commit_message: Option<String>,
        code_files: &Vec<CodeFile>,
        doc_files: &Vec<String>,
        rules: &DocRules,
    ) -> (r: RecordOutcome)
        requires
            ledger_wf(old(self)@),
        ensures
            ledger_wf(final(self)@),
            record_step(old(self)@, final(self)@, commit_sha@, commit_message, code_files@, doc_files@, *rules),
            has_commit(old(self)@, commit_sha@) ==> r == RecordOutcome::AlreadyRecorded,
            !has_commit(old(self)@, commit_sha@) && code_files@.len() == 0 ==> r == RecordOutcome::NoCodeFiles,
            !has_commit(old(self)@, commit_sha@) && code_files@.len() > 0 ==> r == (if has_debt(
                code_files@,
                doc_files@,
                *rules,
            ) {
                RecordOutcome::Recorded
            } else {
                RecordOutcome::NoDebt
            }),
    {
        if self.has_record(commit_sha) {
            return RecordOutcome::AlreadyRecorded;
        }
        if code_files.len() == 0 {
            return RecordOutcome::NoCodeFiles;
        }
        match detect(code_files, doc_files, rules) {
            None => RecordOutcome::NoDebt,
            Some(det) => {
                let mut paths: Vec<String> = Vec::new();
                let mut i: usize = 0;
                while i < code_files.len()
                    invariant
                        i <= code_files@.len(),
                        paths@ == code_files@.subrange(0, i as int).map_values(|f: CodeFile| f.path),
                    decreases code_files@.len() - i,
                {
                    paths.push(code_files[i].path.clone());
                    assert(code_files@.subrange(0, i as int + 1).map_values(|f: CodeFile| f.path)
                        =~= paths@);
                    i = i + 1;
                }
                assert(code_files@.subrange(0, i as int) == code_files@);
                let ghost expected = det.expected_docs@;
                proof {
                    let d = choose|d: Seq<char>| #[trigger] expected_doc(code_files@, doc_files@, *rules, d);
                    assert(has_doc(expected, d));
                }
                let rec = DebtRecord {
                    commit_sha: String::from_str(commit_sha),
                    commit_message,
                    code_files: paths,
                    expected_docs: det.expected_docs,
                    detection_rule: det.rule,
                };
                let ghost before = self@;
                let ghost added = rec;
                self.add_record(rec);
                assert(self@.drop_last() =~= before);
                assert(self@.last() == added);
                RecordOutcome::Recorded
            },
        }
    }
}

/// Recording is idempotent: a second post-commit step for the same commit,
/// with the same inputs, leaves the ledger as the first left it, and the
/// ledger then holds at most one record for the commit, and exactly one
/// when the commit left debt.
pub proof fn law_record_idempotent(
    l0: Seq<DebtRecord>,
    l1: Seq<DebtRecord>,
    l2: Seq<DebtRecord>,
    sha: Seq<char>,
    message: Option<String>,
    files: Seq<CodeFile>,
    doc_files: Seq<String>,
    rules: DocRules,
)
    requires
        ledger_wf(l0),
        record_step(l0, l1, sha, message, files, doc_files, rules),
        record_step(l1, l2, sha, message, files, doc_files, rules),
    ensures
        l2 == l1,
        forall|a: int, b: int|
            0 <= a < l2.len() && 0 <= b < l2.len() && l2[a].commit_sha@ == sha && l2[b].commit_sha@ == sha
                ==> a == b,
        files.len() > 0 && has_debt(files, doc_files, rules) ==> has_commit(l2, sha),
{
    if !(has_commit(l0, sha) || files.len() == 0 || !has_debt(files, doc_files, rules)) {
        assert(l1[l0.len() as int].commit_sha@ == sha);
        assert(has_commit(l1, sha));
        assert forall|a: int, b: int|
            0 <= a < l2.len() && 0 <= b < l2.len() && l2[a].commit_sha@ == sha && l2[b].commit_sha@ == sha
                implies a == b by {
            if a < l0.len() {
                assert(l2[a] == l0[a]);
                assert(has_commit(l0, sha));
            }
            if b < l0.len() {
                assert(l2[b] == l0[b]);
                assert(has_commit(l0, sha));
            }
        }
    } else {
        assert forall|a: int, b: int|
            0 <= a < l2.len() && 0 <= b < l2.len() && l2[a].commit_sha@ == sha && l2[b].commit_sha@ == sha
                implies a == b by {
            if a < b {
                assert(l0[a].commit_sha@ != l0[b].commit_sha@);
            } else if b < a {
                assert(l0[b].commit_sha@ != l0[a].commit_sha@);
            }
        }
    }
}

} // verus!
