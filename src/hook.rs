//! The pre-push decision: the report of outstanding debt and whether the
//! push may go ahead.

use vstd::prelude::*;
use crate::ledger::DebtRecord;
use crate::text::{decimal, decimal_of, join, join_of};

verus! {

/// The commit message as shown, or a placeholder where there is none.
pub open spec fn message_text(m: Option<String>) -> Seq<char> {
    match m {
        Some(s) => s@,
        None => "(no message)"@,
    }
}

/// A commit id shortened to its first seven characters.
pub open spec fn short_sha_of(sha: Seq<char>) -> Seq<char> {
    if sha.len() <= 7 {
        sha
    } else {
        sha.subrange(0, 7)
    }
}

/// The lines that report one record.
pub open spec fn entry_text(r: DebtRecord) -> Seq<char> {
    "  "@ + short_sha_of(r.commit_sha@) + " "@ + message_text(r.commit_message) + "\n    Expected docs: "@
        + join_of(r.expected_docs@, ", "@) + "\n\n"@
}

/// The lines that report each record, oldest first.
pub open spec fn entries_text(rs: Seq<DebtRecord>) -> Seq<char>
    decreases rs.len(),
{
    if rs.len() == 0 {
        Seq::empty()
    } else {
        entries_text(rs.drop_last()) + entry_text(rs.last())
    }
}

/// The whole report for outstanding records, ending with what happens to
/// the push.
pub open spec fn report_text(rs: Seq<DebtRecord>, block: bool) -> Seq<char> {
    "⚠️  Doc debt detected! "@ + decimal_of(rs.len()) + " commits have unupdated docs:\n\n"@ + entries_text(rs)
        + "Run 'sqrl status' for details.\n"@ + if block {
        "Push blocked. Update docs or use 'git push --no-verify' to bypass.\n"@
    } else {
        "Warning only. Push will continue.\n"@
    }
}

/// Whether a push may go ahead, and the report to show.
#[derive(Clone, Debug)]
pub struct PushDecision {
    pub allow: bool,
    pub report: Option<String>,
}

/// A commit id shortened to its first seven characters.
pub fn short_sha(sha: &str) -> (r: String)
    ensures
        r@ == short_sha_of(sha@),
{
    let n = sha.unicode_len();
    if n <= 7 {
        String::from_str(sha)
    } else {
        String::from_str(sha.substring_char(0, 7))
    }
}

fn entry(r: &DebtRecord) -> (s: String)
    ensures
        s@ == entry_text(*r),
{
    let mut s = String::from_str("  ");
    s.append(short_sha(r.commit_sha.as_str()).as_str());
    s.append(" ");
    match &r.commit_message {
        Some(m) => s.append(m.as_str()),
        None => s.append("(no message)"),
    }
    s.append("\n    Expected docs: ");
    s.append(join(&r.expected_docs, ", ").as_str());
    s.append("\n\n");
    assert(s@ =~= entry_text(*r));
    s
}

/// The report shown before a push: a count of the outstanding records, two
/// lines for each (short commit id and message, then the expected docs) and
/// a closing line that says whether the push is blocked.
pub fn render_report(records: &Vec<DebtRecord>, block: bool) -> (r: String)
    ensures
        r@ == report_text(records@, block),
{
    let mut s = String::from_str("⚠️  Doc debt detected! ");
    s.append(decimal(records.len() as u64).as_str());
    s.append(" commits have unupdated docs:\n\n");
    let ghost head = s@;
    let mut i: usize = 0;
    while i < records.len()
        invariant
            i <= records@.len(),
            s@ == head + entries_text(records@.subrange(0, i as int)),
        decreases records@.len() - i,
    {
        let ghost prev = s@;
        assert(records@.subrange(0, i as int + 1).drop_last() =~= records@.subrange(0, i as int));
        s.append(entry(&records[i]).as_str());
        assert(s@ =~= head + entries_text(records@.subrange(0, i as int + 1)));
        i = i + 1;
    }
    assert(records@.subrange(0, i as int) =~= records@);
    s.append("Run 'sqrl status' for details.\n");
    if block {
        s.append("Push blocked. Update docs or use 'git push --no-verify' to bypass.\n");
    } else {
        s.append("Warning only. Push will continue.\n");
    }
    assert(s@ =~= report_text(records@, block));
    s
}

/// The pre-push decision over the outstanding records: with none the push
/// goes ahead silently; otherwise the report is shown and the push is
/// blocked exactly when `pre_push_block` is set.
pub fn check_decision(records: &Vec<DebtRecord>, pre_push_block: bool) -> (r: PushDecision)
    ensures
        records@.len() == 0 ==> r.allow && r.report is None,
        records@.len() > 0 ==> {
            &&& r.allow == !pre_push_block
            &&& r.report is Some
            &&& r.report->0@ == report_text(records@, pre_push_block)
        },
{
    if records.len() == 0 {
        return PushDecision { allow: true, report: None };
    }
    let report = render_report(records, pre_push_block);
    PushDecision { allow: !pre_push_block, report: Some(report) }
}

} // verus!
