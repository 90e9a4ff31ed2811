//! What the status command computes: memory counts, how long ago the store
//! last changed, and the exit code.

use vstd::prelude::*;
use crate::text::{decimal, decimal_of};

verus! {

/// Exit code: the project is set up and the daemon runs.
pub const EXIT_OK: i32 = 0;

/// Exit code: the project has no marker directory.
pub const EXIT_NOT_INITIALIZED: i32 = 1;

/// Exit code: the daemon is not running.
pub const EXIT_DAEMON_NOT_RUNNING: i32 = 2;

/// `n` units ago, with the unit in the plural unless `n` is one.
pub open spec fn ago_text(n: nat, unit: Seq<char>) -> Seq<char> {
    decimal_of(n) + " "@ + unit + (if n == 1 {
        ""@
    } else {
        "s"@
    }) + " ago"@
}

/// How long ago, in words, for an age in seconds: under a minute is "just
/// now"; then whole minutes, hours or days, rounded down.
pub open spec fn elapsed_text(secs: nat) -> Seq<char> {
    if secs < 60 {
        "just now"@
    } else if secs < 3600 {
        ago_text(secs / 60, "minute"@)
    } else if secs < 86400 {
        ago_text(secs / 3600, "hour"@)
    } else {
        ago_text(secs / 86400, "day"@)
    }
}

fn ago(n: u64, unit: &str) -> (r: String)
    ensures
        r@ == ago_text(n as nat, unit@),
{
    let mut s = decimal(n);
    s.append(" ");
    s.append(unit);
    if n != 1 {
        s.append("s");
    }
    proof {
        reveal_strlit("");
    }
    s.append(" ago");
    assert(s@ =~= ago_text(n as nat, unit@));
    s
}

/// How long ago something happened, in words, given its age in seconds.
pub fn humanize_elapsed(secs: u64) -> (r: String)
    ensures
        r@ == elapsed_text(secs as nat),
{
    if secs < 60 {
        String::from_str("just now")
    } else if secs < 3600 {
        ago(secs / 60, "minute")
    } else if secs < 86400 {
        ago(secs / 3600, "hour")
    } else {
        ago(secs / 86400, "day")
    }
}

/// The project memory count and the user style count, each zero where it
/// could not be read.
pub fn get_memory_counts(project: Option<usize>, user: Option<usize>) -> (r: (usize, usize))
    ensures
        r.0 == match project {
            Some(n) => n,
            None => 0,
        },
        r.1 == match user {
            Some(n) => n,
            None => 0,
        },
{
    let project_count = match project {
        Some(n) => n,
        None => 0,
    };
    let user_count = match user {
        Some(n) => n,
        None => 0,
    };
    (project_count, user_count)
}

/// The status command's exit code: not initialized before anything else,
/// then a stopped daemon, else success.
pub fn status_exit_code(initialized: bool, daemon_running: bool) -> (r: i32)
    ensures
        r == if !initialized {
            EXIT_NOT_INITIALIZED
        } else if !daemon_running {
            EXIT_DAEMON_NOT_RUNNING
        } else {
            EXIT_OK
        },
{
    if !initialized {
        EXIT_NOT_INITIALIZED
    } else if !daemon_running {
        EXIT_DAEMON_NOT_RUNNING
    } else {
        EXIT_OK
    }
}

} // verus!
