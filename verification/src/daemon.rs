//! The daemon as seen from outside: its PID file, and how healthy it is.

use vstd::prelude::*;
use vstd::string::*;

use crate::decimal::{
    decimal, decimal_text, is_digit, law_decimal_reads_back, lemma_decimal, parse_uint,
    parsed_uint, IntError,
};
use crate::paths::{join_path, joined_path};
use crate::platform::{Liveness, Signal};
use crate::text::{
    is_white_space, law_trimmed_takes_off_the_ends, lemma_trimmed_fixed, trim, trimmed,
};

pub use crate::status::{
    compute_health, get_daemon_status, DaemonStatus, HealthIndicator,
};

verus! {

// ---------------------------------------------------------------------------
// The PID file
// ---------------------------------------------------------------------------

/// The daemon's PID file.
pub fn pid_file_path(data_dir: &str) -> (r: String)
    ensures
        r@ == joined_path(data_dir@, "blackbox.pid"@),
{
    join_path(data_dir, "blackbox.pid")
}

/// The daemon's database.
pub fn db_file_path(data_dir: &str) -> (r: String)
    ensures
        r@ == joined_path(data_dir@, "blackbox.db"@),
{
    join_path(data_dir, "blackbox.db")
}

/// Reads the process that a PID file names. White space round the number does not matter.
pub fn parse_pid(contents: &str) -> (r: Result<u32, IntError>)
    ensures
        match r {
            Ok(pid) => parsed_uint(trimmed(contents@), u32::MAX as nat) == Ok::<nat, IntError>(
                pid as nat,
            ),
            Err(e) => parsed_uint(trimmed(contents@), u32::MAX as nat) == Err::<nat, IntError>(e),
        },
{
    let number = trim(contents);
    match parse_uint(number.as_str(), u32::MAX as u64) {
        Ok(n) => Ok(n as u32),
        Err(e) => Err(e),
    }
}

/// What follows from a look at the process that the PID file names.
#[derive(Debug, Clone, Copy, PartialEq, Eq, Structural)]
pub struct RunningCheck {
    /// The running daemon.
    pub pid: Option<u32>,
    /// Whether the PID file is stale and has to go.
    pub remove_pid_file: bool,
}

/// Whether the daemon runs, from the process that the PID file names, if there is one, and
/// whether that process is alive. The file of a dead process is stale; where nothing can
/// be told of the process, it counts as running and the file stays.
pub fn is_daemon_running(pid: Option<u32>, liveness: Liveness) -> (r: RunningCheck)
    ensures
        look_tells(pid, liveness, r),
        r.pid == if liveness == Liveness::NotRunning {
            None
        } else {
            pid
        },
        r.remove_pid_file <==> pid is Some && liveness == Liveness::NotRunning,
{
    match (pid, liveness) {
        (None, _) => RunningCheck { pid: None, remove_pid_file: false },
        (Some(_), Liveness::NotRunning) => RunningCheck { pid: None, remove_pid_file: true },
        (Some(p), _) => RunningCheck { pid: Some(p), remove_pid_file: false },
    }
}

/// The text "... (PID n)".
pub open spec fn with_pid(before: Seq<char>, pid: u32) -> Seq<char> {
    before + " (PID "@ + decimal(pid as nat) + ")"@
}

fn pid_message(before: &str, pid: u32) -> (s: String)
    ensures
        s@ == with_pid(before@, pid),
{
    let mut s = before.to_owned();
    s.append(" (PID ");
    s.append(decimal_text(pid as u64).as_str());
    s.append(")");
    s
}

/// Whether a daemon may be started: there is none yet.
pub fn start_daemon(running: Option<u32>) -> (r: Result<(), String>)
    ensures
        match running {
            None => r is Ok,
            Some(pid) => r matches Err(e) && e@ == with_pid("Daemon already running"@, pid),
        },
{
    match running {
        None => Ok(()),
        Some(pid) => Err(pid_message("Daemon already running", pid)),
    }
}

/// What to do to a daemon, in this order. If the signal cannot be sent, nothing else is
/// done.
#[derive(Debug)]
pub struct LifecyclePlan {
    pub signal: Option<(u32, Signal)>,
    pub remove_pid_file: bool,
    pub message: String,
}

/// How the daemon is stopped.
pub fn stop_daemon(running: Option<u32>) -> (r: LifecyclePlan)
    ensures
        stops(running, r),
        match running {
            Some(pid) => {
                &&& r.signal == Some((pid, Signal::Terminate))
                &&& r.remove_pid_file
                &&& r.message@ == with_pid("Daemon stopped"@, pid)
            },
            None => {
                &&& r.signal is None
                &&& !r.remove_pid_file
                &&& r.message@ == "Daemon not running"@
            },
        },
{
    match running {
        Some(pid) => LifecyclePlan {
            signal: Some((pid, Signal::Terminate)),
            remove_pid_file: true,
            message: pid_message("Daemon stopped", pid),
        },
        None => LifecyclePlan {
            signal: None,
            remove_pid_file: false,
            message: "Daemon not running".to_owned(),
        },
    }
}

/// How the daemon is told to reload its settings.
pub fn reload_daemon(running: Option<u32>) -> (r: LifecyclePlan)
    ensures
        reloads(running, r),
        match running {
            Some(pid) => {
                &&& r.signal == Some((pid, Signal::Reload))
                &&& r.message@ == with_pid("Reloading config"@, pid)
            },
            None => r.signal is None && r.message@ == "Daemon not running"@,
        },
        !r.remove_pid_file,
{
    match running {
        Some(pid) => LifecyclePlan {
            signal: Some((pid, Signal::Reload)),
            remove_pid_file: false,
            message: pid_message("Reloading config", pid),
        },
        None => LifecyclePlan {
            signal: None,
            remove_pid_file: false,
            message: "Daemon not running".to_owned(),
        },
    }
}

/// The PID file that a running daemon holds: where it stands, and what is in it.
#[derive(Debug)]
pub struct PidGuard {
    pub path: String,
    pub contents: String,
}

impl PidGuard {
    /// The PID file of this process.
    pub fn new(data_dir: &str, pid: u32) -> (r: PidGuard)
        ensures
            r.path@ == joined_path(data_dir@, "blackbox.pid"@),
            r.contents@ == decimal(pid as nat),
    {
        PidGuard { path: pid_file_path(data_dir), contents: decimal_text(pid as u64) }
    }
}

/// A PID file is read back as the process that wrote it.
pub proof fn law_pid_file_reads_back(pid: u32)
    ensures
        parsed_uint(trimmed(decimal(pid as nat)), u32::MAX as nat) == Ok::<nat, IntError>(
            pid as nat,
        ),
{
    let s = decimal(pid as nat);
    lemma_decimal(pid as nat);
    assert(is_digit(s[0]) && is_digit(s[s.len() - 1]));
    lemma_trimmed_fixed(s);
    law_decimal_reads_back(pid as nat, u32::MAX as nat);
}

/// What a look at the process of the PID file comes to.
pub open spec fn look_tells(pid: Option<u32>, liveness: Liveness, check: RunningCheck) -> bool {
    &&& check.pid == if liveness == Liveness::NotRunning {
        None
    } else {
        pid
    }
    &&& check.remove_pid_file <==> pid is Some && liveness == Liveness::NotRunning
}

/// A PID file goes only where its process is known not to run, and then no daemon is taken
/// to run; a process that runs, or of which nothing can be told, keeps its file and counts
/// as the daemon. Without a file there is no daemon.
pub proof fn law_only_dead_processes_lose_their_file(
    pid: Option<u32>,
    liveness: Liveness,
    check: RunningCheck,
)
    requires
        look_tells(pid, liveness, check),
    ensures
        check.remove_pid_file ==> liveness is NotRunning && pid is Some && check.pid is None,
        pid is Some ==> (check.remove_pid_file <==> check.pid is None),
        pid is Some && (liveness is Running || liveness is Unsupported) ==> check.pid == pid
            && !check.remove_pid_file,
        pid is None ==> check.pid is None && !check.remove_pid_file,
{
}

/// How a daemon is stopped.
pub open spec fn stops(running: Option<u32>, plan: LifecyclePlan) -> bool {
    match running {
        Some(pid) => {
            &&& plan.signal == Some((pid, Signal::Terminate))
            &&& plan.remove_pid_file
            &&& plan.message@ == with_pid("Daemon stopped"@, pid)
        },
        None => {
            &&& plan.signal is None
            &&& !plan.remove_pid_file
            &&& plan.message@ == "Daemon not running"@
        },
    }
}

/// How a daemon is told to reload.
pub open spec fn reloads(running: Option<u32>, plan: LifecyclePlan) -> bool {
    &&& !plan.remove_pid_file
    &&& match running {
        Some(pid) => {
            &&& plan.signal == Some((pid, Signal::Reload))
            &&& plan.message@ == with_pid("Reloading config"@, pid)
        },
        None => plan.signal is None && plan.message@ == "Daemon not running"@,
    }
}

/// Stopping and reloading reach the same process, the daemon that runs, with different
/// signals; only stopping takes the PID file away; and where no daemon runs, both do
/// nothing and say the same.
pub proof fn law_stop_and_reload_reach_the_daemon(
    running: Option<u32>,
    stop: LifecyclePlan,
    reload: LifecyclePlan,
)
    requires
        stops(running, stop),
        reloads(running, reload),
    ensures
        running matches Some(pid) ==> {
            &&& stop.signal is Some && (stop.signal->0).0 == pid && (stop.signal->0).1 is Terminate
            &&& reload.signal is Some && (reload.signal->0).0 == pid && (reload.signal->0).1 is Reload
        },
        stop.remove_pid_file <==> running is Some,
        !reload.remove_pid_file,
        running is None ==> stop.signal is None && reload.signal is None && stop.message@
            == reload.message@,
{
}

/// A PID file may end in a line feed or have other white space around its number.
pub proof fn law_white_space_around_a_pid(before: Seq<char>, pid: u32, after: Seq<char>)
    requires
        forall|i: int| 0 <= i < before.len() ==> is_white_space(#[trigger] before[i]),
        forall|i: int| 0 <= i < after.len() ==> is_white_space(#[trigger] after[i]),
    ensures
        parsed_uint(trimmed(before + decimal(pid as nat) + after), u32::MAX as nat) == Ok::<
            nat,
            IntError,
        >(pid as nat),
{
    let number = decimal(pid as nat);
    let whole = before + number + after;
    lemma_decimal(pid as nat);
    assert(is_digit(number[0]) && is_digit(number[number.len() - 1]));
    let cuts = law_trimmed_takes_off_the_ends(whole);
    let from = before.len() as int;
    let to = (before.len() + number.len()) as int;
    assert(whole[from] == number[0] && !is_white_space(whole[from]));
    assert(whole[to - 1] == number[number.len() - 1] && !is_white_space(whole[to - 1]));
    assert(cuts.0 <= from && to <= cuts.1);
    assert(cuts.0 == from) by {
        if cuts.0 < from {
            assert(whole[cuts.0] == before[cuts.0]);
        }
    }
    assert(cuts.1 == to) by {
        if cuts.1 > to {
            assert(whole[cuts.1 - 1] == after[cuts.1 - 1 - to]);
        }
    }
    assert(whole.subrange(from, to) =~= number);
    law_decimal_reads_back(pid as nat, u32::MAX as nat);
}

} // verus!
