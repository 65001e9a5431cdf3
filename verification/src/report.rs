//! How the daemon's status reads in a terminal.

use vstd::prelude::*;
use vstd::string::*;

use crate::decimal::{decimal, decimal_text, push_decimal};
use crate::status::{health_of, is_stalled, or_zero, DaemonStatus, HealthIndicator};
use crate::text::{concat, join, joined, texts};
use crate::time::Timestamp;

verus! {

/// How long the daemon has been up: hours and minutes, or minutes and seconds, or seconds.
pub open spec fn uptime_text(secs: nat) -> Seq<char> {
    let h = secs / 3600;
    let m = secs % 3600 / 60;
    let s = secs % 60;
    if h > 0 {
        decimal(h) + "h "@ + decimal(m) + "m"@
    } else if m > 0 {
        decimal(m) + "m "@ + decimal(s) + "s"@
    } else {
        decimal(s) + "s"@
    }
}

/// Tells how long the daemon has been up.
pub fn format_uptime(secs: u64) -> (r: String)
    ensures
        r@ == uptime_text(secs as nat),
{
    let h: u64 = secs / 3600;
    let m: u64 = secs % 3600 / 60;
    let s: u64 = secs % 60;
    if h > 0 {
        let mut r = decimal_text(h);
        r.append("h ");
        push_decimal(&mut r, m);
        r.append("m");
        r
    } else if m > 0 {
        let mut r = decimal_text(m);
        r.append("m ");
        push_decimal(&mut r, s);
        r.append("s");
        r
    } else {
        let mut r = decimal_text(s);
        r.append("s");
        r
    }
}

/// How long ago something was: hours and minutes in short, or minutes in words, or seconds
/// in short. What lies ahead was just now.
pub open spec fn ago_text(secs: int) -> Seq<char> {
    let total = if secs < 0 {
        0nat
    } else {
        secs as nat
    };
    let mins = total / 60;
    let hours = mins / 60;
    if hours > 0 {
        decimal(hours) + "h "@ + decimal(mins % 60) + "m"@
    } else if mins > 1 {
        decimal(mins) + " minutes"@
    } else if mins == 1 {
        decimal(mins) + " minute"@
    } else {
        decimal(total) + "s"@
    }
}

/// Tells how many seconds ago something was.
pub fn format_duration_ago(secs: i64) -> (r: String)
    ensures
        r@ == ago_text(secs as int),
{
    let total: u64 = if secs < 0 {
        0
    } else {
        secs as u64
    };
    let mins: u64 = total / 60;
    let hours: u64 = mins / 60;
    if hours > 0 {
        let mut r = decimal_text(hours);
        r.append("h ");
        push_decimal(&mut r, mins % 60);
        r.append("m");
        r
    } else if mins > 1 {
        concat(decimal_text(mins).as_str(), " minutes")
    } else if mins == 1 {
        concat(decimal_text(mins).as_str(), " minute")
    } else {
        concat(decimal_text(total).as_str(), "s")
    }
}

/// The colour of a line.
#[derive(Debug, Clone, Copy, PartialEq, Eq, Structural)]
pub enum Paint {
    Plain,
    Yellow,
    Red,
}

/// The status in words. Icon and label are bold and in the colour of the health.
#[derive(Debug)]
pub struct StatusReport {
    pub icon: String,
    pub label: String,
    pub health: HealthIndicator,
    pub lines: Vec<(String, Paint)>,
}

/// The icon of a health.
pub open spec fn icon_text(health: HealthIndicator) -> Seq<char> {
    match health {
        HealthIndicator::Green => "\u{2713}"@,
        HealthIndicator::Yellow => "\u{26a0}"@,
        HealthIndicator::Red => "\u{2717}"@,
    }
}

/// The health in words, with what to look into.
pub open spec fn label_text(status: DaemonStatus) -> Seq<char> {
    let watched = or_zero(status.repos_watched);
    let failed = or_zero(status.repos_failed_last_poll);
    match status.health {
        HealthIndicator::Green => "Running"@,
        HealthIndicator::Yellow => if !status.running {
            "Stopped"@
        } else if status.repos_failed_last_poll is None {
            "Running (metrics unknown — restart daemon to enable)"@
        } else if failed > 0 {
            "Running (poll failures)"@
        } else if watched == 0 {
            "Running (no repos discovered — check watch_dirs)"@
        } else {
            "Running (stale)"@
        },
        HealthIndicator::Red => if !status.running {
            "Stopped"@
        } else if or_zero(status.discovery_failed_last_poll) > 0 {
            "Running (watch_dirs unreadable)"@
        } else if watched > 0 && failed >= watched {
            "Running (all polls failing)"@
        } else {
            "Running (stalled)"@
        },
    }
}

fn value_or_zero(n: Option<u64>) -> (r: u64)
    ensures
        r == or_zero(n),
{
    match n {
        Some(v) => v,
        None => 0,
    }
}

/// Puts the health into words.
pub fn status_label(status: &DaemonStatus) -> (r: String)
    ensures
        r@ == label_text(*status),
{
    let watched: u64 = value_or_zero(status.repos_watched);
    let failed: u64 = value_or_zero(status.repos_failed_last_poll);
    match status.health {
        HealthIndicator::Green => "Running".to_owned(),
        HealthIndicator::Yellow => if !status.running {
            "Stopped".to_owned()
        } else if status.repos_failed_last_poll.is_none() {
            "Running (metrics unknown — restart daemon to enable)".to_owned()
        } else if failed > 0 {
            "Running (poll failures)".to_owned()
        } else if watched == 0 {
            "Running (no repos discovered — check watch_dirs)".to_owned()
        } else {
            "Running (stale)".to_owned()
        },
        HealthIndicator::Red => if !status.running {
            "Stopped".to_owned()
        } else if value_or_zero(status.discovery_failed_last_poll) > 0 {
            "Running (watch_dirs unreadable)".to_owned()
        } else if watched > 0 && failed >= watched {
            "Running (all polls failing)".to_owned()
        } else {
            "Running (stalled)".to_owned()
        },
    }
}

/// A list of samples behind a dash; nothing where there are none.
pub open spec fn sample_suffix(sample: Seq<Seq<char>>) -> Seq<char> {
    if sample.len() == 0 {
        seq![]
    } else {
        " — "@ + joined(sample, ", "@)
    }
}

fn suffix(sample: &Vec<String>) -> (r: String)
    ensures
        r@ == sample_suffix(texts(sample@)),
{
    if sample.len() == 0 {
        String::new()
    } else {
        concat(" — ", join(sample, ", ").as_str())
    }
}

/// The line about the process.
pub open spec fn pid_lines(status: DaemonStatus) -> Seq<(Seq<char>, Paint)> {
    match status.pid {
        Some(pid) => seq![("  PID:           "@ + decimal(pid as nat), Paint::Plain)],
        None => seq![],
    }
}

/// The line about how long it has been up.
pub open spec fn uptime_lines(status: DaemonStatus) -> Seq<(Seq<char>, Paint)> {
    match status.uptime_secs {
        Some(s) => seq![("  Uptime:        "@ + uptime_text(s as nat), Paint::Plain)],
        None => seq![],
    }
}

/// The line about the last poll.
pub open spec fn last_poll_text(status: DaemonStatus, now: Timestamp) -> Seq<char> {
    match status.last_poll_at {
        Some(t) => "  Last poll:     "@ + ago_text(now.secs_since(t)) + " ago"@,
        None => "  Last poll:     never"@,
    }
}

/// The line about the watched repositories.
pub open spec fn watched_text(status: DaemonStatus) -> Seq<char> {
    match status.repos_watched {
        Some(n) => "  Repos watched: "@ + decimal(n as nat),
        None => "  Repos watched: unknown"@,
    }
}

/// The line about repositories that failed. They are at least among as many.
pub open spec fn failure_lines(status: DaemonStatus) -> Seq<(Seq<char>, Paint)> {
    let failed = or_zero(status.repos_failed_last_poll);
    let watched = or_zero(status.repos_watched);
    let total = if watched < failed {
        failed
    } else {
        watched
    };
    if failed > 0 {
        seq![
            (
                "  Poll failures: "@ + decimal(failed as nat) + " of "@ + decimal(total as nat)
                    + sample_suffix(texts(status.failed_sample@)),
                Paint::Yellow,
            ),
        ]
    } else {
        seq![]
    }
}

/// The line about directories that could not be read.
pub open spec fn discovery_lines(status: DaemonStatus) -> Seq<(Seq<char>, Paint)> {
    let failed = or_zero(status.discovery_failed_last_poll);
    if failed > 0 {
        seq![
            (
                "  Discovery failures: "@ + decimal(failed as nat) + " watch_dir(s)"@
                    + sample_suffix(texts(status.discovery_failed_sample@)),
                Paint::Red,
            ),
        ]
    } else {
        seq![]
    }
}

/// The line about the database, whose size in kilobytes is written as `size_kb`.
pub open spec fn db_text(status: DaemonStatus, size_kb: Seq<char>) -> Seq<char> {
    match status.db_size_bytes {
        Some(_) => "  DB size:       "@ + size_kb + " KB"@,
        None => "  DB size:       no DB yet"@,
    }
}

/// The texts of lines, with their colours.
pub open spec fn painted(v: Seq<(String, Paint)>) -> Seq<(Seq<char>, Paint)> {
    v.map_values(|e: (String, Paint)| (e.0@, e.1))
}

fn add_line(lines: &mut Vec<(String, Paint)>, text: String, paint: Paint)
    ensures
        painted(final(lines)@) == painted(old(lines)@).push((text@, paint)),
{
    let ghost before = painted(lines@);
    lines.push((text, paint));
    assert(painted(lines@) =~= before.push((text@, paint)));
}

fn add_failures(lines: &mut Vec<(String, Paint)>, status: &DaemonStatus)
    ensures
        painted(final(lines)@) == painted(old(lines)@) + failure_lines(*status),
{
    let ghost before = painted(lines@);
    let failed: u64 = value_or_zero(status.repos_failed_last_poll);
    let watched: u64 = value_or_zero(status.repos_watched);
    if failed > 0 {
        let total: u64 = if watched < failed {
            failed
        } else {
            watched
        };
        let mut line = concat("  Poll failures: ", decimal_text(failed).as_str());
        line.append(" of ");
        push_decimal(&mut line, total);
        line.append(suffix(&status.failed_sample).as_str());
        add_line(lines, line, Paint::Yellow);
    }
    assert(painted(lines@) =~= before + failure_lines(*status));
}

fn add_discovery(lines: &mut Vec<(String, Paint)>, status: &DaemonStatus)
    ensures
        painted(final(lines)@) == painted(old(lines)@) + discovery_lines(*status),
{
    let ghost before = painted(lines@);
    let failed: u64 = value_or_zero(status.discovery_failed_last_poll);
    if failed > 0 {
        let mut line = concat("  Discovery failures: ", decimal_text(failed).as_str());
        line.append(" watch_dir(s)");
        line.append(suffix(&status.discovery_failed_sample).as_str());
        add_line(lines, line, Paint::Red);
    }
    assert(painted(lines@) =~= before + discovery_lines(*status));
}

fn add_process(lines: &mut Vec<(String, Paint)>, status: &DaemonStatus)
    ensures
        painted(final(lines)@) == painted(old(lines)@) + pid_lines(*status) + uptime_lines(
            *status,
        ),
{
    let ghost before = painted(lines@);
    if let Some(pid) = status.pid {
        let number = decimal_text(pid as u64);
        add_line(lines, concat("  PID:           ", number.as_str()), Paint::Plain);
    }
    let ghost between = painted(lines@);
    assert(between =~= before + pid_lines(*status));
    if let Some(secs) = status.uptime_secs {
        let uptime = format_uptime(secs);
        add_line(lines, concat("  Uptime:        ", uptime.as_str()), Paint::Plain);
    }
    assert(painted(lines@) =~= between + uptime_lines(*status));
}

/// The lines about the last poll and the watched repositories.
pub open spec fn poll_lines(status: DaemonStatus, now: Timestamp) -> Seq<(Seq<char>, Paint)> {
    seq![(last_poll_text(status, now), Paint::Plain), (watched_text(status), Paint::Plain)]
}

fn last_poll_line(status: &DaemonStatus, now: Timestamp) -> (r: String)
    requires
        now.wf(),
        status.last_poll_at matches Some(t) ==> t.wf(),
    ensures
        r@ == last_poll_text(*status, now),
{
    match &status.last_poll_at {
        Some(t) => {
            let ago = format_duration_ago(now.secs_from(t));
            let mut line = concat("  Last poll:     ", ago.as_str());
            line.append(" ago");
            line
        },
        None => "  Last poll:     never".to_owned(),
    }
}

fn watched_line(status: &DaemonStatus) -> (r: String)
    ensures
        r@ == watched_text(*status),
{
    match status.repos_watched {
        Some(n) => concat("  Repos watched: ", decimal_text(n).as_str()),
        None => "  Repos watched: unknown".to_owned(),
    }
}

fn add_polls(lines: &mut Vec<(String, Paint)>, status: &DaemonStatus, now: Timestamp)
    requires
        now.wf(),
        status.last_poll_at matches Some(t) ==> t.wf(),
    ensures
        painted(final(lines)@) == painted(old(lines)@) + poll_lines(*status, now),
{
    let ghost before = painted(lines@);
    add_line(lines, last_poll_line(status, now), Paint::Plain);
    add_line(lines, watched_line(status), Paint::Plain);
    assert(painted(lines@) =~= before + poll_lines(*status, now));
}

/// The lines about the database and the events of the day.
pub open spec fn database_lines(status: DaemonStatus, size_kb: Seq<char>) -> Seq<
    (Seq<char>, Paint),
> {
    seq![
        (db_text(status, size_kb), Paint::Plain),
        ("  Events today:  "@ + decimal(or_zero(status.events_today) as nat), Paint::Plain),
    ]
}

fn add_database(lines: &mut Vec<(String, Paint)>, status: &DaemonStatus, size_kb: &str)
    ensures
        painted(final(lines)@) == painted(old(lines)@) + database_lines(*status, size_kb@),
{
    let ghost before = painted(lines@);
    let db = match status.db_size_bytes {
        Some(_) => {
            let mut line = concat("  DB size:       ", size_kb);
            line.append(" KB");
            line
        },
        None => "  DB size:       no DB yet".to_owned(),
    };
    add_line(lines, db, Paint::Plain);
    let events = decimal_text(value_or_zero(status.events_today));
    add_line(lines, concat("  Events today:  ", events.as_str()), Paint::Plain);
    assert(painted(lines@) =~= before + database_lines(*status, size_kb@));
}

/// All lines.
pub open spec fn report_lines(
    status: DaemonStatus,
    size_kb: Seq<char>,
    now: Timestamp,
) -> Seq<(Seq<char>, Paint)> {
    pid_lines(status) + uptime_lines(status) + poll_lines(status, now) + failure_lines(status)
        + discovery_lines(status) + database_lines(status, size_kb)
}

fn status_icon(health: HealthIndicator) -> (r: String)
    ensures
        r@ == icon_text(health),
{
    match health {
        HealthIndicator::Green => "\u{2713}".to_owned(),
        HealthIndicator::Yellow => "\u{26a0}".to_owned(),
        HealthIndicator::Red => "\u{2717}".to_owned(),
    }
}

/// Puts the status at the time `now` into words. The size of the database in kilobytes is
/// handed over as it is to be written.
pub fn render_status_pretty(status: &DaemonStatus, size_kb: &str, now: Timestamp) -> (r:
    StatusReport)
    requires
        now.wf(),
        status.last_poll_at matches Some(t) ==> t.wf(),
    ensures
        r.icon@ == icon_text(status.health),
        r.label@ == label_text(*status),
        r.health == status.health,
        painted(r.lines@) == report_lines(*status, size_kb@, now),
{
    let mut lines: Vec<(String, Paint)> = Vec::new();
    assert(painted(lines@) + pid_lines(*status) =~= pid_lines(*status));
    add_process(&mut lines, status);
    add_polls(&mut lines, status, now);
    add_failures(&mut lines, status);
    add_discovery(&mut lines, status);
    add_database(&mut lines, status, size_kb);
    StatusReport {
        icon: status_icon(status.health),
        label: status_label(status),
        health: status.health,
        lines,
    }
}

/// The label of a status names its cause: it says "Stopped" exactly of a daemon that does
/// not run, and "stalled" only of one whose last poll is too long past.
#[verifier::rlimit(40)]
pub proof fn law_label_names_the_cause(status: DaemonStatus, gap: u64, now: Timestamp)
    requires
        status.health == health_of(
            status.running,
            status.last_poll_at,
            or_zero(status.repos_watched),
            status.repos_failed_last_poll,
            status.discovery_failed_last_poll,
            gap,
            now,
        ),
    ensures
        label_text(status) == "Stopped"@ <==> !status.running,
        label_text(status) == "Running (stalled)"@ ==> is_stalled(status.last_poll_at, gap, now),
        label_text(status) == "Running"@ <==> status.health == HealthIndicator::Green,
{
    reveal_strlit("Running");
    reveal_strlit("Stopped");
    reveal_strlit("Running (metrics unknown — restart daemon to enable)");
    reveal_strlit("Running (poll failures)");
    reveal_strlit("Running (no repos discovered — check watch_dirs)");
    reveal_strlit("Running (stale)");
    reveal_strlit("Running (watch_dirs unreadable)");
    reveal_strlit("Running (all polls failing)");
    reveal_strlit("Running (stalled)");
    assert("Running"@[0] == 'R' && "Stopped"@[0] == 'S');
    assert("Running"@.len() == 7);
    assert("Running (metrics unknown — restart daemon to enable)"@.len() == 52);
    assert("Running (poll failures)"@.len() == 23);
    assert("Running (no repos discovered — check watch_dirs)"@.len() == 48);
    assert("Running (stale)"@.len() == 15);
    assert("Running (watch_dirs unreadable)"@.len() == 31);
    assert("Running (all polls failing)"@.len() == 27);
    assert("Running (stalled)"@.len() == 17);
}

/// The uptime reads as the two largest units that it is made of: hours and minutes from an
/// hour on, minutes and seconds from a minute on, and seconds below.
pub proof fn law_uptime_by_parts(hours: nat, mins: nat, secs: nat)
    requires
        mins < 60,
        secs < 60,
    ensures
        hours > 0 ==> uptime_text(hours * 3600 + mins * 60 + secs) == decimal(hours) + "h "@
            + decimal(mins) + "m"@,
        mins > 0 ==> uptime_text(mins * 60 + secs) == decimal(mins) + "m "@ + decimal(secs) + "s"@,
        uptime_text(secs) == decimal(secs) + "s"@,
{
    let total = hours * 3600 + mins * 60 + secs;
    assert(total / 3600 == hours && total % 3600 == mins * 60 + secs);
    assert((mins * 60 + secs) / 60 == mins);
    let short = mins * 60 + secs;
    assert(short / 3600 == 0 && short % 3600 == short && short % 60 == secs);
}

/// How long ago something was reads as hours and minutes from an hour on, as minutes from
/// a minute on, and as seconds below; what lies ahead was just now.
pub proof fn law_ago_by_parts(hours: nat, mins: nat, secs: nat, ahead: nat)
    requires
        mins < 60,
        secs < 60,
    ensures
        hours > 0 ==> ago_text((hours * 3600 + mins * 60 + secs) as int) == decimal(hours) + "h "@
            + decimal(mins) + "m"@,
        mins > 1 ==> ago_text((mins * 60 + secs) as int) == decimal(mins) + " minutes"@,
        ago_text((60 + secs) as int) == decimal(1) + " minute"@,
        ago_text(secs as int) == decimal(secs) + "s"@,
        ago_text(-(ahead as int)) == decimal(0) + "s"@,
{
    let total = hours * 3600 + mins * 60 + secs;
    assert(total / 60 == hours * 60 + mins);
    assert((hours * 60 + mins) / 60 == hours && (hours * 60 + mins) % 60 == mins);
    assert((mins * 60 + secs) / 60 == mins && mins / 60 == 0);
    assert((60 + secs) / 60 == 1);
}

/// Each cause has its own words: of a running daemon, directories that could not be read
/// come before failing polls, and what is red for neither is stalled; what is yellow lacks
/// metrics, failed in part, watches nothing, or else is stale.
pub proof fn law_words_by_cause(status: DaemonStatus)
    ensures
        ({
            let label = label_text(status);
            let unread = status.discovery_failed_last_poll is Some
                && status.discovery_failed_last_poll->0 != 0;
            let failed = status.repos_failed_last_poll;
            let some_watched = status.repos_watched is Some && status.repos_watched->0 != 0;
            let all_failed = some_watched && failed is Some && failed->0
                >= status.repos_watched->0;
            &&& status.health is Green ==> label == "Running"@
            &&& !(status.health is Green) && !status.running ==> label == "Stopped"@
            &&& status.health is Red && status.running ==> label == (if unread {
                "Running (watch_dirs unreadable)"@
            } else if all_failed {
                "Running (all polls failing)"@
            } else {
                "Running (stalled)"@
            })
            &&& status.health is Yellow && status.running ==> label == (match failed {
                None => "Running (metrics unknown — restart daemon to enable)"@,
                Some(n) => if n != 0 {
                    "Running (poll failures)"@
                } else if !some_watched {
                    "Running (no repos discovered — check watch_dirs)"@
                } else {
                    "Running (stale)"@
                },
            })
        }),
{
}

/// The report, line by line: the process and its uptime where they are known, then always
/// the last poll and the repositories, then failed polls and unreadable directories where
/// there are any, and always the database and the events of the day.
#[verifier::rlimit(40)]
pub proof fn law_report_line_by_line(status: DaemonStatus, size_kb: Seq<char>, now: Timestamp)
    ensures
        ({
            let lines = report_lines(status, size_kb, now);
            let failed = status.repos_failed_last_poll;
            let unread = status.discovery_failed_last_poll;
            let pids: int = if status.pid is Some {
                1
            } else {
                0
            };
            let polls = pids + if status.uptime_secs is Some {
                1int
            } else {
                0
            };
            let fails: int = if failed is Some && failed->0 != 0 {
                1
            } else {
                0
            };
            let unreads: int = if unread is Some && unread->0 != 0 {
                1
            } else {
                0
            };
            let n = polls + 2 + fails + unreads + 2;
            &&& lines.len() == n
            &&& status.pid matches Some(pid) ==> lines[0] == (
                "  PID:           "@ + decimal(pid as nat),
                Paint::Plain,
            )
            &&& status.uptime_secs matches Some(s) ==> lines[pids] == (
                "  Uptime:        "@ + uptime_text(s as nat),
                Paint::Plain,
            )
            &&& lines[polls] == (
                match status.last_poll_at {
                    Some(t) => "  Last poll:     "@ + ago_text(now.secs_since(t)) + " ago"@,
                    None => "  Last poll:     never"@,
                },
                Paint::Plain,
            )
            &&& lines[polls + 1] == (
                match status.repos_watched {
                    Some(w) => "  Repos watched: "@ + decimal(w as nat),
                    None => "  Repos watched: unknown"@,
                },
                Paint::Plain,
            )
            &&& fails == 1 ==> exists|total: nat|
                total >= failed->0 && (status.repos_watched matches Some(w) ==> total >= w) && (
                total == failed->0 || Some(total as u64) == status.repos_watched) && total
                    <= u64::MAX && lines[polls + 2] == (
                    "  Poll failures: "@ + decimal(failed->0 as nat) + " of "@
                        + #[trigger] decimal(total) + sample_suffix(texts(status.failed_sample@)),
                    Paint::Yellow,
                )
            &&& unreads == 1 ==> lines[polls + 2 + fails] == (
                "  Discovery failures: "@ + decimal(unread->0 as nat) + " watch_dir(s)"@
                    + sample_suffix(texts(status.discovery_failed_sample@)),
                Paint::Red,
            )
            &&& lines[n - 2] == (
                if status.db_size_bytes is Some {
                    "  DB size:       "@ + size_kb + " KB"@
                } else {
                    "  DB size:       no DB yet"@
                },
                Paint::Plain,
            )
            &&& lines[n - 1] == (
                "  Events today:  "@ + decimal(
                    match status.events_today {
                        Some(e) => e as nat,
                        None => 0,
                    },
                ),
                Paint::Plain,
            )
        }),
{
    let failed = or_zero(status.repos_failed_last_poll);
    let watched = or_zero(status.repos_watched);
    let total = if watched < failed {
        failed as nat
    } else {
        watched as nat
    };
    if failed > 0 {
        let lines = report_lines(status, size_kb, now);
        assert(failure_lines(status)[0] == (
            "  Poll failures: "@ + decimal(failed as nat) + " of "@ + decimal(total)
                + sample_suffix(texts(status.failed_sample@)),
            Paint::Yellow,
        ));
    }
}

/// A sample is shown in full behind its dash, and an empty one not at all.
pub proof fn law_sample_is_shown_in_full(sample: Seq<Seq<char>>, one: Seq<char>)
    ensures
        sample_suffix(Seq::empty()) == Seq::<char>::empty(),
        sample_suffix(seq![one]) == " — "@ + one,
        sample.len() > 0 ==> sample_suffix(sample.push(one)) == sample_suffix(sample) + ", "@
            + one,
{
    assert(sample.push(one).drop_last() =~= sample);
    if sample.len() > 0 {
        assert(sample_suffix(sample.push(one)) =~= sample_suffix(sample) + ", "@ + one);
    }
}

/// Each health has its own icon.
pub proof fn law_icons_tell_health_apart(a: HealthIndicator, b: HealthIndicator)
    ensures
        icon_text(a) == icon_text(b) <==> a == b,
{
    reveal_strlit("\u{2713}");
    reveal_strlit("\u{26a0}");
    reveal_strlit("\u{2717}");
    assert(icon_text(a)[0] == icon_text(b)[0] ==> a == b);
}

} // verus!
