//! The daemon's status, from what it stored last, and how it is shown.

use vstd::prelude::*;
use vstd::string::*;

use crate::decimal::{law_decimal_reads_back, parse_u64, parsed_uint};
use crate::doctor::{stall_threshold, stall_threshold_for_mode};
use crate::path_set::lemma_filter_all;
use crate::snapshot::{
    law_snapshot_is_stored_whole, lookup, pair_texts, sample_of, snapshot_pairs, stored_value,
    HealthSnapshot, FAILED_SAMPLE_LIMIT,
};
use crate::text::{law_lines_of_joined, line_safe, line_seq, lines, opt_text, texts};
use crate::time::{parse_rfc3339, rfc3339_instant, rfc3339_text, Timestamp, NANOS_PER_SEC};

verus! {

/// The health of the daemon, as a colour.
#[derive(Debug, Clone, Copy, PartialEq, Eq, Structural)]
pub enum HealthIndicator {
    Green,
    Yellow,
    Red,
}

/// The seconds that have passed since `t`; none where it lies ahead.
pub open spec fn age_secs(t: Timestamp, now: Timestamp) -> int {
    if now.secs_since(t) < 0 {
        0
    } else {
        now.secs_since(t)
    }
}

/// A number that may be missing, with nothing for a missing one.
pub open spec fn or_zero(n: Option<u64>) -> int {
    match n {
        Some(v) => v as int,
        None => 0,
    }
}

/// Whether the last poll is too long past.
pub open spec fn is_stalled(
    last_poll_at: Option<Timestamp>,
    max_expected_gap_secs: u64,
    now: Timestamp,
) -> bool {
    last_poll_at matches Some(t) && age_secs(t, now) >= max_expected_gap_secs
}

/// Whether every watched repository failed.
pub open spec fn all_failing(repos_watched: int, repos_failed: Option<u64>) -> bool {
    repos_failed matches Some(n) && repos_watched > 0 && n >= repos_watched
}

/// The health of a daemon. Red: it does not run, or directories could not be read, or its
/// last poll is too long past, or every repository failed. Green: none of that, and it did
/// poll, nothing failed, and there are repositories. Yellow otherwise: something is not
/// known or failed in part.
pub open spec fn health_of(
    running: bool,
    last_poll_at: Option<Timestamp>,
    repos_watched: int,
    repos_failed: Option<u64>,
    discovery_failed: Option<u64>,
    max_expected_gap_secs: u64,
    now: Timestamp,
) -> HealthIndicator {
    if !running || or_zero(discovery_failed) > 0 || is_stalled(
        last_poll_at,
        max_expected_gap_secs,
        now,
    ) || all_failing(repos_watched, repos_failed) {
        HealthIndicator::Red
    } else if last_poll_at is Some && repos_failed == Some(0u64) && repos_watched > 0 {
        HealthIndicator::Green
    } else {
        HealthIndicator::Yellow
    }
}

/// The health of a daemon at the time `now`.
pub fn compute_health(
    running: bool,
    last_poll_at: Option<Timestamp>,
    repos_watched: u64,
    repos_failed: Option<u64>,
    discovery_failed: Option<u64>,
    max_expected_gap_secs: u64,
    now: Timestamp,
) -> (r: HealthIndicator)
    requires
        now.wf(),
        last_poll_at matches Some(t) ==> t.wf(),
    ensures
        r == health_of(
            running,
            last_poll_at,
            repos_watched as int,
            repos_failed,
            discovery_failed,
            max_expected_gap_secs,
            now,
        ),
{
    if !running {
        return HealthIndicator::Red;
    }
    if let Some(n) = discovery_failed {
        if n > 0 {
            return HealthIndicator::Red;
        }
    }
    let base = match last_poll_at {
        None => HealthIndicator::Yellow,
        Some(t) => {
            let secs: i64 = now.secs_from(&t);
            let age: u64 = if secs < 0 {
                0
            } else {
                secs as u64
            };
            if age >= max_expected_gap_secs {
                HealthIndicator::Red
            } else {
                HealthIndicator::Green
            }
        },
    };
    match repos_failed {
        None => if base == HealthIndicator::Green {
            HealthIndicator::Yellow
        } else {
            base
        },
        Some(failed) => if repos_watched > 0 && failed >= repos_watched {
            HealthIndicator::Red
        } else if base == HealthIndicator::Green && (failed > 0 || repos_watched == 0) {
            HealthIndicator::Yellow
        } else {
            base
        },
    }
}

/// How bad a colour is.
pub open spec fn severity(h: HealthIndicator) -> int {
    match h {
        HealthIndicator::Green => 0,
        HealthIndicator::Yellow => 1,
        HealthIndicator::Red => 2,
    }
}

/// A daemon never looks healthier because more failed, more could not be read, the last
/// poll is longer past, or less of a gap is expected.
pub proof fn law_health_is_monotone(
    running: bool,
    watched: u64,
    t1: Timestamp,
    now1: Timestamp,
    failed1: u64,
    unread1: u64,
    gap1: u64,
    t2: Timestamp,
    now2: Timestamp,
    failed2: u64,
    unread2: u64,
    gap2: u64,
)
    requires
        failed1 <= failed2,
        unread1 <= unread2,
        gap1 >= gap2,
        age_secs(t1, now1) <= age_secs(t2, now2),
    ensures
        severity(
            health_of(running, Some(t1), watched as int, Some(failed1), Some(unread1), gap1, now1),
        ) <= severity(
            health_of(running, Some(t2), watched as int, Some(failed2), Some(unread2), gap2, now2),
        ),
{
}

/// Whether no leap second is involved in the age of `t`.
pub open spec fn no_leap(t: Timestamp, now: Timestamp) -> bool {
    t.nanos < NANOS_PER_SEC && now.nanos < NANOS_PER_SEC
}

/// Without leap seconds, an earlier point in time is no younger.
proof fn lemma_age_grows(t1: Timestamp, t2: Timestamp, now: Timestamp)
    requires
        !t1.before(t2),
        no_leap(t1, now),
        no_leap(t2, now),
    ensures
        age_secs(t1, now) <= age_secs(t2, now),
{
    let n1 = now.nanos_since(t1);
    let n2 = now.nanos_since(t2);
    assert(n1 <= n2);
    assert(n1 >= 0 ==> n1 / 1_000_000_000 <= n2 / 1_000_000_000);
}

/// An older poll, more failures or a tighter threshold never improve the health. Where a
/// leap second is involved, the older poll may count as the younger by up to a second;
/// the law then holds where it does not.
pub proof fn law_older_poll_is_no_healthier(
    running: bool,
    watched: u64,
    t1: Timestamp,
    failed1: u64,
    unread1: u64,
    gap1: u64,
    t2: Timestamp,
    failed2: u64,
    unread2: u64,
    gap2: u64,
    now: Timestamp,
)
    requires
        !t1.before(t2),
        failed1 <= failed2,
        unread1 <= unread2,
        gap1 >= gap2,
        (no_leap(t1, now) && no_leap(t2, now)) || age_secs(t1, now) <= age_secs(t2, now),
    ensures
        severity(
            health_of(running, Some(t1), watched as int, Some(failed1), Some(unread1), gap1, now),
        ) <= severity(
            health_of(running, Some(t2), watched as int, Some(failed2), Some(unread2), gap2, now),
        ),
{
    if no_leap(t1, now) && no_leap(t2, now) {
        lemma_age_grows(t1, t2, now);
    }
}

/// Where a metric is missing, the daemon is not called healthy.
pub proof fn law_unknown_is_not_green(
    running: bool,
    last_poll_at: Option<Timestamp>,
    watched: u64,
    failed: Option<u64>,
    unread: Option<u64>,
    gap: u64,
    now: Timestamp,
)
    requires
        last_poll_at is None || failed is None || watched == 0,
    ensures
        health_of(running, last_poll_at, watched as int, failed, unread, gap, now)
            != HealthIndicator::Green,
{
}

/// A daemon with any discovery failure is red, whatever else is known of it, and one that
/// is called healthy has none.
pub proof fn law_discovery_failure_is_red(
    running: bool,
    last_poll_at: Option<Timestamp>,
    watched: int,
    failed: Option<u64>,
    unread: Option<u64>,
    gap: u64,
    now: Timestamp,
)
    ensures
        unread is Some && unread->0 != 0 ==> health_of(
            running,
            last_poll_at,
            watched,
            failed,
            unread,
            gap,
            now,
        ) == HealthIndicator::Red,
        health_of(running, last_poll_at, watched, failed, unread, gap, now)
            == HealthIndicator::Green ==> unread is None || unread->0 == 0,
{
}

/// Each colour by its causes, with the age of the last poll in nanoseconds, where no leap
/// second is involved. Red: the daemon does not run, some directory could not be read, the
/// expected gap has passed since the last poll, or as many repositories failed as are
/// watched. Green: it runs, no directory is known to be unreadable, less than the expected
/// gap has passed, it is known that nothing failed, and something is watched. Yellow: no
/// cause for red, but no poll is known, it is not known what failed, some failed, or
/// nothing is watched.
pub proof fn law_colours_by_cause(
    running: bool,
    last_poll_at: Option<Timestamp>,
    watched: u64,
    failed: Option<u64>,
    unread: Option<u64>,
    gap: u64,
    now: Timestamp,
)
    requires
        now.nanos < 1_000_000_000,
        last_poll_at is Some ==> last_poll_at->0.nanos < 1_000_000_000,
    ensures
        ({
            let health = health_of(
                running,
                last_poll_at,
                watched as int,
                failed,
                unread,
                gap,
                now,
            );
            let passed = (now.secs - last_poll_at->0.secs) * 1_000_000_000 + now.nanos
                - last_poll_at->0.nanos;
            let cause_for_red = !running || (unread is Some && unread->0 != 0) || (
            last_poll_at is Some && (gap == 0 || passed >= gap * 1_000_000_000)) || (
            failed is Some && watched != 0 && failed->0 >= watched);
            let cause_for_yellow = last_poll_at is None || failed is None || failed->0 != 0
                || watched == 0;
            &&& health is Red <==> cause_for_red
            &&& health is Yellow <==> !cause_for_red && cause_for_yellow
            &&& health is Green <==> !cause_for_red && !cause_for_yellow
        }),
{
    if let Some(t) = last_poll_at {
        let passed = (now.secs - t.secs) * 1_000_000_000 + now.nanos - t.nanos;
        assert(now.nanos_since(t) == passed);
        if passed >= 0 {
            assert(now.secs_since(t) == passed / 1_000_000_000);
            assert(passed / 1_000_000_000 >= gap <==> passed >= gap * 1_000_000_000);
        } else {
            assert((-passed) / 1_000_000_000 >= 0);
            assert(now.secs_since(t) <= 0);
        }
    }
}

// ---------------------------------------------------------------------------
// Reading what was stored
// ---------------------------------------------------------------------------

/// What the daemon stored about its last cycle.
#[derive(Debug)]
pub struct Probed {
    pub last_poll_at: Option<Timestamp>,
    pub repos_watched: Option<u64>,
    pub repos_failed: Option<u64>,
    pub failed_sample: Vec<String>,
    pub discovery_failed: Option<u64>,
    pub discovery_failed_sample: Vec<String>,
    pub poll_mode: Option<String>,
    pub effective_poll_interval_secs: Option<u64>,
}

impl Probed {
    /// Whether the time is one of the calendar.
    pub open spec fn wf(&self) -> bool {
        self.last_poll_at matches Some(t) ==> t.wf()
    }
}

/// The number stored under `key`, where there is one.
pub open spec fn stored_number(state: Seq<(Seq<char>, Seq<char>)>, key: Seq<char>) -> Option<nat> {
    match stored_value(state, key) {
        None => None,
        Some(v) => match parsed_uint(v, u64::MAX as nat) {
            Ok(n) => Some(n),
            Err(_) => None,
        },
    }
}

/// The lines stored under `key`, without the empty ones.
pub open spec fn stored_lines(state: Seq<(Seq<char>, Seq<char>)>, key: Seq<char>) -> Seq<
    Seq<char>,
> {
    match stored_value(state, key) {
        None => seq![],
        Some(v) => line_seq(v).filter(|l: Seq<char>| l.len() > 0),
    }
}

/// The point in time stored under `key`, where there is one.
pub open spec fn stored_instant(state: Seq<(Seq<char>, Seq<char>)>, key: Seq<char>) -> Option<
    Timestamp,
> {
    match stored_value(state, key) {
        None => None,
        Some(v) => rfc3339_instant(v),
    }
}

/// A machine number as a natural one.
pub open spec fn as_number(n: Option<u64>) -> Option<nat> {
    match n {
        Some(v) => Some(v as nat),
        None => None,
    }
}

/// Reads the number stored under `key`.
fn read_number(state: &Vec<(String, String)>, key: &str) -> (r: Option<u64>)
    ensures
        as_number(r) == stored_number(pair_texts(state@), key@),
{
    match lookup(state, key) {
        None => None,
        Some(v) => parse_u64(v.as_str()),
    }
}

/// Reads the lines stored under `key`.
fn read_lines(state: &Vec<(String, String)>, key: &str) -> (r: Vec<String>)
    ensures
        texts(r@) == stored_lines(pair_texts(state@), key@),
{
    let mut r: Vec<String> = Vec::new();
    match lookup(state, key) {
        None => {
            assert(texts(r@) =~= stored_lines(pair_texts(state@), key@));
        },
        Some(v) => {
            let all = lines(v.as_str());
            let ghost parts = texts(all@);
            let ghost full = |l: Seq<char>| l.len() > 0;
            let mut i: usize = 0;
            assert(parts.take(0).filter(full) =~= seq![]);
            while i < all.len()
                invariant
                    i <= all.len(),
                    parts == texts(all@),
                    full == (|l: Seq<char>| l.len() > 0),
                    texts(r@) =~= parts.take(i as int).filter(full),
                decreases all.len() - i,
            {
                proof {
                    assert(parts.take(i + 1) =~= parts.take(i as int).push(parts[i as int]));
                    parts.take(i as int).lemma_filter_push(parts[i as int], full);
                }
                if all[i].unicode_len() > 0 {
                    let ghost before = texts(r@);
                    r.push(all[i].clone());
                    assert(texts(r@) =~= before.push(parts[i as int]));
                }
                i = i + 1;
            }
            assert(parts.take(i as int) =~= parts);
        },
    }
    r
}

/// Reads what the daemon stored about its last cycle.
#[verifier::rlimit(40)]
pub fn read_probed(state: &Vec<(String, String)>) -> (r: Probed)
    ensures
        r.wf(),
        r.last_poll_at == stored_instant(pair_texts(state@), "last_poll_at"@),
        as_number(r.repos_watched) == stored_number(pair_texts(state@), "repos_watched"@),
        as_number(r.repos_failed) == stored_number(pair_texts(state@), "last_poll_repos_failed"@),
        texts(r.failed_sample@) == stored_lines(pair_texts(state@), "last_poll_failed_sample"@),
        as_number(r.discovery_failed) == stored_number(
            pair_texts(state@),
            "last_poll_discovery_failed"@,
        ),
        texts(r.discovery_failed_sample@) == stored_lines(
            pair_texts(state@),
            "last_poll_discovery_failed_sample"@,
        ),
        opt_text(r.poll_mode) == stored_value(pair_texts(state@), "last_poll_mode"@),
        as_number(r.effective_poll_interval_secs) == stored_number(
            pair_texts(state@),
            "effective_poll_interval_secs"@,
        ),
{
    let last_poll_at = match lookup(state, "last_poll_at") {
        None => None,
        Some(v) => parse_rfc3339(v.as_str()),
    };
    Probed {
        last_poll_at,
        repos_watched: read_number(state, "repos_watched"),
        repos_failed: read_number(state, "last_poll_repos_failed"),
        failed_sample: read_lines(state, "last_poll_failed_sample"),
        discovery_failed: read_number(state, "last_poll_discovery_failed"),
        discovery_failed_sample: read_lines(state, "last_poll_discovery_failed_sample"),
        poll_mode: lookup(state, "last_poll_mode"),
        effective_poll_interval_secs: read_number(state, "effective_poll_interval_secs"),
    }
}

/// The first few paths, those that a sample holds.
pub open spec fn sampled(paths: Seq<Seq<char>>) -> Seq<Seq<char>> {
    paths.take(
        if paths.len() < FAILED_SAMPLE_LIMIT {
            paths.len() as int
        } else {
            FAILED_SAMPLE_LIMIT as int
        },
    )
}

/// What a snapshot stored is what the status reads, whatever was stored before: counts
/// and mode exactly, and the sampled paths where each can stand on a line of its own.
pub proof fn law_status_reads_snapshot(
    prior: Seq<(Seq<char>, Seq<char>)>,
    snap: HealthSnapshot,
)
    ensures
        ({
            let state = prior + snapshot_pairs(snap);
            let failed = texts(snap.poll_metrics.failed_paths@);
            let dirs = snap.discovery_metrics.failed_dirs();
            &&& stored_value(state, "last_poll_mode"@) == Some(snap.poll_mode@)
            &&& stored_number(state, "repos_watched"@) == Some(snap.repos_watched as nat)
            &&& stored_number(state, "effective_poll_interval_secs"@) == Some(
                snap.effective_poll_interval_secs as nat,
            )
            &&& stored_number(state, "last_poll_repos_failed"@) == Some(failed.len())
            &&& stored_number(state, "last_poll_discovery_failed"@) == Some(dirs.len())
            &&& line_safe(sampled(failed)) ==> stored_lines(state, "last_poll_failed_sample"@)
                == sampled(failed)
            &&& line_safe(sampled(dirs)) ==> stored_lines(
                state,
                "last_poll_discovery_failed_sample"@,
            ) == sampled(dirs)
        }),
{
    let state = prior + snapshot_pairs(snap);
    let failed = texts(snap.poll_metrics.failed_paths@);
    let dirs = snap.discovery_metrics.failed_dirs();
    law_snapshot_is_stored_whole(prior, snap);
    assert(failed.len() == snap.poll_metrics.failed_paths.len());
    assert(dirs.len() == snap.discovery_metrics.failures.len());
    law_decimal_reads_back(snap.repos_watched as nat, u64::MAX as nat);
    law_decimal_reads_back(snap.effective_poll_interval_secs as nat, u64::MAX as nat);
    law_decimal_reads_back(failed.len(), u64::MAX as nat);
    law_decimal_reads_back(dirs.len(), u64::MAX as nat);
    if line_safe(sampled(failed)) {
        lemma_sample_reads_back(failed);
    }
    if line_safe(sampled(dirs)) {
        lemma_sample_reads_back(dirs);
    }
}

/// A sample is read back as its lines.
proof fn lemma_sample_reads_back(paths: Seq<Seq<char>>)
    requires
        line_safe(sampled(paths)),
    ensures
        line_seq(sample_of(paths)).filter(|l: Seq<char>| l.len() > 0) == sampled(paths),
{
    law_lines_of_joined(sampled(paths));
    lemma_filter_all(sampled(paths), |l: Seq<char>| l.len() > 0);
}

// ---------------------------------------------------------------------------
// The status
// ---------------------------------------------------------------------------

/// The status of the daemon.
#[derive(Debug)]
pub struct DaemonStatus {
    pub running: bool,
    pub pid: Option<u32>,
    pub uptime_secs: Option<u64>,
    pub last_poll_at: Option<Timestamp>,
    pub repos_watched: Option<u64>,
    pub repos_failed_last_poll: Option<u64>,
    pub failed_sample: Vec<String>,
    pub discovery_failed_last_poll: Option<u64>,
    pub discovery_failed_sample: Vec<String>,
    pub db_size_bytes: Option<u64>,
    pub events_today: Option<u64>,
    pub health: HealthIndicator,
}

/// What is measured of a daemon from outside.
#[derive(Debug, Clone, Copy)]
pub struct Measured {
    /// The running daemon.
    pub pid: Option<u32>,
    /// The age of the PID file.
    pub uptime_secs: Option<u64>,
    pub db_size_bytes: Option<u64>,
    pub events_today: Option<u64>,
}

/// The gap between polls that is expected of a daemon: in its stored mode, and with the
/// interval that it stored itself. The reader's interval only stands in for a missing one.
pub open spec fn expected_gap(probed: Probed, reader_interval_secs: u64) -> int {
    stall_threshold(
        opt_text(probed.poll_mode),
        match probed.effective_poll_interval_secs {
            Some(n) => n as int,
            None => reader_interval_secs as int,
        },
    )
}

/// The status of the daemon at the time `now`, from what was measured and what it stored.
pub fn status_from(
    measured: Measured,
    probed: Probed,
    reader_interval_secs: u64,
    now: Timestamp,
) -> (r: DaemonStatus)
    requires
        now.wf(),
        probed.wf(),
    ensures
        shows_measured(r, measured),
        health_fits(r, expected_gap(probed, reader_interval_secs) as u64, now),
        r.running == measured.pid is Some,
        r.pid == measured.pid,
        r.uptime_secs == if measured.pid is Some {
            measured.uptime_secs
        } else {
            None
        },
        r.last_poll_at == probed.last_poll_at,
        r.repos_watched == probed.repos_watched,
        r.repos_failed_last_poll == probed.repos_failed,
        r.failed_sample == probed.failed_sample,
        r.discovery_failed_last_poll == probed.discovery_failed,
        r.discovery_failed_sample == probed.discovery_failed_sample,
        r.db_size_bytes == measured.db_size_bytes,
        r.events_today == measured.events_today,
        r.health == health_of(
            measured.pid is Some,
            probed.last_poll_at,
            or_zero(probed.repos_watched),
            probed.repos_failed,
            probed.discovery_failed,
            expected_gap(probed, reader_interval_secs) as u64,
            now,
        ),
{
    let running = measured.pid.is_some();
    let interval: u64 = match probed.effective_poll_interval_secs {
        Some(n) => n,
        None => reader_interval_secs,
    };
    let mode: Option<&str> = match &probed.poll_mode {
        Some(m) => Some(m.as_str()),
        None => None,
    };
    let gap: u64 = stall_threshold_for_mode(mode, interval);
    let watched: u64 = match probed.repos_watched {
        Some(n) => n,
        None => 0,
    };
    let health = compute_health(
        running,
        probed.last_poll_at,
        watched,
        probed.repos_failed,
        probed.discovery_failed,
        gap,
        now,
    );
    DaemonStatus {
        running,
        pid: measured.pid,
        uptime_secs: if running {
            measured.uptime_secs
        } else {
            None
        },
        last_poll_at: probed.last_poll_at,
        repos_watched: probed.repos_watched,
        repos_failed_last_poll: probed.repos_failed,
        failed_sample: probed.failed_sample,
        discovery_failed_last_poll: probed.discovery_failed,
        discovery_failed_sample: probed.discovery_failed_sample,
        db_size_bytes: measured.db_size_bytes,
        events_today: measured.events_today,
        health,
    }
}

/// The status of the daemon at the time `now`, from what was measured and the pairs that
/// it stored; there are none where there is no database.
#[verifier::rlimit(40)]
pub fn get_daemon_status(
    measured: Measured,
    state: &Vec<(String, String)>,
    reader_interval_secs: u64,
    now: Timestamp,
) -> (r: DaemonStatus)
    requires
        now.wf(),
    ensures
        shows_measured(r, measured),
        shows_stored(r, pair_texts(state@)),
        health_fits(r, stored_gap(pair_texts(state@), reader_interval_secs) as u64, now),
        r.running == measured.pid is Some,
        r.pid == measured.pid,
        r.uptime_secs == if measured.pid is Some {
            measured.uptime_secs
        } else {
            None
        },
        r.last_poll_at == stored_instant(pair_texts(state@), "last_poll_at"@),
        r.last_poll_at matches Some(t) ==> t.wf(),
        as_number(r.repos_watched) == stored_number(pair_texts(state@), "repos_watched"@),
        as_number(r.repos_failed_last_poll) == stored_number(
            pair_texts(state@),
            "last_poll_repos_failed"@,
        ),
        texts(r.failed_sample@) == stored_lines(pair_texts(state@), "last_poll_failed_sample"@),
        as_number(r.discovery_failed_last_poll) == stored_number(
            pair_texts(state@),
            "last_poll_discovery_failed"@,
        ),
        texts(r.discovery_failed_sample@) == stored_lines(
            pair_texts(state@),
            "last_poll_discovery_failed_sample"@,
        ),
        r.db_size_bytes == measured.db_size_bytes,
        r.events_today == measured.events_today,
        r.health == health_of(
            r.running,
            r.last_poll_at,
            or_zero(r.repos_watched),
            r.repos_failed_last_poll,
            r.discovery_failed_last_poll,
            stored_gap(pair_texts(state@), reader_interval_secs) as u64,
            now,
        ),
{
    let probed = read_probed(state);
    status_from(measured, probed, reader_interval_secs, now)
}

/// The gap between polls that is expected of a daemon that stored these pairs.
pub open spec fn stored_gap(
    state: Seq<(Seq<char>, Seq<char>)>,
    reader_interval_secs: u64,
) -> int {
    stall_threshold(
        stored_value(state, "last_poll_mode"@),
        match stored_number(state, "effective_poll_interval_secs"@) {
            Some(n) => n as int,
            None => reader_interval_secs as int,
        },
    )
}

/// The health of a daemon that has stored a snapshot does not depend on the settings of
/// whoever reads it.
pub proof fn law_reader_settings_do_not_matter(
    prior: Seq<(Seq<char>, Seq<char>)>,
    snap: HealthSnapshot,
    interval: u64,
    other_interval: u64,
)
    ensures
        stored_gap(prior + snapshot_pairs(snap), interval) == stored_gap(
            prior + snapshot_pairs(snap),
            other_interval,
        ),
        stored_gap(prior + snapshot_pairs(snap), interval) == stall_threshold(
            Some(snap.poll_mode@),
            snap.effective_poll_interval_secs as int,
        ),
{
    law_status_reads_snapshot(prior, snap);
}

/// The interval that a daemon stored itself is the one that counts, and the reader's stands
/// in only where there is none: two readers agree on the gap that is expected of a daemon
/// that stored its interval.
pub proof fn law_own_interval_counts(
    probed: Probed,
    state: Seq<(Seq<char>, Seq<char>)>,
    reader: u64,
    other_reader: u64,
)
    ensures
        match probed.effective_poll_interval_secs {
            Some(own) => expected_gap(probed, reader) == expected_gap(probed, other_reader)
                && expected_gap(probed, reader) == stall_threshold(
                opt_text(probed.poll_mode),
                own as int,
            ),
            None => expected_gap(probed, reader) == stall_threshold(
                opt_text(probed.poll_mode),
                reader as int,
            ),
        },
        match stored_number(state, "effective_poll_interval_secs"@) {
            Some(own) => stored_gap(state, reader) == stored_gap(state, other_reader)
                && stored_gap(state, reader) == stall_threshold(
                stored_value(state, "last_poll_mode"@),
                own as int,
            ),
            None => stored_gap(state, reader) == stall_threshold(
                stored_value(state, "last_poll_mode"@),
                reader as int,
            ),
        },
{
}

/// Whether a status shows what was measured: the running daemon and its uptime, the size of
/// the database and the events of the day.
pub open spec fn shows_measured(status: DaemonStatus, measured: Measured) -> bool {
    &&& status.running == (measured.pid is Some)
    &&& status.pid == measured.pid
    &&& status.uptime_secs == (if measured.pid is Some {
        measured.uptime_secs
    } else {
        None
    })
    &&& status.db_size_bytes == measured.db_size_bytes
    &&& status.events_today == measured.events_today
}

/// Nothing that was measured is lost in a status: where two measurements give one status,
/// they agree on the daemon, on the size of the database and on the events of the day, and
/// on the uptime where the daemon runs. A daemon that does not run has no uptime.
pub proof fn law_status_keeps_what_was_measured(
    status: DaemonStatus,
    a: Measured,
    b: Measured,
)
    requires
        shows_measured(status, a),
        shows_measured(status, b),
    ensures
        a.pid == b.pid,
        a.db_size_bytes == b.db_size_bytes,
        a.events_today == b.events_today,
        a.pid is Some ==> a.uptime_secs == b.uptime_secs,
        a.pid is None ==> status.uptime_secs is None && !status.running,
        a.pid is Some ==> status.running,
{
}

/// A sample names the first five paths, or all of them where there are no more: it tells
/// the path at each of these places, and none beyond. Each path can stand on a line.
pub proof fn law_sample_is_the_first_five(paths: Seq<Seq<char>>)
    requires
        forall|i: int|
            0 <= i < paths.len() ==> (#[trigger] paths[i]).len() > 0 && !paths[i].contains('\n')
                && paths[i].last() != '\r',
    ensures
        ({
            let read = line_seq(sample_of(paths)).filter(|l: Seq<char>| l.len() > 0);
            &&& read.len() == if paths.len() < 5 {
                paths.len()
            } else {
                5
            }
            &&& forall|i: int| 0 <= i < read.len() ==> #[trigger] read[i] == paths[i]
        }),
{
    assert forall|i: int| 0 <= i < sampled(paths).len() implies (#[trigger] sampled(paths)[i])
        == paths[i] by {}
    lemma_sample_reads_back(paths);
}

/// Of stored lines exactly those are read that are not empty, and of a stored number the
/// number that its text denotes; where nothing was stored, nothing is read.
pub proof fn law_stored_values_are_read(
    state: Seq<(Seq<char>, Seq<char>)>,
    key: Seq<char>,
    line: Seq<char>,
)
    ensures
        match stored_value(state, key) {
            Some(v) => {
                &&& stored_lines(state, key).contains(line) <==> line_seq(v).contains(line)
                    && line.len() > 0
                &&& stored_number(state, key) is Some <==> parsed_uint(v, u64::MAX as nat) is Ok
                &&& parsed_uint(v, u64::MAX as nat) matches Ok(n) ==> stored_number(state, key)
                    == Some(n)
                &&& stored_instant(state, key) == rfc3339_instant(v)
            },
            None => {
                &&& stored_lines(state, key).len() == 0
                &&& stored_number(state, key) is None
                &&& stored_instant(state, key) is None
            },
        },
{
    if let Some(v) = stored_value(state, key) {
        let full = |l: Seq<char>| l.len() > 0;
        let all = line_seq(v);
        if all.contains(line) && line.len() > 0 {
            let i = choose|i: int| 0 <= i < all.len() && all[i] == line;
            all.lemma_filter_contains(full, i);
        }
        if all.filter(full).contains(line) {
            all.lemma_filter_contains_rev(full, line);
        }
    }
}

/// Whether the health of a status is the one that its own numbers give.
pub open spec fn health_fits(status: DaemonStatus, gap: u64, now: Timestamp) -> bool {
    status.health == health_of(
        status.running,
        status.last_poll_at,
        or_zero(status.repos_watched),
        status.repos_failed_last_poll,
        status.discovery_failed_last_poll,
        gap,
        now,
    )
}

/// The colour of a status follows from what it shows: one of a daemon that does not run,
/// that could not read a directory or that failed everywhere is red; a green one is of a
/// daemon that runs, has polled, watches something and failed nowhere.
pub proof fn law_status_colour_follows(status: DaemonStatus, gap: u64, now: Timestamp)
    requires
        health_fits(status, gap, now),
    ensures
        !status.running ==> status.health is Red,
        status.discovery_failed_last_poll matches Some(n) ==> (n != 0 ==> status.health is Red),
        status.repos_watched is Some && status.repos_watched->0 != 0
            && status.repos_failed_last_poll is Some && status.repos_failed_last_poll->0
            >= status.repos_watched->0 ==> status.health is Red,
        status.health is Green ==> {
            &&& status.running
            &&& status.last_poll_at is Some
            &&& status.repos_watched is Some && status.repos_watched->0 != 0
            &&& status.repos_failed_last_poll == Some(0u64)
            &&& status.discovery_failed_last_poll is None || status.discovery_failed_last_poll
                == Some(0u64)
        },
{
}

/// Whether a status shows what a daemon stored.
pub open spec fn shows_stored(
    status: DaemonStatus,
    state: Seq<(Seq<char>, Seq<char>)>,
) -> bool {
    &&& status.last_poll_at == stored_instant(state, "last_poll_at"@)
    &&& as_number(status.repos_watched) == stored_number(state, "repos_watched"@)
    &&& as_number(status.repos_failed_last_poll) == stored_number(
        state,
        "last_poll_repos_failed"@,
    )
    &&& texts(status.failed_sample@) == stored_lines(state, "last_poll_failed_sample"@)
    &&& as_number(status.discovery_failed_last_poll) == stored_number(
        state,
        "last_poll_discovery_failed"@,
    )
    &&& texts(status.discovery_failed_sample@) == stored_lines(
        state,
        "last_poll_discovery_failed_sample"@,
    )
}

/// A status shows the last snapshot that was stored, whatever was stored before it: the
/// time of the poll as its text is read, the numbers of repositories, of failed ones and
/// of unreadable directories, and of each the first five, where each path can stand on a
/// line.
pub proof fn law_status_shows_the_snapshot(
    status: DaemonStatus,
    prior: Seq<(Seq<char>, Seq<char>)>,
    snap: HealthSnapshot,
)
    requires
        shows_stored(status, prior + snapshot_pairs(snap)),
    ensures
        status.last_poll_at == rfc3339_instant(rfc3339_text(snap.last_poll_at)),
        status.repos_watched matches Some(n) && n == snap.repos_watched,
        status.repos_failed_last_poll matches Some(n) && n
            == snap.poll_metrics.failed_paths.len(),
        status.discovery_failed_last_poll matches Some(n) && n
            == snap.discovery_metrics.failures.len(),
        (forall|i: int|
            0 <= i < snap.poll_metrics.failed_paths@.len() ==> {
                let path = (#[trigger] snap.poll_metrics.failed_paths@[i])@;
                path.len() > 0 && !path.contains('\n') && path.last() != '\r'
            }) ==> forall|i: int|
            0 <= i < 5 && i < snap.poll_metrics.failed_paths@.len() ==> i
                < status.failed_sample@.len() && (#[trigger] status.failed_sample@[i])@
                == snap.poll_metrics.failed_paths@[i]@,
        (forall|i: int|
            0 <= i < snap.discovery_metrics.failures@.len() ==> {
                let path = (#[trigger] snap.discovery_metrics.failures@[i]).0@;
                path.len() > 0 && !path.contains('\n') && path.last() != '\r'
            }) ==> forall|i: int|
            0 <= i < 5 && i < snap.discovery_metrics.failures@.len() ==> i
                < status.discovery_failed_sample@.len() && (
            #[trigger] status.discovery_failed_sample@[i])@
                == snap.discovery_metrics.failures@[i].0@,
{
    let state = prior + snapshot_pairs(snap);
    let failed = texts(snap.poll_metrics.failed_paths@);
    let dirs = snap.discovery_metrics.failed_dirs();
    law_status_reads_snapshot(prior, snap);
    law_snapshot_is_stored_whole(prior, snap);
    if forall|i: int|
        0 <= i < snap.poll_metrics.failed_paths@.len() ==> {
            let path = (#[trigger] snap.poll_metrics.failed_paths@[i])@;
            path.len() > 0 && !path.contains('\n') && path.last() != '\r'
        } {
        assert forall|i: int| 0 <= i < failed.len() implies (#[trigger] failed[i]).len() > 0
            && !failed[i].contains('\n') && failed[i].last() != '\r' by {
            assert(failed[i] == snap.poll_metrics.failed_paths@[i]@);
        }
        law_sample_is_the_first_five(failed);
        lemma_texts_of(status.failed_sample@, failed);
    }
    if forall|i: int|
        0 <= i < snap.discovery_metrics.failures@.len() ==> {
            let path = (#[trigger] snap.discovery_metrics.failures@[i]).0@;
            path.len() > 0 && !path.contains('\n') && path.last() != '\r'
        } {
        assert forall|i: int| 0 <= i < dirs.len() implies (#[trigger] dirs[i]).len() > 0
            && !dirs[i].contains('\n') && dirs[i].last() != '\r' by {
            assert(dirs[i] == snap.discovery_metrics.failures@[i].0@);
        }
        law_sample_is_the_first_five(dirs);
        lemma_texts_of(status.discovery_failed_sample@, dirs);
    }
}

/// The texts of a sample are those of the first paths.
proof fn lemma_texts_of(sample: Seq<String>, paths: Seq<Seq<char>>)
    requires
        texts(sample).len() == if paths.len() < 5 {
            paths.len()
        } else {
            5
        },
        forall|i: int| 0 <= i < texts(sample).len() ==> #[trigger] texts(sample)[i] == paths[i],
    ensures
        forall|i: int|
            0 <= i < 5 && i < paths.len() ==> i < sample.len() && (#[trigger] sample[i])@
                == paths[i],
{
    assert forall|i: int| 0 <= i < 5 && i < paths.len() implies i < sample.len() && (
    #[trigger] sample[i])@ == paths[i] by {
        assert(texts(sample)[i] == paths[i]);
    }
}

} // verus!
