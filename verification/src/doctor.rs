//! When a daemon counts as stalled.

use vstd::prelude::*;

use crate::poller::FULL_SCAN_SECS;
use crate::text::same_text;

verus! {

/// The longest gap between polls of a daemon that watches for changes: two full scans.
pub open spec fn watcher_gap() -> int {
    2 * FULL_SCAN_SECS
}

/// The longest gap between polls of a daemon that polls: three poll intervals, and two
/// minutes at least.
pub open spec fn polling_gap(interval: int) -> int {
    let three = if 3 * interval <= u64::MAX {
        3 * interval
    } else {
        u64::MAX as int
    };
    if three < 120 {
        120
    } else {
        three
    }
}

/// The gap between polls, in seconds, from which a daemon in this mode is stalled. Where
/// the mode is not known, the longer one.
pub open spec fn stall_threshold(mode: Option<Seq<char>>, interval: int) -> int {
    if mode == Some("watcher"@) {
        watcher_gap()
    } else if mode == Some("polling"@) {
        polling_gap(interval)
    } else if polling_gap(interval) < watcher_gap() {
        watcher_gap()
    } else {
        polling_gap(interval)
    }
}

/// The gap between polls, in seconds, from which a daemon in this mode is stalled.
pub fn stall_threshold_for_mode(mode: Option<&str>, poll_interval_secs: u64) -> (r: u64)
    ensures
        r == stall_threshold(
            match mode {
                Some(m) => Some(m@),
                None => None,
            },
            poll_interval_secs as int,
        ),
{
    let watcher: u64 = 2 * FULL_SCAN_SECS;
    let three: u64 = match poll_interval_secs.checked_mul(3) {
        Some(n) => n,
        None => u64::MAX,
    };
    let polling: u64 = if three < 120 {
        120
    } else {
        three
    };
    if let Some(m) = mode {
        if same_text(m, "watcher") {
            return watcher;
        }
        if same_text(m, "polling") {
            return polling;
        }
    }
    if polling < watcher {
        watcher
    } else {
        polling
    }
}

/// While it watches for changes, a daemon's poll interval does not matter.
pub proof fn law_watcher_ignores_interval(a: int, b: int)
    ensures
        stall_threshold(Some("watcher"@), a) == stall_threshold(Some("watcher"@), b),
{
}

/// Where the mode is not known, no daemon is called stalled that is not stalled in either
/// mode.
pub proof fn law_unknown_mode_is_lenient(mode: Seq<char>, interval: int)
    ensures
        stall_threshold(Some(mode), interval) <= stall_threshold(None, interval),
{
}

/// When a daemon is stalled: after an hour where it watches for changes, after three poll
/// intervals but never within two minutes where it polls, and after the longer of the two
/// where its mode is none of these.
pub proof fn law_threshold_by_mode(mode: Seq<char>, interval: u64)
    ensures
        stall_threshold(Some("watcher"@), interval as int) == 3600,
        interval <= 40 ==> stall_threshold(Some("polling"@), interval as int) == 120,
        40 < interval <= u64::MAX / 3 ==> stall_threshold(Some("polling"@), interval as int)
            == interval + interval + interval,
        interval > u64::MAX / 3 ==> stall_threshold(Some("polling"@), interval as int)
            == u64::MAX,
        stall_threshold(None, interval as int) >= 3600,
        stall_threshold(None, interval as int) >= stall_threshold(
            Some("polling"@),
            interval as int,
        ),
        stall_threshold(None, interval as int) == 3600 || stall_threshold(None, interval as int)
            == stall_threshold(Some("polling"@), interval as int),
        mode != "watcher"@ && mode != "polling"@ ==> stall_threshold(Some(mode), interval as int)
            == stall_threshold(None, interval as int),
{
    reveal_strlit("watcher");
    reveal_strlit("polling");
    assert("watcher"@[0] != "polling"@[0]);
}

} // verus!
