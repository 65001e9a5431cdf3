//! Points in time and lengths of time, to the nanosecond.

use vstd::prelude::*;
use vstd::string::*;

verus! {

/// The first second that a [`Timestamp`] can name: the start of the year -262143.
pub const MIN_SECS: i64 = -8334601228800;

/// The last second that a [`Timestamp`] can name: the end of the year 262142.
pub const MAX_SECS: i64 = 8210266876799;

/// Nanoseconds of one second.
pub const NANOS_PER_SEC: u32 = 1_000_000_000;

/// A point in time, in UTC: whole seconds since 1970-01-01T00:00:00, and nanoseconds
/// since that second. In a leap second, which prolongs the last second of a minute,
/// the nanoseconds go on beyond one second.
#[derive(Debug, Clone, Copy, PartialEq, Eq, Structural)]
pub struct Timestamp {
    pub secs: i64,
    pub nanos: u32,
}

/// A length of time: whole seconds, and the nanoseconds to add to them.
#[derive(Debug, Clone, Copy, PartialEq, Eq, Structural)]
pub struct Span {
    pub secs: i64,
    pub nanos: u32,
}

/// Division that rounds towards zero, for a positive divisor.
pub open spec fn trunc_div(a: int, b: int) -> int {
    if a >= 0 {
        a / b
    } else {
        -((-a) / b)
    }
}

impl Timestamp {
    /// Whether this is a point in time of the calendar.
    pub open spec fn wf(self) -> bool {
        &&& MIN_SECS <= self.secs <= MAX_SECS
        &&& self.nanos < NANOS_PER_SEC || (self.nanos < 2 * NANOS_PER_SEC && self.secs as int % 60
            == 59)
    }

    /// Whether the year of this point in time has four digits.
    pub open spec fn in_four_digit_years(self) -> bool {
        -62167219200 <= self.secs <= 253402300799
    }

    /// The second of the day.
    pub open spec fn second_of_day(self) -> int {
        self.secs as int % 86400
    }

    /// A number that grows with time.
    pub open spec fn rank(self) -> int {
        self.secs * 0x1_0000_0000 + self.nanos
    }

    /// Whether this point in time comes before another.
    pub open spec fn before(self, other: Timestamp) -> bool {
        self.secs < other.secs || (self.secs == other.secs && self.nanos < other.nanos)
    }

    /// The nanoseconds from `earlier` to this point in time. A leap second counts where
    /// only the day's clock has passed it.
    pub open spec fn nanos_since(self, earlier: Timestamp) -> int {
        let leap: int = if self.second_of_day() > earlier.second_of_day() && earlier.nanos
            >= NANOS_PER_SEC {
            1
        } else if self.second_of_day() < earlier.second_of_day() && self.nanos >= NANOS_PER_SEC {
            -1
        } else {
            0
        };
        (self.secs - earlier.secs + leap) * NANOS_PER_SEC + self.nanos - earlier.nanos
    }

    /// The whole seconds from `earlier` to this point in time.
    pub open spec fn secs_since(self, earlier: Timestamp) -> int {
        trunc_div(self.nanos_since(earlier), NANOS_PER_SEC as int)
    }

    /// The point in time `n` seconds earlier; a leap second is left for the next second.
    pub open spec fn minus_secs(self, n: int) -> Timestamp {
        if self.nanos >= NANOS_PER_SEC {
            Timestamp {
                secs: (self.secs + 1 - n) as i64,
                nanos: (self.nanos - NANOS_PER_SEC) as u32,
            }
        } else {
            Timestamp { secs: (self.secs - n) as i64, nanos: self.nanos }
        }
    }

    /// The number that grows with time.
    pub fn rank_number(&self) -> (r: i128)
        ensures
            r == self.rank(),
    {
        self.secs as i128 * 0x1_0000_0000 + self.nanos as i128
    }

    /// Decides [`Timestamp::before`].
    pub fn is_before(&self, other: &Timestamp) -> (r: bool)
        ensures
            r == self.before(*other),
    {
        self.secs < other.secs || (self.secs == other.secs && self.nanos < other.nanos)
    }

    /// Decides whether this is a point in time of the calendar.
    pub fn is_valid(&self) -> (r: bool)
        ensures
            r == self.wf(),
    {
        if self.secs < MIN_SECS || MAX_SECS < self.secs {
            return false;
        }
        if self.nanos < NANOS_PER_SEC {
            return true;
        }
        // The calendar begins with a whole minute.
        let from_start: u64 = (self.secs - MIN_SECS) as u64;
        self.nanos < 2_000_000_000 && from_start % 60 == 59
    }

    fn day_second(&self) -> (s: u64)
        requires
            self.wf(),
        ensures
            s == self.second_of_day(),
    {
        let from_start: u64 = (self.secs - MIN_SECS) as u64;
        from_start % 86400
    }

    /// The nanoseconds from `earlier` to this point in time.
    pub fn nanos_from(&self, earlier: &Timestamp) -> (n: i128)
        requires
            self.wf(),
            earlier.wf(),
        ensures
            n == self.nanos_since(*earlier),
    {
        let a: u64 = self.day_second();
        let b: u64 = earlier.day_second();
        let leap: i128 = if a > b && earlier.nanos >= NANOS_PER_SEC {
            1
        } else if a < b && self.nanos >= NANOS_PER_SEC {
            -1
        } else {
            0
        };
        (self.secs as i128 - earlier.secs as i128 + leap) * NANOS_PER_SEC as i128
            + self.nanos as i128 - earlier.nanos as i128
    }

    /// The whole seconds from `earlier` to this point in time.
    pub fn secs_from(&self, earlier: &Timestamp) -> (n: i64)
        requires
            self.wf(),
            earlier.wf(),
        ensures
            n == self.secs_since(*earlier),
    {
        let n: i128 = self.nanos_from(earlier);
        if n >= 0 {
            (n as u128 / 1_000_000_000) as i64
        } else {
            let m: i64 = ((-n) as u128 / 1_000_000_000) as i64;
            -m
        }
    }

    /// The point in time `n` seconds earlier.
    pub fn earlier_by(&self, n: u32) -> (r: Timestamp)
        requires
            self.wf(),
            MIN_SECS + n <= self.secs,
            0 < n,
        ensures
            r == self.minus_secs(n as int),
            r.wf(),
    {
        if self.nanos >= NANOS_PER_SEC {
            Timestamp { secs: self.secs + 1 - n as i64, nanos: self.nanos - NANOS_PER_SEC }
        } else {
            Timestamp { secs: self.secs - n as i64, nanos: self.nanos }
        }
    }
}

/// Points in time come before one another exactly as their ranks do.
pub proof fn lemma_rank_orders(a: Timestamp, b: Timestamp)
    ensures
        a.before(b) <==> a.rank() < b.rank(),
        a == b <==> a.rank() == b.rank(),
{
}

impl Span {
    /// Whether the parts are those of one length of time, within what milliseconds of 64
    /// bits can count.
    pub open spec fn wf(self) -> bool {
        &&& self.nanos < NANOS_PER_SEC
        &&& -9223372036854776 <= self.secs <= 9223372036854775
    }

    /// The length in nanoseconds.
    pub open spec fn total_nanos(self) -> int {
        self.secs * NANOS_PER_SEC + self.nanos
    }

    /// The whole minutes of it, rounded towards zero.
    pub open spec fn whole_minutes(self) -> int {
        trunc_div(trunc_div(self.total_nanos(), NANOS_PER_SEC as int), 60)
    }

    /// Decides whether the parts are those of one length of time.
    pub fn is_valid(&self) -> (r: bool)
        ensures
            r == self.wf(),
    {
        self.nanos < NANOS_PER_SEC && -9223372036854776 <= self.secs && self.secs
            <= 9223372036854775
    }

    /// The length in nanoseconds.
    pub fn nanos_number(&self) -> (n: i128)
        ensures
            n == self.total_nanos(),
    {
        self.secs as i128 * 1_000_000_000 + self.nanos as i128
    }

    /// The whole minutes of it.
    pub fn num_minutes(&self) -> (m: i64)
        requires
            self.wf(),
        ensures
            m == self.whole_minutes(),
    {
        let n: i128 = self.nanos_number();
        if n >= 0 {
            ((n as u128 / 1_000_000_000) / 60) as i64
        } else {
            let s: u128 = (-n) as u128 / 1_000_000_000;
            let m: i64 = (s / 60) as i64;
            assert(trunc_div(n as int, NANOS_PER_SEC as int) == -(s as int));
            assert(trunc_div(-(s as int), 60) == -(m as int));
            -m
        }
    }
}

// ---------------------------------------------------------------------------
// Points in time as text
// ---------------------------------------------------------------------------

/// The point in time that a text in the notation of RFC 3339 names, if it is one.
pub uninterp spec fn rfc3339_instant(text: Seq<char>) -> Option<Timestamp>;

/// A point in time in the notation of RFC 3339, in UTC.
pub uninterp spec fn rfc3339_text(t: Timestamp) -> Seq<char>;

/// `chrono::DateTime::parse_from_rfc3339`: the result depends on the text alone; what it
/// reads is a point in time of the calendar.
#[verifier::external_body]
pub(crate) fn parse_rfc3339(text: &str) -> (r: Option<Timestamp>)
    ensures
        r == rfc3339_instant(text@),
        r matches Some(t) ==> t.wf(),
{
    match chrono::DateTime::parse_from_rfc3339(text) {
        Ok(d) => Some(Timestamp { secs: d.timestamp(), nanos: d.timestamp_subsec_nanos() }),
        Err(_) => None,
    }
}

/// `chrono::DateTime::to_rfc3339`, of a point in time in UTC: the result depends on the
/// point in time alone, and where the year has four digits it is read back as the same
/// point in time. Of other years, which RFC 3339 cannot name, nothing more is said.
#[verifier::external_body]
fn format_rfc3339(t: &Timestamp) -> (r: String)
    requires
        t.wf(),
    ensures
        r@ == rfc3339_text(*t),
        t.in_four_digit_years() ==> rfc3339_instant(r@) == Some(*t),
{
    chrono::DateTime::from_timestamp(t.secs, t.nanos).unwrap().to_rfc3339()
}

impl Timestamp {
    /// This point in time in the notation of RFC 3339, in UTC.
    pub fn to_rfc3339(&self) -> (r: String)
        requires
            self.wf(),
        ensures
            r@ == rfc3339_text(*self),
            self.in_four_digit_years() ==> rfc3339_instant(r@) == Some(*self),
    {
        format_rfc3339(self)
    }
}

/// The point in time `millis` milliseconds after 1970-01-01T00:00:00 in UTC, where the
/// calendar has it.
pub open spec fn instant_of_millis(millis: int) -> Option<Timestamp> {
    if MIN_SECS <= millis / 1000 <= MAX_SECS {
        Some(
            Timestamp {
                secs: (millis / 1000) as i64,
                nanos: (millis % 1000 * 1_000_000) as u32,
            },
        )
    } else {
        None
    }
}

/// `chrono::DateTime::from_timestamp_millis`: seconds are rounded down, the rest is the
/// nanoseconds, and there is no result beyond the calendar's first and last year.
#[verifier::external_body]
pub(crate) fn timestamp_of_millis(millis: i64) -> (r: Option<Timestamp>)
    ensures
        r == instant_of_millis(millis as int),
{
    chrono::DateTime::from_timestamp_millis(millis).map(
        |d| Timestamp { secs: d.timestamp(), nanos: d.timestamp_subsec_nanos() },
    )
}

/// The time between two points in time, where neither is in a leap second: the difference
/// of their nanoseconds since 1970, and in whole seconds the part of it that is full,
/// whichever of the two comes first.
pub proof fn law_time_between(a: Timestamp, b: Timestamp)
    requires
        a.nanos < 1_000_000_000,
        b.nanos < 1_000_000_000,
    ensures
        ({
            let passed = (b.secs * 1_000_000_000 + b.nanos) - (a.secs * 1_000_000_000 + a.nanos);
            &&& b.nanos_since(a) == passed
            &&& passed >= 0 ==> b.secs_since(a) * 1_000_000_000 <= passed < (b.secs_since(a) + 1)
                * 1_000_000_000
            &&& b.secs_since(a) == -a.secs_since(b)
            &&& a.before(b) <==> passed > 0
            &&& a.rank() < b.rank() <==> passed > 0
        }),
{
}

/// Going back `n` seconds goes back that many on the clock, and never ends in a leap
/// second; where none was left, looking forward again gives `n` seconds.
pub proof fn law_minus_secs_is_undone(t: Timestamp, n: int)
    requires
        t.nanos < 2_000_000_000,
        i64::MIN <= t.secs - n < i64::MAX,
    ensures
        ({
            let ago = t.minus_secs(n);
            &&& (t.secs * 1_000_000_000 + t.nanos) - (ago.secs * 1_000_000_000 + ago.nanos) == n
                * 1_000_000_000
            &&& ago.nanos < 1_000_000_000
            &&& t.nanos < 1_000_000_000 ==> t.nanos_since(ago) == n * 1_000_000_000
        }),
{
}

/// The whole minutes of a length of time: the full ones, whichever way it goes.
pub proof fn law_whole_minutes_are_full(s: Span)
    requires
        s.nanos < 1_000_000_000,
    ensures
        s.secs >= 0 ==> s.whole_minutes() * 60 <= s.secs < (s.whole_minutes() + 1) * 60,
        s.secs < 0 ==> (s.whole_minutes() - 1) * 60_000_000_000 < s.secs * 1_000_000_000 + s.nanos
            <= s.whole_minutes() * 60_000_000_000,
{
    let n = s.total_nanos();
    if s.secs >= 0 {
        assert(n / 1_000_000_000 == s.secs);
    } else {
        assert((-n) / 1_000_000_000 / 60 == (-n) / 60_000_000_000);
    }
}

/// A point in time that was counted in milliseconds counts as many since 1970.
pub proof fn law_millis_are_kept(millis: int)
    ensures
        instant_of_millis(millis) is Some <==> MIN_SECS * 1000 <= millis < (MAX_SECS + 1) * 1000,
        instant_of_millis(millis) matches Some(t) ==> t.wf() && t.secs * 1_000_000_000 + t.nanos
            == millis * 1_000_000,
{
}

/// From within a leap second to a point that stands later in the day, a second more has
/// passed than the clocks tell; up to a leap second, none. Looked at the other way round,
/// the time between is the same with the other sign.
pub proof fn law_leap_seconds_count(a: Timestamp, b: Timestamp)
    requires
        b.secs as int % 86400 > a.secs as int % 86400,
    ensures
        ({
            let plain = (b.secs * 1_000_000_000 + b.nanos) - (a.secs * 1_000_000_000 + a.nanos);
            &&& a.nanos >= 1_000_000_000 ==> b.nanos_since(a) == plain + 1_000_000_000
            &&& a.nanos < 1_000_000_000 ==> b.nanos_since(a) == plain
            &&& a.nanos_since(b) == -b.nanos_since(a)
        }),
{
}

/// Between two points in the same second of the day, what the clocks tell has passed.
pub proof fn law_same_second_of_day(a: Timestamp, b: Timestamp)
    requires
        b.secs as int % 86400 == a.secs as int % 86400,
    ensures
        b.nanos_since(a) == (b.secs * 1_000_000_000 + b.nanos) - (a.secs * 1_000_000_000
            + a.nanos),
{
}

} // verus!
