//! The daily notification: sent once a day, from the configured time on.

use vstd::prelude::*;
use vstd::string::*;

use crate::config::Config;
use crate::decimal::{parse_uint, parsed_uint};
use crate::text::{
    law_split_around, law_split_is_undone, lemma_first_of_unique, split, split_at_char, texts,
};

verus! {

/// What is wrong with a configured time of day.
#[derive(Debug, Clone, Copy, PartialEq, Eq, Structural)]
pub enum TimeError {
    /// It is not two parts with a colon between them.
    BadFormat,
    BadHour,
    BadMinute,
    /// There is no such hour or no such minute.
    OutOfRange,
}

impl TimeError {
    /// What is said of a configured time that is no time of day.
    pub open spec fn text(self, time: Seq<char>) -> Seq<char> {
        match self {
            TimeError::BadFormat => "Invalid notification_time format '"@ + time
                + "': expected HH:MM"@,
            TimeError::BadHour => "Invalid notification_time '"@ + time + "': bad hour"@,
            TimeError::BadMinute => "Invalid notification_time '"@ + time + "': bad minute"@,
            TimeError::OutOfRange => "Invalid notification_time '"@ + time + "': out of range"@,
        }
    }

    /// Says what is wrong with the configured time.
    pub fn message(&self, time: &str) -> (r: String)
        ensures
            r@ == self.text(time@),
    {
        let mut r = match self {
            TimeError::BadFormat => "Invalid notification_time format '".to_owned(),
            _ => "Invalid notification_time '".to_owned(),
        };
        r.append(time);
        match self {
            TimeError::BadFormat => r.append("': expected HH:MM"),
            TimeError::BadHour => r.append("': bad hour"),
            TimeError::BadMinute => r.append("': bad minute"),
            TimeError::OutOfRange => r.append("': out of range"),
        }
        r
    }
}

/// The hour and the minute that a text of the form "HH:MM" names, whether or not the day
/// has them.
pub open spec fn clock_parts(text: Seq<char>) -> Result<(nat, nat), TimeError> {
    let parts = split_at_char(text, ':');
    if parts.len() != 2 {
        Err(TimeError::BadFormat)
    } else {
        match (parsed_uint(parts[0], u32::MAX as nat), parsed_uint(parts[1], u32::MAX as nat)) {
            (Err(_), _) => Err(TimeError::BadHour),
            (_, Err(_)) => Err(TimeError::BadMinute),
            (Ok(h), Ok(m)) => Ok((h, m)),
        }
    }
}

/// The second of the day that a text of the form "HH:MM" names.
pub open spec fn clock_second(text: Seq<char>) -> Result<nat, TimeError> {
    match clock_parts(text) {
        Err(e) => Err(e),
        Ok((h, m)) => if h < 24 && m < 60 {
            Ok(h * 3600 + m * 60)
        } else {
            Err(TimeError::OutOfRange)
        },
    }
}

/// Reads a time of day of the form "HH:MM", as the second of the day.
pub fn parse_notification_time(text: &str) -> (r: Result<u32, TimeError>)
    ensures
        match r {
            Ok(s) => clock_second(text@) == Ok::<nat, TimeError>(s as nat),
            Err(e) => clock_second(text@) == Err::<nat, TimeError>(e),
        },
        r matches Ok(s) ==> s < 86400,
{
    let parts = split(text, ':');
    assert(texts(parts@).len() == parts@.len());
    if parts.len() != 2 {
        return Err(TimeError::BadFormat);
    }
    assert(texts(parts@)[0] == parts@[0]@ && texts(parts@)[1] == parts@[1]@);
    let h: u64 = match parse_uint(parts[0].as_str(), u32::MAX as u64) {
        Ok(v) => v,
        Err(_) => return Err(TimeError::BadHour),
    };
    let m: u64 = match parse_uint(parts[1].as_str(), u32::MAX as u64) {
        Ok(v) => v,
        Err(_) => return Err(TimeError::BadMinute),
    };
    if h < 24 && m < 60 {
        Ok((h * 3600 + m * 60) as u32)
    } else {
        Err(TimeError::OutOfRange)
    }
}

/// The answer to whether today's notification was sent.
#[derive(Debug, Clone, Copy, PartialEq, Eq, Structural)]
pub enum SentBefore {
    Yes,
    No,
    /// The record could not be read.
    Failed,
}

/// The summary of the day.
#[derive(Debug)]
pub enum Summary {
    Text(String),
    /// There was no activity.
    Nothing,
    /// It could not be made.
    Failed,
}

/// Why there is nothing left to do.
#[derive(Debug, Clone, Copy, PartialEq, Eq, Structural)]
pub enum NoticeEnd {
    Disabled,
    Unavailable,
    BadTime(TimeError),
    TooEarly,
    AlreadySent,
    RecordUnreadable,
    NothingToSay,
    SummaryFailed,
    /// The notification was sent, or at least tried, and recorded.
    Recorded,
}

/// What the daily notification waits for.
#[derive(Debug)]
pub enum NoticePhase {
    /// Whether notifications can be shown here.
    CheckAvailable,
    /// The time of day.
    ReadClock,
    /// Whether it was sent today.
    CheckSent,
    /// The summary of the day.
    BuildSummary,
    /// The notification, with this text.
    Send(String),
    /// The record that it was sent today.
    Record,
    /// Nothing more.
    Ended(NoticeEnd),
}

/// The outcome of a piece of outside work.
pub enum NoticeEvent {
    Available(bool),
    /// The second of the local day.
    Clock(u32),
    SentBefore(SentBefore),
    Summary(Summary),
    /// The work is done or has failed.
    Done,
}

/// The title of the notification.
pub fn notification_title() -> (s: String)
    ensures
        s@ == "Blackbox Daily Summary"@,
{
    "Blackbox Daily Summary".to_owned()
}

/// The name under which the notification is recorded.
pub fn notification_kind() -> (s: String)
    ensures
        s@ == "daily_summary"@,
{
    "daily_summary".to_owned()
}

/// The first phase.
pub open spec fn notice_start(config: Config) -> NoticePhase {
    if config.notifications_enabled {
        NoticePhase::CheckAvailable
    } else {
        NoticePhase::Ended(NoticeEnd::Disabled)
    }
}

/// The phase that follows. An event that the phase does not wait for changes nothing.
pub open spec fn notice_next(
    config: Config,
    phase: NoticePhase,
    event: NoticeEvent,
) -> NoticePhase {
    match (phase, event) {
        (NoticePhase::CheckAvailable, NoticeEvent::Available(yes)) => if !yes {
            NoticePhase::Ended(NoticeEnd::Unavailable)
        } else {
            match clock_second(config.notification_time@) {
                Ok(_) => NoticePhase::ReadClock,
                Err(e) => NoticePhase::Ended(NoticeEnd::BadTime(e)),
            }
        },
        (NoticePhase::ReadClock, NoticeEvent::Clock(now)) => match clock_second(
            config.notification_time@,
        ) {
            Err(e) => NoticePhase::Ended(NoticeEnd::BadTime(e)),
            Ok(due) => if now < due {
                NoticePhase::Ended(NoticeEnd::TooEarly)
            } else {
                NoticePhase::CheckSent
            },
        },
        (NoticePhase::CheckSent, NoticeEvent::SentBefore(sent)) => match sent {
            SentBefore::Yes => NoticePhase::Ended(NoticeEnd::AlreadySent),
            SentBefore::No => NoticePhase::BuildSummary,
            SentBefore::Failed => NoticePhase::Ended(NoticeEnd::RecordUnreadable),
        },
        (NoticePhase::BuildSummary, NoticeEvent::Summary(summary)) => match summary {
            Summary::Text(body) => NoticePhase::Send(body),
            Summary::Nothing => NoticePhase::Ended(NoticeEnd::NothingToSay),
            Summary::Failed => NoticePhase::Ended(NoticeEnd::SummaryFailed),
        },
        (NoticePhase::Send(_), NoticeEvent::Done) => NoticePhase::Record,
        (NoticePhase::Record, NoticeEvent::Done) => NoticePhase::Ended(NoticeEnd::Recorded),
        _ => phase,
    }
}

/// Starts on the daily notification.
pub fn begin_daily_notification(config: &Config) -> (phase: NoticePhase)
    ensures
        phase == notice_start(*config),
{
    if config.notifications_enabled {
        NoticePhase::CheckAvailable
    } else {
        NoticePhase::Ended(NoticeEnd::Disabled)
    }
}

/// Goes on with the daily notification.
pub fn continue_daily_notification(
    config: &Config,
    phase: NoticePhase,
    event: NoticeEvent,
) -> (next: NoticePhase)
    ensures
        next == notice_next(*config, phase, event),
{
    match (phase, event) {
        (NoticePhase::CheckAvailable, NoticeEvent::Available(yes)) => if !yes {
            NoticePhase::Ended(NoticeEnd::Unavailable)
        } else {
            match parse_notification_time(config.notification_time.as_str()) {
                Ok(_) => NoticePhase::ReadClock,
                Err(e) => NoticePhase::Ended(NoticeEnd::BadTime(e)),
            }
        },
        (NoticePhase::ReadClock, NoticeEvent::Clock(now)) => match parse_notification_time(
            config.notification_time.as_str(),
        ) {
            Err(e) => NoticePhase::Ended(NoticeEnd::BadTime(e)),
            Ok(due) => if now < due {
                NoticePhase::Ended(NoticeEnd::TooEarly)
            } else {
                NoticePhase::CheckSent
            },
        },
        (NoticePhase::CheckSent, NoticeEvent::SentBefore(sent)) => match sent {
            SentBefore::Yes => NoticePhase::Ended(NoticeEnd::AlreadySent),
            SentBefore::No => NoticePhase::BuildSummary,
            SentBefore::Failed => NoticePhase::Ended(NoticeEnd::RecordUnreadable),
        },
        (NoticePhase::BuildSummary, NoticeEvent::Summary(summary)) => match summary {
            Summary::Text(body) => NoticePhase::Send(body),
            Summary::Nothing => NoticePhase::Ended(NoticeEnd::NothingToSay),
            Summary::Failed => NoticePhase::Ended(NoticeEnd::SummaryFailed),
        },
        (NoticePhase::Send(_), NoticeEvent::Done) => NoticePhase::Record,
        (NoticePhase::Record, NoticeEvent::Done) => NoticePhase::Ended(NoticeEnd::Recorded),
        (p, _) => p,
    }
}

/// The phase after a sequence of events.
pub open spec fn notice_after(config: Config, events: Seq<NoticeEvent>) -> NoticePhase
    decreases events.len(),
{
    if events.len() == 0 {
        notice_start(config)
    } else {
        notice_next(config, notice_after(config, events.drop_last()), events.last())
    }
}

/// What must have been answered for a phase to be reached.
pub open spec fn answered(config: Config, events: Seq<NoticeEvent>, phase: NoticePhase) -> bool {
    let past_start = config.notifications_enabled;
    let past_available = past_start && events.contains(NoticeEvent::Available(true))
        && clock_second(config.notification_time@) is Ok;
    let past_clock = past_available && exists|now: u32| #[trigger]
        events.contains(NoticeEvent::Clock(now)) && now >= clock_second(
            config.notification_time@,
        )->Ok_0;
    let past_sent = past_clock && events.contains(NoticeEvent::SentBefore(SentBefore::No));
    let past_summary = past_sent && exists|s: String| #[trigger]
        events.contains(NoticeEvent::Summary(Summary::Text(s)));
    match phase {
        NoticePhase::CheckAvailable => past_start,
        NoticePhase::ReadClock => past_available,
        NoticePhase::CheckSent => past_clock,
        NoticePhase::BuildSummary => past_sent,
        NoticePhase::Send(body) => past_sent && events.contains(
            NoticeEvent::Summary(Summary::Text(body)),
        ),
        NoticePhase::Record => past_summary,
        NoticePhase::Ended(end) => end == NoticeEnd::Recorded ==> past_summary,
    }
}

/// What was answered stays answered.
proof fn lemma_answered_grows(
    config: Config,
    before: Seq<NoticeEvent>,
    after: Seq<NoticeEvent>,
    phase: NoticePhase,
)
    requires
        answered(config, before, phase),
        forall|e: NoticeEvent| before.contains(e) ==> #[trigger] after.contains(e),
    ensures
        answered(config, after, phase),
{
    let due = clock_second(config.notification_time@);
    assert(before.contains(NoticeEvent::Available(true)) ==> after.contains(
        NoticeEvent::Available(true),
    ));
    if exists|now: u32| #[trigger]
        before.contains(NoticeEvent::Clock(now)) && now >= due->Ok_0 {
        let now = choose|now: u32| #[trigger]
            before.contains(NoticeEvent::Clock(now)) && now >= due->Ok_0;
        assert(after.contains(NoticeEvent::Clock(now)) && now >= due->Ok_0);
    }
    assert(before.contains(NoticeEvent::SentBefore(SentBefore::No)) ==> after.contains(
        NoticeEvent::SentBefore(SentBefore::No),
    ));
    if exists|s: String| #[trigger] before.contains(NoticeEvent::Summary(Summary::Text(s))) {
        let s = choose|s: String| #[trigger]
            before.contains(NoticeEvent::Summary(Summary::Text(s)));
        assert(after.contains(NoticeEvent::Summary(Summary::Text(s))));
    }
}

/// Whatever happens, a notification is sent only where notifications are enabled and
/// available, the configured time is a time of day and has come, the record says that
/// none was sent today, and there is a summary: the text that is sent. It is recorded only
/// after that.
pub proof fn law_sent_only_when_due(config: Config, events: Seq<NoticeEvent>)
    ensures
        answered(config, events, notice_after(config, events)),
    decreases events.len(),
{
    if events.len() > 0 {
        let init = events.drop_last();
        law_sent_only_when_due(config, init);
        assert forall|e: NoticeEvent| init.contains(e) implies #[trigger] events.contains(e) by {
            let i = choose|i: int| 0 <= i < init.len() && init[i] == e;
            assert(events[i] == e);
        }
        let last = events.last();
        assert(events[events.len() - 1] == last);
        assert(events.contains(last));
        let before = notice_after(config, init);
        lemma_answered_grows(config, init, events, before);
        match (before, last) {
            (NoticePhase::ReadClock, NoticeEvent::Clock(now)) => {
                assert(events.contains(NoticeEvent::Clock(now)));
            },
            (NoticePhase::Send(body), _) => {
                assert(events.contains(NoticeEvent::Summary(Summary::Text(body))));
            },
            _ => {},
        }
    }
}

/// Where all of that is answered in turn, the notification is sent and recorded.
pub proof fn law_sent_when_due(config: Config, now: u32, body: String)
    requires
        config.notifications_enabled,
        clock_second(config.notification_time@) is Ok,
        now >= clock_second(config.notification_time@)->Ok_0,
    ensures
        ({
            let asked = seq![
                NoticeEvent::Available(true),
                NoticeEvent::Clock(now),
                NoticeEvent::SentBefore(SentBefore::No),
                NoticeEvent::Summary(Summary::Text(body)),
            ];
            &&& notice_after(config, asked) == NoticePhase::Send(body)
            &&& notice_after(config, asked.push(NoticeEvent::Done)) == NoticePhase::Record
            &&& notice_after(config, asked.push(NoticeEvent::Done).push(NoticeEvent::Done))
                == NoticePhase::Ended(NoticeEnd::Recorded)
        }),
{
    let e0 = Seq::<NoticeEvent>::empty();
    let e1 = e0.push(NoticeEvent::Available(true));
    let e2 = e1.push(NoticeEvent::Clock(now));
    let e3 = e2.push(NoticeEvent::SentBefore(SentBefore::No));
    let e4 = e3.push(NoticeEvent::Summary(Summary::Text(body)));
    let e5 = e4.push(NoticeEvent::Done);
    let e6 = e5.push(NoticeEvent::Done);
    assert(e1.drop_last() =~= e0 && e2.drop_last() =~= e1 && e3.drop_last() =~= e2);
    assert(e4.drop_last() =~= e3 && e5.drop_last() =~= e4 && e6.drop_last() =~= e5);
    assert(notice_after(config, e0) == NoticePhase::CheckAvailable);
    assert(notice_after(config, e1) == NoticePhase::ReadClock);
    assert(notice_after(config, e2) == NoticePhase::CheckSent);
    assert(notice_after(config, e3) == NoticePhase::BuildSummary);
    assert(e4 =~= seq![
        NoticeEvent::Available(true),
        NoticeEvent::Clock(now),
        NoticeEvent::SentBefore(SentBefore::No),
        NoticeEvent::Summary(Summary::Text(body)),
    ]);
}

/// Once it was recorded as sent today, it is not sent again: the answer that it was sent
/// ends the matter, and so does every other end.
pub proof fn law_sent_once(config: Config, event: NoticeEvent, end: NoticeEnd)
    ensures
        notice_next(
            config,
            NoticePhase::CheckSent,
            NoticeEvent::SentBefore(SentBefore::Yes),
        ) == NoticePhase::Ended(NoticeEnd::AlreadySent),
        notice_next(config, NoticePhase::Ended(end), event) == NoticePhase::Ended(end),
{
}

/// A time of day is two numbers with one colon between them, the hour and the minute, and
/// each way in which a text is none is told apart: without exactly one colon, with no
/// number for the hour, with none for the minute, or with an hour or a minute that the day
/// does not have.
pub proof fn law_clock_reads_hours_and_minutes(a: Seq<char>, b: Seq<char>, c: Seq<char>)
    requires
        !a.contains(':'),
        !b.contains(':'),
    ensures
        clock_second(a) == Err::<nat, TimeError>(TimeError::BadFormat),
        clock_second(a + seq![':'] + b + seq![':'] + c) == Err::<nat, TimeError>(
            TimeError::BadFormat,
        ),
        clock_second(a + seq![':'] + b) == match (
            parsed_uint(a, u32::MAX as nat),
            parsed_uint(b, u32::MAX as nat),
        ) {
            (Err(_), _) => Err::<nat, TimeError>(TimeError::BadHour),
            (Ok(_), Err(_)) => Err(TimeError::BadMinute),
            (Ok(h), Ok(m)) => if h <= 23 && m <= 59 {
                Ok((60 * (60 * h + m)) as nat)
            } else {
                Err(TimeError::OutOfRange)
            },
        },
{
    lemma_one_part(a);
    lemma_one_part(b);
    law_split_around(a, ':', b);
    let two = a + seq![':'] + b;
    assert(split_at_char(two, ':') =~= seq![a, b]);
    law_split_around(two, ':', c);
    law_split_is_undone(c, ':');
    assert(split_at_char(two + seq![':'] + c, ':').len() > 2);
}

/// A text without a colon is one part.
proof fn lemma_one_part(s: Seq<char>)
    requires
        !s.contains(':'),
    ensures
        split_at_char(s, ':') == seq![s],
{
    assert forall|i: int| 0 <= i < s.len() implies s[i] != ':' by {
        assert(s.contains(s[i]));
    }
    lemma_first_of_unique(s, ':', s.len() as int);
}

/// Each answer leads on or ends the matter with its own reason: where notifications cannot
/// be shown, where the configured time is none, where it has not come, where the record
/// says that it was sent or cannot be read, and where there is no summary. An answer to
/// another question changes nothing.
pub proof fn law_every_end_has_its_reason(config: Config, phase: NoticePhase, event: NoticeEvent)
    ensures
        ({
            let due = clock_second(config.notification_time@);
            let next = notice_next(config, phase, event);
            match (phase, event) {
                (NoticePhase::CheckAvailable, NoticeEvent::Available(yes)) => {
                    &&& !yes ==> next == NoticePhase::Ended(NoticeEnd::Unavailable)
                    &&& yes && due is Ok ==> next == NoticePhase::ReadClock
                    &&& yes && due is Err ==> next == NoticePhase::Ended(
                        NoticeEnd::BadTime(due->Err_0),
                    )
                },
                (NoticePhase::ReadClock, NoticeEvent::Clock(now)) => {
                    &&& due is Ok && now >= due->Ok_0 ==> next == NoticePhase::CheckSent
                    &&& due is Ok && now < due->Ok_0 ==> next == NoticePhase::Ended(
                        NoticeEnd::TooEarly,
                    )
                    &&& due is Err ==> next == NoticePhase::Ended(NoticeEnd::BadTime(due->Err_0))
                },
                (NoticePhase::CheckSent, NoticeEvent::SentBefore(sent)) => {
                    &&& sent is No ==> next == NoticePhase::BuildSummary
                    &&& sent is Yes ==> next == NoticePhase::Ended(NoticeEnd::AlreadySent)
                    &&& sent is Failed ==> next == NoticePhase::Ended(
                        NoticeEnd::RecordUnreadable,
                    )
                },
                (NoticePhase::BuildSummary, NoticeEvent::Summary(summary)) => {
                    &&& summary is Text ==> next == NoticePhase::Send(summary->Text_0)
                    &&& summary is Nothing ==> next == NoticePhase::Ended(NoticeEnd::NothingToSay)
                    &&& summary is Failed ==> next == NoticePhase::Ended(NoticeEnd::SummaryFailed)
                },
                (NoticePhase::Send(_), NoticeEvent::Done) => next == NoticePhase::Record,
                (NoticePhase::Record, NoticeEvent::Done) => next == NoticePhase::Ended(
                    NoticeEnd::Recorded,
                ),
                _ => next == phase,
            }
        }),
        notice_start(config) == NoticePhase::CheckAvailable <==> config.notifications_enabled,
        notice_start(config) == NoticePhase::Ended(NoticeEnd::Disabled)
            <==> !config.notifications_enabled,
{
}

/// What is said of a configured time quotes it, and tells each error apart from the
/// others.
pub proof fn law_time_errors_are_told_apart(a: TimeError, b: TimeError, time: Seq<char>)
    ensures
        a.text(time) == b.text(time) <==> a == b,
        exists|n: int|
            0 <= n <= a.text(time).len() - time.len() && #[trigger] a.text(time).subrange(
                n,
                n + time.len(),
            ) == time,
{
    reveal_strlit("Invalid notification_time format '");
    reveal_strlit("Invalid notification_time '");
    reveal_strlit("': expected HH:MM");
    reveal_strlit("': bad hour");
    reveal_strlit("': bad minute");
    reveal_strlit("': out of range");
    let n: int = if a is BadFormat {
        34
    } else {
        27
    };
    assert(a.text(time).subrange(n, n + time.len()) =~= time);
    assert(TimeError::BadFormat.text(time).len() == 51 + time.len());
    assert(TimeError::BadHour.text(time).len() == 38 + time.len());
    assert(TimeError::BadMinute.text(time).len() == 40 + time.len());
    assert(TimeError::OutOfRange.text(time).len() == 42 + time.len());
}

} // verus!
