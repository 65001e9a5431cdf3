//! What the dashboard shows, as pieces of styled text.

use vstd::prelude::*;
use vstd::string::*;

use crate::activity::SortMode;
use crate::decimal::{decimal, decimal_text, signed_decimal, signed_decimal_text};
use crate::feed::{type_color, Color, FeedEvent, FeedItem, RepoSummary};
use crate::text::{concat, cut, cut_off, pad, padded};
use crate::time::{law_whole_minutes_are_full, trunc_div};
use crate::tui::App;

verus! {

/// A piece of text in one style.
#[derive(Debug)]
pub struct Piece {
    pub text: String,
    /// The colour, where it is not the terminal's own.
    pub color: Option<Color>,
    pub bold: bool,
}

/// What a piece says, and in what style.
pub open spec fn piece(p: Piece) -> (Seq<char>, Option<Color>, bool) {
    (p.text@, p.color, p.bold)
}

/// What pieces say, and in what styles.
pub open spec fn pieces(v: Seq<Piece>) -> Seq<(Seq<char>, Option<Color>, bool)> {
    v.map_values(|p: Piece| piece(p))
}

fn styled(text: &str, color: Color) -> (r: Piece)
    ensures
        piece(r) == (text@, Some(color), false),
{
    Piece { text: text.to_owned(), color: Some(color), bold: false }
}

fn bold(text: &str, color: Color) -> (r: Piece)
    ensures
        piece(r) == (text@, Some(color), true),
{
    Piece { text: text.to_owned(), color: Some(color), bold: true }
}

fn raw(text: &str) -> (r: Piece)
    ensures
        piece(r) == (text@, None::<Color>, false),
{
    Piece { text: text.to_owned(), color: None, bold: false }
}

/// The text between two others.
fn between(before: &str, text: &str, after: &str) -> (r: String)
    ensures
        r@ == before@ + text@ + after@,
{
    let mut r = concat(before, text);
    r.append(after);
    r
}

/// The remainder of a division that rounds towards zero.
pub open spec fn trunc_rem(a: int, b: int) -> int {
    a - b * trunc_div(a, b)
}

fn div_60(m: i64) -> (r: (i64, i64))
    ensures
        r.0 == trunc_div(m as int, 60),
        r.1 == trunc_rem(m as int, 60),
{
    if m >= 0 {
        let n: u64 = m as u64;
        ((n / 60) as i64, (n % 60) as i64)
    } else {
        let n: u64 = if m == i64::MIN {
            0x8000_0000_0000_0000
        } else {
            (-m) as u64
        };
        let q: i64 = (n / 60) as i64;
        let r: i64 = (n % 60) as i64;
        (-q, -r)
    }
}

// ---------------------------------------------------------------------------
// Header and footer
// ---------------------------------------------------------------------------

/// The line at the top, at the time that is written as `now`.
pub open spec fn header(app: App, now: Seq<char>) -> Seq<(Seq<char>, Option<Color>, bool)> {
    seq![
        (" blackbox live "@, Some(Color::Cyan), true),
        (" "@ + now + " "@, None, false),
        if app.daemon_running {
            (" daemon: running "@, Some(Color::Green), false)
        } else {
            (" daemon: stopped "@, Some(Color::Red), false)
        },
        match app.active_repo {
            Some(name) => (" active: "@ + name@ + " "@, Some(Color::Cyan), false),
            None => (" no activity "@, Some(Color::DarkGray), false),
        },
        (
            " ~"@ + signed_decimal(trunc_div(app.total_time_mins as int, 60)) + "h "@
                + signed_decimal(trunc_rem(app.total_time_mins as int, 60)) + "m "@,
            Some(Color::White),
            true,
        ),
    ]
}

/// Writes the line at the top.
pub fn render_header(app: &App, now: &str) -> (r: Vec<Piece>)
    ensures
        pieces(r@) == header(*app, now@),
{
    let mut r: Vec<Piece> = Vec::new();
    r.push(bold(" blackbox live ", Color::Cyan));
    r.push(raw(between(" ", now, " ").as_str()));
    r.push(
        if app.daemon_running {
            styled(" daemon: running ", Color::Green)
        } else {
            styled(" daemon: stopped ", Color::Red)
        },
    );
    r.push(
        match &app.active_repo {
            Some(name) => styled(between(" active: ", name.as_str(), " ").as_str(), Color::Cyan),
            None => styled(" no activity ", Color::DarkGray),
        },
    );
    let (hours, mins) = div_60(app.total_time_mins);
    let mut time = between(" ~", signed_decimal_text(hours).as_str(), "h ");
    time.append(signed_decimal_text(mins).as_str());
    time.append("m ");
    r.push(bold(time.as_str(), Color::White));
    assert(pieces(r@) =~= header(*app, now@));
    r
}

/// The line at the bottom.
pub open spec fn footer(mode: SortMode) -> Seq<(Seq<char>, Option<Color>, bool)> {
    seq![
        (" q"@, Some(Color::Yellow), false),
        (" quit  "@, None, false),
        ("r"@, Some(Color::Yellow), false),
        (" refresh  "@, None, false),
        ("s"@, Some(Color::Yellow), false),
        (" sort: "@ + mode.name() + "  "@, None, false),
        ("j/k"@, Some(Color::Yellow), false),
        (" scroll  "@, None, false),
        ("\u{2191}/\u{2193}"@, Some(Color::Yellow), false),
        (" scroll"@, None, false),
    ]
}

/// Writes the line at the bottom.
pub fn render_footer(sort_mode: SortMode) -> (r: Vec<Piece>)
    ensures
        pieces(r@) == footer(sort_mode),
{
    let mut r: Vec<Piece> = Vec::new();
    r.push(styled(" q", Color::Yellow));
    r.push(raw(" quit  "));
    r.push(styled("r", Color::Yellow));
    r.push(raw(" refresh  "));
    r.push(styled("s", Color::Yellow));
    r.push(raw(between(" sort: ", sort_mode.label(), "  ").as_str()));
    r.push(styled("j/k", Color::Yellow));
    r.push(raw(" scroll  "));
    r.push(styled("\u{2191}/\u{2193}", Color::Yellow));
    r.push(raw(" scroll"));
    assert(pieces(r@) =~= footer(sort_mode));
    r
}

// ---------------------------------------------------------------------------
// Body
// ---------------------------------------------------------------------------

/// What the body shows in place of everything else, where there is an error: each piece a
/// line.
pub open spec fn error_lines(error: Seq<char>) -> Seq<(Seq<char>, Option<Color>, bool)> {
    seq![
        (""@, None, false),
        ("  Error: "@ + error, Some(Color::Red), false),
        (""@, None, false),
        ("  Run 'blackbox setup' to configure, or check your data directory."@, None, false),
    ]
}

/// Writes the error that the body shows in place of everything else, if there is one.
pub fn render_error(app: &App) -> (r: Option<Vec<Piece>>)
    ensures
        match app.error {
            Some(e) => r matches Some(v) && pieces(v@) == error_lines(e@),
            None => r is None,
        },
{
    match &app.error {
        None => None,
        Some(e) => {
            let mut r: Vec<Piece> = Vec::new();
            r.push(raw(""));
            r.push(styled(concat("  Error: ", e.as_str()).as_str(), Color::Red));
            r.push(raw(""));
            r.push(raw("  Run 'blackbox setup' to configure, or check your data directory."));
            assert(pieces(r@) =~= error_lines(e@));
            Some(r)
        },
    }
}

/// The time worked on a repository: hours and minutes, or minutes.
pub open spec fn time_text(mins: int) -> Seq<char> {
    if trunc_div(mins, 60) > 0 {
        "~"@ + signed_decimal(trunc_div(mins, 60)) + "h "@ + signed_decimal(trunc_rem(mins, 60))
            + "m"@
    } else {
        "~"@ + signed_decimal(trunc_rem(mins, 60)) + "m"@
    }
}

/// Tells the time worked on a repository.
pub fn format_time(mins: i64) -> (r: String)
    ensures
        r@ == time_text(mins as int),
{
    let (h, m) = div_60(mins);
    if h > 0 {
        let mut r = between("~", signed_decimal_text(h).as_str(), "h ");
        r.append(signed_decimal_text(m).as_str());
        r.append("m");
        r
    } else {
        between("~", signed_decimal_text(m).as_str(), "m")
    }
}

/// A row of the table of repositories: name, commits, time.
pub open spec fn repo_row(repo: RepoSummary) -> (Seq<char>, Seq<char>, Seq<char>) {
    (
        repo.repo_name@,
        decimal(repo.commits as nat),
        time_text(repo.estimated_time.whole_minutes()),
    )
}

/// The texts of rows.
pub open spec fn row_texts(v: Seq<(String, String, String)>) -> Seq<
    (Seq<char>, Seq<char>, Seq<char>),
> {
    v.map_values(|e: (String, String, String)| (e.0@, e.1@, e.2@))
}

/// The rows of the table of repositories.
pub open spec fn repo_rows(repos: Seq<RepoSummary>) -> Seq<(Seq<char>, Seq<char>, Seq<char>)> {
    repos.map_values(|r: RepoSummary| repo_row(r))
}

/// Writes the rows of the table of repositories.
fn table_rows(repos: &Vec<RepoSummary>) -> (r: Vec<(String, String, String)>)
    requires
        forall|i: int| 0 <= i < repos@.len() ==> (#[trigger] repos@[i]).wf(),
    ensures
        row_texts(r@) == repo_rows(repos@),
{
    let mut r: Vec<(String, String, String)> = Vec::new();
    let mut i: usize = 0;
    while i < repos.len()
        invariant
            i <= repos.len(),
            forall|j: int| 0 <= j < repos@.len() ==> (#[trigger] repos@[j]).wf(),
            row_texts(r@) =~= repo_rows(repos@).take(i as int),
        decreases repos.len() - i,
    {
        let ghost before = row_texts(r@);
        let repo = &repos[i];
        assert(repos@[i as int].wf());
        r.push(
            (
                repo.repo_name.clone(),
                decimal_text(repo.commits as u64),
                format_time(repo.estimated_time.num_minutes()),
            ),
        );
        assert(row_texts(r@) =~= before.push(repo_row(*repo)));
        i = i + 1;
    }
    assert(repo_rows(repos@).take(i as int) =~= repo_rows(repos@));
    r
}

/// What the table says where there are no repositories: each piece a line.
pub open spec fn no_repo_lines() -> Seq<(Seq<char>, Option<Color>, bool)> {
    seq![
        (""@, None, false),
        ("  No activity recorded today"@, Some(Color::DarkGray), false),
        (""@, None, false),
        ("  Check daemon: blackbox status"@, Some(Color::DarkGray), false),
    ]
}

/// Writes what the table says where there are no repositories.
fn render_no_repos() -> (r: Vec<Piece>)
    ensures
        pieces(r@) == no_repo_lines(),
{
    let mut r: Vec<Piece> = Vec::new();
    r.push(raw(""));
    r.push(styled("  No activity recorded today", Color::DarkGray));
    r.push(raw(""));
    r.push(styled("  Check daemon: blackbox status", Color::DarkGray));
    assert(pieces(r@) =~= no_repo_lines());
    r
}

/// What the table of repositories shows.
#[derive(Debug)]
pub enum RepoTable {
    /// A message, each piece a line.
    Message(Vec<Piece>),
    /// The rows: name, commits, time.
    Rows(Vec<(String, String, String)>),
}

/// Writes the table of repositories: a row for each, or a message where there are none.
pub fn render_repo_table(app: &App) -> (r: RepoTable)
    requires
        forall|i: int| 0 <= i < app.repos@.len() ==> (#[trigger] app.repos@[i]).wf(),
    ensures
        match r {
            RepoTable::Message(m) => app.repos@.len() == 0 && pieces(m@) == no_repo_lines(),
            RepoTable::Rows(rows) => app.repos@.len() > 0 && row_texts(rows@) == repo_rows(
                app.repos@,
            ),
        },
{
    if app.repos.len() == 0 {
        RepoTable::Message(render_no_repos())
    } else {
        RepoTable::Rows(table_rows(&app.repos))
    }
}

/// The width of a column of the feed.
pub const FEED_COLUMN: usize = 14;

/// The most characters that the feed shows of a message.
pub const MESSAGE_LIMIT: usize = 40;

/// The branch of an event, in the feed.
pub open spec fn branch_text(branch: Option<Seq<char>>) -> Seq<char> {
    match branch {
        Some(b) => " ["@ + b + "]"@,
        None => seq![],
    }
}

/// The message of an event, in the feed.
pub open spec fn message_text(message: Option<Seq<char>>) -> Seq<char> {
    match message {
        Some(m) => " "@ + cut_off(m, MESSAGE_LIMIT as nat),
        None => seq![],
    }
}

/// How many events an entry of the feed stands for, where it is more than one.
pub open spec fn count_text(count: nat) -> Seq<char> {
    if count > 1 {
        " (x"@ + decimal(count) + ")"@
    } else {
        seq![]
    }
}

/// An entry of the feed, whose time is written as `time`.
pub open spec fn feed_line(ev: FeedItem, time: Seq<char>) -> Seq<
    (Seq<char>, Option<Color>, bool),
> {
    seq![
        (time + " "@, Some(Color::DarkGray), false),
        (padded(ev.repo_name, FEED_COLUMN as nat), Some(Color::White), false),
        (padded(ev.event_type, FEED_COLUMN as nat), Some(type_color(ev.event_type)), false),
        (branch_text(ev.branch), Some(Color::Yellow), false),
        (message_text(ev.message), None, false),
        (count_text(ev.count), Some(Color::DarkGray), false),
    ]
}

/// Writes an entry of the feed.
pub fn render_feed_event(ev: &FeedEvent, time: &str) -> (r: Vec<Piece>)
    ensures
        pieces(r@) == feed_line(ev@, time@),
{
    let branch = match &ev.branch {
        Some(b) => between(" [", b.as_str(), "]"),
        None => String::new(),
    };
    let message = match &ev.message {
        Some(m) => concat(" ", cut(m.as_str(), MESSAGE_LIMIT).as_str()),
        None => String::new(),
    };
    let count = if ev.count > 1 {
        between(" (x", decimal_text(ev.count as u64).as_str(), ")")
    } else {
        String::new()
    };
    let mut r: Vec<Piece> = Vec::new();
    r.push(styled(concat(time, " ").as_str(), Color::DarkGray));
    r.push(styled(pad(ev.repo_name.as_str(), FEED_COLUMN).as_str(), Color::White));
    r.push(styled(pad(ev.event_type.as_str(), FEED_COLUMN).as_str(), ev.color()));
    r.push(styled(branch.as_str(), Color::Yellow));
    r.push(raw(message.as_str()));
    r.push(styled(count.as_str(), Color::DarkGray));
    assert(pieces(r@) =~= feed_line(ev@, time@));
    r
}

/// Writes all entries of the feed, whose times are written as `times`.
fn feed_lines(events: &Vec<FeedEvent>, times: &Vec<String>) -> (r: Vec<Vec<Piece>>)
    requires
        times@.len() == events@.len(),
    ensures
        r@.len() == events@.len(),
        forall|i: int|
            0 <= i < r@.len() ==> pieces((#[trigger] r@[i])@) == feed_line(
                events@[i]@,
                times@[i]@,
            ),
{
    let mut r: Vec<Vec<Piece>> = Vec::new();
    let mut i: usize = 0;
    while i < events.len()
        invariant
            i <= events.len(),
            times@.len() == events@.len(),
            r@.len() == i,
            forall|j: int|
                0 <= j < i ==> pieces((#[trigger] r@[j])@) == feed_line(events@[j]@, times@[j]@),
        decreases events.len() - i,
    {
        r.push(render_feed_event(&events[i], times[i].as_str()));
        i = i + 1;
    }
    r
}

/// What the feed says where there are no events: each piece a line.
pub open spec fn no_event_lines() -> Seq<(Seq<char>, Option<Color>, bool)> {
    seq![(""@, None, false), ("  No events yet"@, Some(Color::DarkGray), false)]
}

/// Writes what the feed says where there are no events.
fn render_no_events() -> (r: Vec<Piece>)
    ensures
        pieces(r@) == no_event_lines(),
{
    let mut r: Vec<Piece> = Vec::new();
    r.push(raw(""));
    r.push(styled("  No events yet", Color::DarkGray));
    assert(pieces(r@) =~= no_event_lines());
    r
}

/// What the feed shows.
#[derive(Debug)]
pub enum EventsFeed {
    /// A message, each piece a line.
    Message(Vec<Piece>),
    /// The entries.
    Entries(Vec<Vec<Piece>>),
}

/// Writes the feed, the times of whose events are written as `times`: an entry for each
/// event, or a message where there are none.
pub fn render_events_feed(app: &App, times: &Vec<String>) -> (r: EventsFeed)
    requires
        times@.len() == app.feed_events@.len(),
    ensures
        match r {
            EventsFeed::Message(m) => app.feed_events@.len() == 0 && pieces(m@)
                == no_event_lines(),
            EventsFeed::Entries(v) => {
                &&& app.feed_events@.len() > 0
                &&& v@.len() == app.feed_events@.len()
                &&& forall|i: int|
                    0 <= i < v@.len() ==> pieces((#[trigger] v@[i])@) == feed_line(
                        app.feed_events@[i]@,
                        times@[i]@,
                    )
            },
        },
{
    if app.feed_events.len() == 0 {
        EventsFeed::Message(render_no_events())
    } else {
        EventsFeed::Entries(feed_lines(&app.feed_events, times))
    }
}

/// No entry of the feed shows more of a message than the limit and the mark that it was
/// cut.
pub proof fn law_messages_are_short(message: Option<Seq<char>>)
    ensures
        message_text(message).len() <= 1 + MESSAGE_LIMIT + 1,
{
    reveal_strlit(" ");
}

/// The line at the top tells what it is asked: the time, whether the daemon runs, in which
/// repository the last thing happened, and the time worked in hours and minutes.
pub proof fn law_header_tells_the_state(app: App, now: Seq<char>, hours: nat, mins: nat)
    requires
        app.total_time_mins == hours * 60 + mins,
        mins < 60,
    ensures
        header(app, now).len() == 5,
        header(app, now)[1].0 == " "@ + now + " "@,
        app.daemon_running ==> header(app, now)[2].0 == " daemon: running "@ && header(
            app,
            now,
        )[2].1 == Some(Color::Green),
        !app.daemon_running ==> header(app, now)[2].0 == " daemon: stopped "@ && header(
            app,
            now,
        )[2].1 == Some(Color::Red),
        app.active_repo matches Some(name) ==> header(app, now)[3].0 == " active: "@ + name@
            + " "@ && header(app, now)[3].1 == Some(Color::Cyan),
        app.active_repo is None ==> header(app, now)[3].0 == " no activity "@ && header(
            app,
            now,
        )[3].1 == Some(Color::DarkGray),
        forall|i: int|
            0 <= i < 5 ==> ((#[trigger] header(app, now)[i]).2 <==> i == 0 || i == 4),
        header(app, now)[4].0 == " ~"@ + decimal(hours) + "h "@ + decimal(mins) + "m "@,
{
    assert((hours * 60 + mins) / 60 == hours);
}

/// The time worked on a repository reads as hours and minutes from an hour on, and as
/// minutes below; of a negative time only the minutes are told.
pub proof fn law_time_by_parts(hours: nat, mins: nat)
    requires
        mins < 60,
    ensures
        hours > 0 ==> time_text((hours * 60 + mins) as int) == "~"@ + decimal(hours) + "h "@
            + decimal(mins) + "m"@,
        time_text(mins as int) == "~"@ + decimal(mins) + "m"@,
        time_text(-((hours * 60 + mins) as int)) == "~"@ + signed_decimal(-(mins as int)) + "m"@,
{
    assert((hours * 60 + mins) / 60 == hours);
}

/// The table has a row for each repository, in order, with its name, the number of its
/// commits and the full minutes worked on it.
pub proof fn law_rows_tell_the_repositories(
    repos: Seq<RepoSummary>,
    i: int,
    hours: nat,
    mins: nat,
    secs: nat,
)
    requires
        0 <= i < repos.len(),
        repos[i].estimated_time.secs == hours * 3600 + mins * 60 + secs,
        repos[i].estimated_time.nanos < 1_000_000_000,
        mins < 60,
        secs < 60,
    ensures
        repo_rows(repos).len() == repos.len(),
        repo_rows(repos)[i].0 == repos[i].repo_name@,
        repo_rows(repos)[i].1 == decimal(repos[i].commits as nat),
        repo_rows(repos)[i].2 == if hours > 0 {
            "~"@ + decimal(hours) + "h "@ + decimal(mins) + "m"@
        } else {
            "~"@ + decimal(mins) + "m"@
        },
{
    law_whole_minutes_are_full(repos[i].estimated_time);
    assert(repos[i].estimated_time.whole_minutes() == hours * 60 + mins);
    law_time_by_parts(hours, mins);
}

/// An entry of the feed tells its time, its repository, its type, its branch and its
/// message where it has them, and how many events it stands for where it is more than one.
/// Names are filled up to their columns and never cut, and a message is cut after forty
/// characters.
pub proof fn law_feed_line_tells_the_event(ev: FeedItem, time: Seq<char>)
    ensures
        ({
            let line = feed_line(ev, time);
            &&& line.len() == 6
            &&& line[0].0 == time + " "@
            &&& ev.repo_name.is_prefix_of(line[1].0)
            &&& line[1].0.len() == if ev.repo_name.len() < 14 {
                14
            } else {
                ev.repo_name.len()
            }
            &&& ev.event_type.is_prefix_of(line[2].0)
            &&& line[2].0.len() == if ev.event_type.len() < 14 {
                14
            } else {
                ev.event_type.len()
            }
            &&& line[2].1 == Some(type_color(ev.event_type))
            &&& ev.branch matches Some(b) ==> line[3].0 == " ["@ + b + "]"@
            &&& ev.branch is None ==> line[3].0.len() == 0
            &&& ev.message matches Some(m) ==> line[4].0 == " "@ + if m.len() <= 40 {
                m
            } else {
                m.take(40).push('\u{2026}')
            }
            &&& ev.message is None ==> line[4].0.len() == 0
            &&& ev.count >= 2 ==> line[5].0 == " (x"@ + decimal(ev.count) + ")"@
            &&& ev.count < 2 ==> line[5].0.len() == 0
        }),
{
}

/// The line at the bottom names the order that the repositories stand in.
pub proof fn law_footer_names_the_order(mode: SortMode)
    ensures
        footer(mode)[5].0 == " sort: "@ + (match mode {
            SortMode::Recent => "recent"@,
            SortMode::Time => "time"@,
            SortMode::Commits => "commits"@,
        }) + "  "@,
{
}

/// An error is shown in full, in red.
pub proof fn law_error_is_shown_in_full(error: Seq<char>)
    ensures
        exists|i: int|
            0 <= i < error_lines(error).len() && (#[trigger] error_lines(error)[i]).0
                == "  Error: "@ + error && error_lines(error)[i].1 == Some(Color::Red),
{
    assert(error_lines(error)[1].0 == "  Error: "@ + error);
}

} // verus!
