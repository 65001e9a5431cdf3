//! The dashboard's data: the repositories of the day, and the feed of their events.

use vstd::prelude::*;
use vstd::string::*;

use crate::decimal::{signed_decimal, signed_decimal_text};
use crate::sorting::{
    law_sorted_by, law_sorting_keeps_the_items, lemma_sorted_by, lemma_sorts_map, sort_descending,
    sorted_by,
};
use crate::text::{opt_text, same_opt_text, same_text};
use crate::time::{law_whole_minutes_are_full, lemma_rank_orders, Span, Timestamp, NANOS_PER_SEC};

verus! {

/// A git event of a repository.
#[derive(Debug)]
pub struct ActivityEvent {
    pub event_type: String,
    pub branch: Option<String>,
    pub message: Option<String>,
    pub timestamp: Timestamp,
}

/// A review of a pull request.
#[derive(Debug)]
pub struct ReviewInfo {
    pub pr_number: i64,
    pub action: String,
    pub reviewed_at: Timestamp,
}

/// A session of an AI tool.
#[derive(Debug, Clone, Copy)]
pub struct AiSessionInfo {
    pub started_at: Timestamp,
    pub ended_at: Option<Timestamp>,
    pub duration: Span,
}

/// What happened in a repository, each list earliest first.
#[derive(Debug)]
pub struct RepoSummary {
    pub repo_name: String,
    pub commits: usize,
    pub estimated_time: Span,
    pub events: Vec<ActivityEvent>,
    pub reviews: Vec<ReviewInfo>,
    pub ai_sessions: Vec<AiSessionInfo>,
}

impl RepoSummary {
    /// Whether all times are those of the calendar.
    pub open spec fn wf(&self) -> bool {
        &&& self.estimated_time.wf()
        &&& forall|i: int| 0 <= i < self.events@.len() ==> (#[trigger] self.events@[i]).timestamp.wf()
        &&& forall|i: int|
            0 <= i < self.reviews@.len() ==> (#[trigger] self.reviews@[i]).reviewed_at.wf()
        &&& forall|i: int|
            0 <= i < self.ai_sessions@.len() ==> (#[trigger] self.ai_sessions@[i]).started_at.wf()
                && self.ai_sessions@[i].duration.wf()
    }
}

impl RepoSummary {
    /// Decides whether all times are those of the calendar.
    pub fn is_valid(&self) -> (r: bool)
        ensures
            r == self.wf(),
    {
        if !self.estimated_time.is_valid() {
            return false;
        }
        let mut i: usize = 0;
        while i < self.events.len()
            invariant
                i <= self.events.len(),
                forall|j: int| 0 <= j < i ==> (#[trigger] self.events@[j]).timestamp.wf(),
            decreases self.events.len() - i,
        {
            if !self.events[i].timestamp.is_valid() {
                return false;
            }
            i = i + 1;
        }
        let mut i: usize = 0;
        while i < self.reviews.len()
            invariant
                i <= self.reviews.len(),
                forall|j: int| 0 <= j < i ==> (#[trigger] self.reviews@[j]).reviewed_at.wf(),
            decreases self.reviews.len() - i,
        {
            if !self.reviews[i].reviewed_at.is_valid() {
                return false;
            }
            i = i + 1;
        }
        let mut i: usize = 0;
        while i < self.ai_sessions.len()
            invariant
                i <= self.ai_sessions.len(),
                forall|j: int|
                    0 <= j < i ==> (#[trigger] self.ai_sessions@[j]).started_at.wf()
                        && self.ai_sessions@[j].duration.wf(),
            decreases self.ai_sessions.len() - i,
        {
            if !self.ai_sessions[i].started_at.is_valid()
                || !self.ai_sessions[i].duration.is_valid() {
                return false;
            }
            i = i + 1;
        }
        true
    }
}

/// Colours of the dashboard.
#[derive(Debug, Clone, Copy, PartialEq, Eq, Structural)]
pub enum Color {
    Black,
    Red,
    Green,
    Yellow,
    Blue,
    Magenta,
    Cyan,
    White,
    DarkGray,
}

/// A flattened event for the recent-events feed.
#[derive(Debug, Clone)]
pub struct FeedEvent {
    pub timestamp: Timestamp,
    pub repo_name: String,
    pub event_type: String,
    pub branch: Option<String>,
    pub message: Option<String>,
    /// How many alike events this one stands for.
    pub count: usize,
}

/// What a feed event says.
pub struct FeedItem {
    pub timestamp: Timestamp,
    pub repo_name: Seq<char>,
    pub event_type: Seq<char>,
    pub branch: Option<Seq<char>>,
    pub message: Option<Seq<char>>,
    pub count: nat,
}

impl View for FeedEvent {
    type V = FeedItem;

    open spec fn view(&self) -> FeedItem {
        FeedItem {
            timestamp: self.timestamp,
            repo_name: self.repo_name@,
            event_type: self.event_type@,
            branch: opt_text(self.branch),
            message: opt_text(self.message),
            count: self.count as nat,
        }
    }
}

/// What feed events say.
pub open spec fn feed_items(v: Seq<FeedEvent>) -> Seq<FeedItem> {
    v.map_values(|e: FeedEvent| e@)
}

/// The colour of a type of event.
pub open spec fn type_color(event_type: Seq<char>) -> Color {
    if event_type == "commit"@ {
        Color::Green
    } else if event_type == "branch_switch"@ {
        Color::Yellow
    } else if event_type == "merge"@ {
        Color::Blue
    } else if event_type == "review"@ {
        Color::Cyan
    } else if event_type == "ai_session"@ {
        Color::Magenta
    } else {
        Color::White
    }
}

impl FeedEvent {
    /// The colour that the event is shown in.
    pub fn color(&self) -> (c: Color)
        ensures
            c == type_color(self.event_type@),
    {
        let t = self.event_type.as_str();
        if same_text(t, "commit") {
            Color::Green
        } else if same_text(t, "branch_switch") {
            Color::Yellow
        } else if same_text(t, "merge") {
            Color::Blue
        } else if same_text(t, "review") {
            Color::Cyan
        } else if same_text(t, "ai_session") {
            Color::Magenta
        } else {
            Color::White
        }
    }
}

// ---------------------------------------------------------------------------
// Building the feed
// ---------------------------------------------------------------------------

/// How a session reads in the feed.
pub open spec fn session_text(ses: AiSessionInfo) -> Seq<char> {
    if ses.ended_at is Some {
        "session ("@ + signed_decimal(ses.duration.whole_minutes()) + "m)"@
    } else {
        "session (active)"@
    }
}

/// Tells how long a session took, or that it is still active.
pub fn format_session_msg(ses: &AiSessionInfo) -> (r: String)
    requires
        ses.duration.wf(),
    ensures
        r@ == session_text(*ses),
{
    if ses.ended_at.is_some() {
        let mut r = "session (".to_owned();
        r.append(signed_decimal_text(ses.duration.num_minutes()).as_str());
        r.append("m)");
        r
    } else {
        "session (active)".to_owned()
    }
}

/// How a review reads in the feed.
pub open spec fn review_text(rev: ReviewInfo) -> Seq<char> {
    rev.action@ + " PR #"@ + signed_decimal(rev.pr_number as int)
}

/// A git event in the feed.
pub open spec fn event_item(repo_name: Seq<char>, ev: ActivityEvent) -> FeedItem {
    FeedItem {
        timestamp: ev.timestamp,
        repo_name,
        event_type: ev.event_type@,
        branch: opt_text(ev.branch),
        message: opt_text(ev.message),
        count: 1,
    }
}

/// A review in the feed.
pub open spec fn review_item(repo_name: Seq<char>, rev: ReviewInfo) -> FeedItem {
    FeedItem {
        timestamp: rev.reviewed_at,
        repo_name,
        event_type: "review"@,
        branch: None,
        message: Some(review_text(rev)),
        count: 1,
    }
}

/// A session in the feed.
pub open spec fn session_item(repo_name: Seq<char>, ses: AiSessionInfo) -> FeedItem {
    FeedItem {
        timestamp: ses.started_at,
        repo_name,
        event_type: "ai_session"@,
        branch: None,
        message: Some(session_text(ses)),
        count: 1,
    }
}

/// What a repository adds to the feed.
pub open spec fn repo_feed(repo: RepoSummary) -> Seq<FeedItem> {
    repo.events@.map_values(|e: ActivityEvent| event_item(repo.repo_name@, e))
        + repo.reviews@.map_values(|r: ReviewInfo| review_item(repo.repo_name@, r))
        + repo.ai_sessions@.map_values(|s: AiSessionInfo| session_item(repo.repo_name@, s))
}

/// What all repositories add to the feed.
pub open spec fn all_feed(repos: Seq<RepoSummary>) -> Seq<FeedItem>
    decreases repos.len(),
{
    if repos.len() == 0 {
        seq![]
    } else {
        all_feed(repos.drop_last()) + repo_feed(repos.last())
    }
}

/// Whether all items have times of the calendar and stand for one event each.
pub open spec fn fresh_items(s: Seq<FeedItem>) -> bool {
    forall|i: int| 0 <= i < s.len() ==> (#[trigger] s[i]).timestamp.wf() && s[i].count == 1
}

#[verifier::rlimit(40)]
fn push_repo_feed(feed: &mut Vec<FeedEvent>, repo: &RepoSummary)
    requires
        repo.wf(),
        fresh_items(feed_items(old(feed)@)),
    ensures
        feed_items(final(feed)@) == feed_items(old(feed)@) + repo_feed(*repo),
        fresh_items(feed_items(final(feed)@)),
{
    let ghost start = feed_items(feed@);
    let ghost name = repo.repo_name@;
    let ghost events = repo.events@.map_values(|e: ActivityEvent| event_item(name, e));
    let ghost reviews = repo.reviews@.map_values(|r: ReviewInfo| review_item(name, r));
    let ghost sessions = repo.ai_sessions@.map_values(|s: AiSessionInfo| session_item(name, s));
    let mut i: usize = 0;
    while i < repo.events.len()
        invariant
            i <= repo.events.len(),
            repo.wf(),
            name == repo.repo_name@,
            events == repo.events@.map_values(|e: ActivityEvent| event_item(name, e)),
            feed_items(feed@) =~= start + events.take(i as int),
            fresh_items(feed_items(feed@)),
        decreases repo.events.len() - i,
    {
        let ghost before = feed_items(feed@);
        let ev = &repo.events[i];
        let item = FeedEvent {
            timestamp: ev.timestamp,
            repo_name: repo.repo_name.clone(),
            event_type: ev.event_type.clone(),
            branch: copy_opt(&ev.branch),
            message: copy_opt(&ev.message),
            count: 1,
        };
        assert(repo.events@[i as int].timestamp.wf());
        assert(item@ == events[i as int]);
        feed.push(item);
        assert(feed_items(feed@) =~= before.push(item@));
        i = i + 1;
    }
    assert(events.take(i as int) =~= events);
    let mut i: usize = 0;
    while i < repo.reviews.len()
        invariant
            i <= repo.reviews.len(),
            repo.wf(),
            name == repo.repo_name@,
            reviews == repo.reviews@.map_values(|r: ReviewInfo| review_item(name, r)),
            feed_items(feed@) =~= start + events + reviews.take(i as int),
            fresh_items(feed_items(feed@)),
        decreases repo.reviews.len() - i,
    {
        let ghost before = feed_items(feed@);
        let rev = &repo.reviews[i];
        let mut message = rev.action.clone();
        message.append(" PR #");
        message.append(signed_decimal_text(rev.pr_number).as_str());
        let item = FeedEvent {
            timestamp: rev.reviewed_at,
            repo_name: repo.repo_name.clone(),
            event_type: "review".to_owned(),
            branch: None,
            message: Some(message),
            count: 1,
        };
        assert(repo.reviews@[i as int].reviewed_at.wf());
        assert(item@ == reviews[i as int]);
        feed.push(item);
        assert(feed_items(feed@) =~= before.push(item@));
        i = i + 1;
    }
    assert(reviews.take(i as int) =~= reviews);
    let mut i: usize = 0;
    while i < repo.ai_sessions.len()
        invariant
            i <= repo.ai_sessions.len(),
            repo.wf(),
            name == repo.repo_name@,
            sessions == repo.ai_sessions@.map_values(|s: AiSessionInfo| session_item(name, s)),
            feed_items(feed@) =~= start + events + reviews + sessions.take(i as int),
            fresh_items(feed_items(feed@)),
        decreases repo.ai_sessions.len() - i,
    {
        let ghost before = feed_items(feed@);
        let ses = &repo.ai_sessions[i];
        assert(repo.ai_sessions@[i as int].started_at.wf());
        let item = FeedEvent {
            timestamp: ses.started_at,
            repo_name: repo.repo_name.clone(),
            event_type: "ai_session".to_owned(),
            branch: None,
            message: Some(format_session_msg(ses)),
            count: 1,
        };
        assert(item@ == sessions[i as int]);
        feed.push(item);
        assert(feed_items(feed@) =~= before.push(item@));
        i = i + 1;
    }
    assert(sessions.take(i as int) =~= sessions);
    assert(feed_items(feed@) =~= start + repo_feed(*repo));
}

fn copy_opt(o: &Option<String>) -> (r: Option<String>)
    ensures
        opt_text(r) == opt_text(*o),
{
    match o {
        Some(s) => Some(s.clone()),
        None => None,
    }
}

/// Flattens what happened in the repositories.
fn flatten(repos: &Vec<RepoSummary>) -> (feed: Vec<FeedEvent>)
    requires
        forall|i: int| 0 <= i < repos@.len() ==> (#[trigger] repos@[i]).wf(),
    ensures
        feed_items(feed@) == all_feed(repos@),
        fresh_items(feed_items(feed@)),
{
    let mut feed: Vec<FeedEvent> = Vec::new();
    let mut i: usize = 0;
    while i < repos.len()
        invariant
            i <= repos.len(),
            forall|j: int| 0 <= j < repos@.len() ==> (#[trigger] repos@[j]).wf(),
            feed_items(feed@) =~= all_feed(repos@.take(i as int)),
            fresh_items(feed_items(feed@)),
        decreases repos.len() - i,
    {
        assert(repos@.take(i + 1).drop_last() =~= repos@.take(i as int));
        assert(repos@.take(i + 1).last() == repos@[i as int]);
        push_repo_feed(&mut feed, &repos[i]);
        i = i + 1;
    }
    assert(repos@.take(i as int) =~= repos@);
    feed
}

// ---------------------------------------------------------------------------
// Collapsing
// ---------------------------------------------------------------------------

/// The longest time between events that are shown as one: five minutes.
pub open spec fn collapse_window() -> int {
    300 * NANOS_PER_SEC
}

/// Whether `next` is shown together with the newer `last`: both are alike, and at most
/// five minutes apart.
pub open spec fn joins(last: FeedItem, next: FeedItem) -> bool {
    &&& last.repo_name == next.repo_name
    &&& last.event_type == next.event_type
    &&& last.message == next.message
    &&& last.timestamp.nanos_since(next.timestamp) <= collapse_window()
}

/// The item, standing for one more event.
pub open spec fn counted(item: FeedItem) -> FeedItem {
    FeedItem { count: item.count + 1, ..item }
}

/// The events, newest first, with each run of alike events as one: the newest of them,
/// with their number.
pub open spec fn collapsed(s: Seq<FeedItem>) -> Seq<FeedItem>
    decreases s.len(),
{
    if s.len() == 0 {
        seq![]
    } else {
        let before = collapsed(s.drop_last());
        let next = s.last();
        if before.len() > 0 && joins(before.last(), next) {
            before.drop_last().push(counted(before.last()))
        } else {
            before.push(next)
        }
    }
}

/// Collapses consecutive events of the same repository, type and message within five
/// minutes of the newest of them. Events of another kind in between keep them apart. No
/// two neighbours of the result can be collapsed any more, so collapsing it again, which
/// is always possible, gives the same.
#[verifier::rlimit(40)]
pub fn collapse_similar_events(events: Vec<FeedEvent>) -> (r: Vec<FeedEvent>)
    requires
        forall|i: int|
            0 <= i < events@.len() ==> (#[trigger] events@[i]).timestamp.wf() && events@[i].count
                + events@.len() <= usize::MAX + 1,
    ensures
        feed_items(r@) == collapsed(feed_items(events@)),
        forall|i: int| 0 <= i < r@.len() - 1 ==> !joins((#[trigger] r@[i])@, r@[i + 1]@),
        collapsed(feed_items(r@)) == feed_items(r@),
        forall|i: int|
            0 <= i < r@.len() ==> (#[trigger] r@[i]).timestamp.wf() && r@[i].count + r@.len()
                <= usize::MAX + 1,
{
    let ghost items = feed_items(events@);
    let ghost all = events@;
    let n: usize = events.len();
    let mut rest = events;
    let mut r: Vec<FeedEvent> = Vec::new();
    let mut i: usize = 0;
    assert(all.skip(0) =~= all);
    while i < n
        invariant
            i <= n,
            n == all.len(),
            items == feed_items(all),
            rest@ == all.skip(i as int),
            feed_items(r@) =~= collapsed(items.take(i as int)),
            r@.len() <= i,
            forall|j: int|
                0 <= j < all.len() ==> (#[trigger] all[j]).timestamp.wf() && all[j].count + n
                    <= usize::MAX + 1,
            forall|j: int|
                0 <= j < r@.len() ==> (#[trigger] r@[j]).timestamp.wf() && r@[j].count
                    + r@.len() + n - i <= usize::MAX + 1,
        decreases n - i,
    {
        let ghost done = feed_items(r@);
        assert(rest@[0] == all[i as int]);
        let ev = rest.remove(0);
        assert(rest@ =~= all.skip(i + 1));
        assert(items.take(i + 1).drop_last() =~= items.take(i as int));
        assert(items.take(i + 1).last() == ev@);
        let m: usize = r.len();
        let mut joined = false;
        if m > 0 {
            assert(done.last() == r@[m - 1]@);
            joined = same_text(r[m - 1].repo_name.as_str(), ev.repo_name.as_str()) && same_text(
                r[m - 1].event_type.as_str(),
                ev.event_type.as_str(),
            ) && same_opt_text(&r[m - 1].message, &ev.message) && r[m - 1].timestamp.nanos_from(
                &ev.timestamp,
            ) <= 300_000_000_000;
        }
        if joined {
            let ghost before = r@;
            match r.pop() {
                Some(last) => {
                    let ghost was = last@;
                    let mut last = last;
                    last.count = last.count + 1;
                    assert(last@ == counted(was));
                    r.push(last);
                    assert(feed_items(r@) =~= done.drop_last().push(counted(done.last())));
                },
                None => {},
            }
        } else {
            r.push(ev);
            assert(feed_items(r@) =~= done.push(ev@));
        }
        i = i + 1;
    }
    assert(items.take(i as int) =~= items);
    proof {
        lemma_collapsed_apart(items);
        law_collapse_settles(items);
        assert forall|k: int| 0 <= k < r@.len() - 1 implies !joins(
            (#[trigger] r@[k])@,
            r@[k + 1]@,
        ) by {
            assert(feed_items(r@)[k] == r@[k]@ && feed_items(r@)[k + 1] == r@[k + 1]@);
        }
    }
    r
}

// ---------------------------------------------------------------------------
// The feed that is shown
// ---------------------------------------------------------------------------

/// The most events that the feed shows.
pub const FEED_LIMIT: usize = 50;

/// The time of an event, as a number.
pub open spec fn item_rank() -> spec_fn(FeedItem) -> int {
    |e: FeedItem| e.timestamp.rank()
}

/// At most the first `n` of a sequence.
pub open spec fn at_most<A>(s: Seq<A>, n: int) -> Seq<A> {
    if s.len() <= n {
        s
    } else {
        s.take(n)
    }
}

/// What the feed shows of events: newest first, alike ones as one, and not too many.
pub open spec fn shown(s: Seq<FeedItem>) -> Seq<FeedItem> {
    at_most(collapsed(sorted_by(s, item_rank())), FEED_LIMIT as int)
}

/// Builds the feed of the latest events across all repositories. Returns with it how many
/// events there are in all.
#[verifier::rlimit(40)]
pub fn build_feed(repos: &Vec<RepoSummary>) -> (r: (Vec<FeedEvent>, usize))
    requires
        forall|i: int| 0 <= i < repos@.len() ==> (#[trigger] repos@[i]).wf(),
    ensures
        feed_items(r.0@) == shown(all_feed(repos@)),
        r.1 == all_feed(repos@).len(),
{
    let feed = flatten(repos);
    let total: usize = feed.len();
    let ghost items = feed_items(feed@);
    let ghost key = |e: FeedEvent| e.timestamp.rank();
    let ghost said = |e: FeedEvent| e@;
    let mut keys: Vec<i128> = Vec::new();
    let mut i: usize = 0;
    while i < feed.len()
        invariant
            i <= feed.len(),
            keys.len() == i,
            key == (|e: FeedEvent| e.timestamp.rank()),
            forall|j: int| 0 <= j < i ==> #[trigger] keys[j] == key(feed[j]),
        decreases feed.len() - i,
    {
        keys.push(feed[i].timestamp.rank_number());
        i = i + 1;
    }
    let ghost unsorted = feed@;
    let sorted = sort_descending(feed, keys, Ghost(key));
    proof {
        lemma_sorts_map(unsorted, sorted@, key, said, item_rank());
        lemma_sorted_by(items, feed_items(sorted@), item_rank());
        assert forall|j: int| 0 <= j < sorted@.len() implies (
        #[trigger] sorted@[j]).timestamp.wf() && sorted@[j].count == 1 by {
            let e = sorted@[j];
            assert(sorted@.to_multiset().contains(e)) by {
                broadcast use vstd::seq_lib::group_to_multiset_ensures;

            }
            assert(unsorted.contains(e)) by {
                broadcast use vstd::seq_lib::group_to_multiset_ensures;

            }
            let m = choose|m: int| 0 <= m < unsorted.len() && unsorted[m] == e;
            assert(items[m] == e@);
        }
    }
    let mut shown_events = collapse_similar_events(sorted);
    let ghost all_shown = shown_events@;
    shown_events.truncate(FEED_LIMIT);
    assert(feed_items(shown_events@) =~= at_most(feed_items(all_shown), FEED_LIMIT as int));
    (shown_events, total)
}

/// Whether events stand newest first.
pub open spec fn newest_first(s: Seq<FeedItem>) -> bool {
    forall|i: int, j: int|
        0 <= i < j < s.len() ==> (#[trigger] s[i]).timestamp.rank() >= (
        #[trigger] s[j]).timestamp.rank()
}

/// Collapsing keeps the order, and ends with an event no older than the last.
proof fn lemma_collapsed_keeps_order(s: Seq<FeedItem>)
    requires
        newest_first(s),
    ensures
        newest_first(collapsed(s)),
        s.len() > 0 ==> collapsed(s).len() > 0 && collapsed(s).last().timestamp.rank()
            >= s.last().timestamp.rank(),
    decreases s.len(),
{
    if s.len() > 0 {
        let init = s.drop_last();
        assert forall|i: int, j: int| 0 <= i < j < init.len() implies (
        #[trigger] init[i]).timestamp.rank() >= (#[trigger] init[j]).timestamp.rank() by {
            assert(s[i].timestamp.rank() >= s[j].timestamp.rank());
        }
        lemma_collapsed_keeps_order(init);
        let before = collapsed(init);
        let after = collapsed(s);
        if init.len() > 0 {
            assert(s[init.len() - 1].timestamp.rank() >= s[s.len() - 1].timestamp.rank());
        }
        assert forall|i: int, j: int| 0 <= i < j < after.len() implies (
        #[trigger] after[i]).timestamp.rank() >= (#[trigger] after[j]).timestamp.rank() by {
            if j < before.len() {
                assert(before[i].timestamp.rank() >= before[j].timestamp.rank());
            } else {
                if i < before.len() - 1 {
                    assert(before[i].timestamp.rank() >= before[before.len()
                        - 1].timestamp.rank());
                }
            }
        }
    }
}

/// The feed shows at most fifty events, newest first.
pub proof fn law_feed_is_newest_first(s: Seq<FeedItem>)
    ensures
        newest_first(shown(s)),
        shown(s).len() <= 50,
{
    law_sorted_by(s, item_rank());
    let r = sorted_by(s, item_rank());
    assert(newest_first(r)) by {
        assert forall|i: int, j: int| 0 <= i < j < r.len() implies (
        #[trigger] r[i]).timestamp.rank() >= (#[trigger] r[j]).timestamp.rank() by {
            assert(item_rank()(r[i]) >= item_rank()(r[j]));
        }
    }
    lemma_collapsed_keeps_order(r);
}

/// The number of events that items stand for.
pub open spec fn total_count(s: Seq<FeedItem>) -> nat
    decreases s.len(),
{
    if s.len() == 0 {
        0
    } else {
        total_count(s.drop_last()) + s.last().count
    }
}

/// Collapsing loses no event: what is left stands for as many events as there were.
pub proof fn law_collapse_keeps_count(s: Seq<FeedItem>)
    requires
        forall|i: int| 0 <= i < s.len() ==> (#[trigger] s[i]).count == 1,
    ensures
        total_count(collapsed(s)) == s.len(),
    decreases s.len(),
{
    if s.len() > 0 {
        let init = s.drop_last();
        assert forall|i: int| 0 <= i < init.len() implies (#[trigger] init[i]).count == 1 by {
            assert(init[i] == s[i]);
        }
        law_collapse_keeps_count(init);
        let before = collapsed(init);
        let after = collapsed(s);
        assert(s[s.len() - 1].count == 1);
        if before.len() > 0 && joins(before.last(), s.last()) {
            assert(after.drop_last() =~= before.drop_last());
        } else {
            assert(after.drop_last() =~= before);
        }
    }
}

/// Neighbours in a collapsed feed are never alike and close.
proof fn lemma_collapsed_apart(s: Seq<FeedItem>)
    ensures
        forall|i: int|
            0 <= i < collapsed(s).len() - 1 ==> !joins(
                #[trigger] collapsed(s)[i],
                collapsed(s)[i + 1],
            ),
    decreases s.len(),
{
    if s.len() > 0 {
        lemma_collapsed_apart(s.drop_last());
        let before = collapsed(s.drop_last());
        let after = collapsed(s);
        assert forall|i: int| 0 <= i < after.len() - 1 implies !joins(
            #[trigger] after[i],
            after[i + 1],
        ) by {
            if i < before.len() - 1 {
                assert(!joins(before[i], before[i + 1]));
            }
        }
    }
}

/// A feed without alike and close neighbours stays as it is.
proof fn lemma_apart_is_collapsed(s: Seq<FeedItem>)
    requires
        forall|i: int| 0 <= i < s.len() - 1 ==> !joins(#[trigger] s[i], s[i + 1]),
    ensures
        collapsed(s) == s,
    decreases s.len(),
{
    if s.len() == 0 {
        assert(collapsed(s) =~= s);
    } else {
        let init = s.drop_last();
        assert forall|i: int| 0 <= i < init.len() - 1 implies !joins(
            #[trigger] init[i],
            init[i + 1],
        ) by {
            assert(!joins(s[i], s[i + 1]));
        }
        lemma_apart_is_collapsed(init);
        if init.len() > 0 {
            assert(!joins(s[init.len() - 1], s[init.len() as int]));
        }
        assert(collapsed(s) =~= s);
    }
}

/// Collapsing once is enough.
pub proof fn law_collapse_settles(s: Seq<FeedItem>)
    ensures
        collapsed(collapsed(s)) == collapsed(s),
{
    lemma_collapsed_apart(s);
    lemma_apart_is_collapsed(collapsed(s));
}

/// Where the run that starts at the place `starts[k]` ends, of `n` events in all.
pub open spec fn run_end(starts: Seq<int>, n: nat, k: int) -> int {
    if k + 1 < starts.len() {
        starts[k + 1]
    } else {
        n as int
    }
}

/// Whether `next` is shown together with `last`, with the details kept apart.
#[verifier::opaque]
spec fn close(last: FeedItem, next: FeedItem) -> bool {
    joins(last, next)
}

/// Whether the run at `k` of the cut at `starts` is shown as it should be.
spec fn run_fits(s: Seq<FeedItem>, starts: Seq<int>, k: int) -> bool {
    let first = s[starts[k]];
    let end = run_end(starts, s.len(), k);
    &&& 0 <= starts[k] < end <= s.len()
    &&& collapsed(s)[k] == FeedItem { count: (first.count + (end - starts[k] - 1)) as nat, ..first }
    &&& forall|i: int| starts[k] < i < end ==> close(first, #[trigger] s[i])
    &&& k > 0 ==> !close(s[starts[k - 1]], first)
}

/// The number of events that an item stands for does not decide what joins it.
proof fn lemma_close_by_fields(a: FeedItem, n: nat, next: FeedItem)
    ensures
        close(FeedItem { count: n, ..a }, next) == close(a, next),
        close(a, next) == joins(a, next),
{
    reveal(close);
}

/// Events can be cut into runs that are shown as they should be.
proof fn lemma_runs(s: Seq<FeedItem>) -> (starts: Seq<int>)
    ensures
        starts.len() == collapsed(s).len(),
        s.len() > 0 ==> starts.len() > 0 && starts[0] == 0,
        forall|k: int, l: int| 0 <= k < l < starts.len() ==> starts[k] < starts[l],
        forall|k: int| 0 <= k < starts.len() ==> #[trigger] run_fits(s, starts, k),
    decreases s.len(),
{
    if s.len() == 0 {
        seq![]
    } else {
        let init = s.drop_last();
        let before = lemma_runs(init);
        let n = s.len() - 1;
        let r = collapsed(init);
        let last = r.len() - 1;
        let start = init[before[last]];
        if r.len() > 0 {
            assert(run_fits(init, before, last));
            lemma_close_by_fields(start, r.last().count, s.last());
            lemma_close_by_fields(r.last(), r.last().count, s.last());
            assert(r.last() == FeedItem { count: r.last().count, ..start });
        }
        let joined = r.len() > 0 && joins(r.last(), s.last());
        let starts = if joined {
            before
        } else {
            before.push(n)
        };
        assert forall|k: int, l: int| 0 <= k < l < starts.len() implies starts[k]
            < starts[l] by {
            if l == before.len() {
                assert(run_fits(init, before, k));
            }
        }
        assert forall|k: int| 0 <= k < starts.len() implies #[trigger] run_fits(
            s,
            starts,
            k,
        ) by {
            if k < before.len() {
                assert(run_fits(init, before, k));
                assert(starts[k] == before[k]);
                let end = run_end(starts, s.len(), k);
                if k > 0 {
                    assert(run_fits(init, before, k - 1));
                }
                assert forall|i: int| starts[k] < i < end implies close(
                    s[starts[k]],
                    #[trigger] s[i],
                ) by {
                    if i < n {
                        assert(i < run_end(before, init.len(), k));
                        assert(close(init[before[k]], init[i]));
                    } else {
                        assert(k == last);
                    }
                }
            } else {
                if k > 0 {
                    assert(k - 1 == last);
                    assert(!close(s[starts[k - 1]], s[starts[k]]));
                }
            }
        }
        starts
    }
}

/// What collapsing does, run by run: the events are cut into runs, each shown as its first
/// event with the number of events in the run. All events of a run have the repository, the
/// type and the message of its first and are at most five minutes older than it, and where
/// a new run starts, one of these differs or more than five minutes lie between the two
/// first events.
#[verifier::rlimit(40)]
pub proof fn law_collapse_by_runs(s: Seq<FeedItem>) -> (starts: Seq<int>)
    ensures
        starts.len() == collapsed(s).len(),
        s.len() > 0 ==> starts.len() > 0 && starts[0] == 0,
        forall|k: int| 0 <= k < starts.len() ==> 0 <= #[trigger] starts[k] < s.len(),
        forall|k: int, l: int| 0 <= k < l < starts.len() ==> starts[k] < starts[l],
        forall|k: int|
            0 <= k < starts.len() ==> {
                let first = s[#[trigger] starts[k]];
                let one = collapsed(s)[k];
                &&& one.timestamp == first.timestamp
                &&& one.repo_name == first.repo_name
                &&& one.event_type == first.event_type
                &&& one.branch == first.branch
                &&& one.message == first.message
                &&& one.count == first.count + (run_end(starts, s.len(), k) - starts[k] - 1)
            },
        forall|k: int, i: int|
            0 <= k < starts.len() && starts[k] < i < run_end(starts, s.len(), k) ==> {
                let first = s[#[trigger] starts[k]];
                let other = #[trigger] s[i];
                &&& other.repo_name == first.repo_name
                &&& other.event_type == first.event_type
                &&& other.message == first.message
                &&& first.timestamp.nanos_since(other.timestamp) <= 300_000_000_000
            },
        forall|k: int|
            0 < k < starts.len() ==> {
                let first = s[starts[k - 1]];
                let new = s[#[trigger] starts[k]];
                ||| new.repo_name != first.repo_name
                ||| new.event_type != first.event_type
                ||| new.message != first.message
                ||| first.timestamp.nanos_since(new.timestamp) > 300_000_000_000
            },
{
    let starts = lemma_runs(s);
    reveal(close);
    assert forall|k: int| 0 <= k < starts.len() implies 0 <= #[trigger] starts[k] < s.len() by {
        assert(run_fits(s, starts, k));
    }
    assert forall|k: int| 0 <= k < starts.len() implies {
        let first = s[#[trigger] starts[k]];
        let one = collapsed(s)[k];
        &&& one.timestamp == first.timestamp
        &&& one.repo_name == first.repo_name
        &&& one.event_type == first.event_type
        &&& one.branch == first.branch
        &&& one.message == first.message
        &&& one.count == first.count + (run_end(starts, s.len(), k) - starts[k] - 1)
    } by {
        assert(run_fits(s, starts, k));
    }
    assert forall|k: int, i: int|
        0 <= k < starts.len() && starts[k] < i < run_end(starts, s.len(), k) implies {
        let first = s[#[trigger] starts[k]];
        let other = #[trigger] s[i];
        &&& other.repo_name == first.repo_name
        &&& other.event_type == first.event_type
        &&& other.message == first.message
        &&& first.timestamp.nanos_since(other.timestamp) <= 300_000_000_000
    } by {
        assert(run_fits(s, starts, k));
        assert(close(s[starts[k]], s[i]));
    }
    assert forall|k: int| 0 < k < starts.len() implies {
        let first = s[starts[k - 1]];
        let new = s[#[trigger] starts[k]];
        ||| new.repo_name != first.repo_name
        ||| new.event_type != first.event_type
        ||| new.message != first.message
        ||| first.timestamp.nanos_since(new.timestamp) > 300_000_000_000
    } by {
        assert(run_fits(s, starts, k));
        assert(!close(s[starts[k - 1]], s[starts[k]]));
    }
    starts
}

/// The run that an event is in.
proof fn lemma_run_of(starts: Seq<int>, n: nat, i: int) -> (k: int)
    requires
        starts.len() > 0,
        starts[0] == 0,
        0 <= i < n,
    ensures
        0 <= k < starts.len(),
        starts[k] <= i < run_end(starts, n, k),
    decreases starts.len(),
{
    let last = starts.len() - 1;
    if starts[last] <= i {
        last
    } else {
        let init = starts.drop_last();
        assert(last > 0);
        let k = lemma_run_of(init, starts[last] as nat, i);
        assert(init[k] == starts[k]);
        if k + 1 < init.len() {
            assert(init[k + 1] == starts[k + 1]);
        }
        k
    }
}

/// Events are shown as one only where repository, type and message are all the same: each
/// event is shown by one with its repository, type and message, which is at most five
/// minutes newer, and each that is shown is one of the events.
#[verifier::rlimit(40)]
pub proof fn law_no_event_is_hidden(s: Seq<FeedItem>, i: int)
    requires
        0 <= i < s.len(),
    ensures
        exists|j: int|
            0 <= j < collapsed(s).len() && (#[trigger] collapsed(s)[j]).repo_name == s[i].repo_name
                && collapsed(s)[j].event_type == s[i].event_type && collapsed(s)[j].message
                == s[i].message && (collapsed(s)[j].timestamp == s[i].timestamp || collapsed(
                s,
            )[j].timestamp.nanos_since(s[i].timestamp) <= 300_000_000_000),
        forall|j: int|
            0 <= j < collapsed(s).len() ==> exists|m: int|
                0 <= m < s.len() && (#[trigger] s[m]).timestamp == (
                #[trigger] collapsed(s)[j]).timestamp && s[m].repo_name == collapsed(
                    s,
                )[j].repo_name && s[m].event_type == collapsed(s)[j].event_type && s[m].branch
                    == collapsed(s)[j].branch && s[m].message == collapsed(s)[j].message,
{
    let k = lemma_shown_by(s, i);
    assert(collapsed(s)[k].repo_name == s[i].repo_name);
    assert forall|j: int| 0 <= j < collapsed(s).len() implies exists|m: int|
        0 <= m < s.len() && (#[trigger] s[m]).timestamp == (
        #[trigger] collapsed(s)[j]).timestamp && s[m].repo_name == collapsed(s)[j].repo_name
            && s[m].event_type == collapsed(s)[j].event_type && s[m].branch == collapsed(
            s,
        )[j].branch && s[m].message == collapsed(s)[j].message by {
        let m = lemma_stems_from(s, j);
        assert(s[m].timestamp == collapsed(s)[j].timestamp);
    }
}

/// The entry of a collapsed feed that shows an event.
proof fn lemma_shown_by(s: Seq<FeedItem>, i: int) -> (k: int)
    requires
        0 <= i < s.len(),
    ensures
        0 <= k < collapsed(s).len(),
        collapsed(s)[k].repo_name == s[i].repo_name,
        collapsed(s)[k].event_type == s[i].event_type,
        collapsed(s)[k].message == s[i].message,
        collapsed(s)[k].timestamp == s[i].timestamp || collapsed(s)[k].timestamp.nanos_since(
            s[i].timestamp,
        ) <= 300_000_000_000,
{
    let starts = lemma_runs(s);
    let k = lemma_run_of(starts, s.len(), i);
    assert(run_fits(s, starts, k));
    let first = s[starts[k]];
    if starts[k] < i {
        assert(close(first, s[i]));
        lemma_close_by_fields(first, 0, s[i]);
    }
    k
}

/// The event that an entry of a collapsed feed stems from.
proof fn lemma_stems_from(s: Seq<FeedItem>, j: int) -> (m: int)
    requires
        0 <= j < collapsed(s).len(),
    ensures
        0 <= m < s.len(),
        collapsed(s)[j] == (FeedItem { count: collapsed(s)[j].count, ..s[m] }),
{
    let starts = lemma_runs(s);
    assert(run_fits(s, starts, j));
    starts[j]
}

/// The place at which an event is shown in a collapsed feed.
proof fn lemma_shown_at(r: Seq<FeedItem>, m: int) -> (k: int)
    requires
        newest_first(r),
        0 <= m < r.len(),
    ensures
        0 <= k < collapsed(r).len(),
        collapsed(r)[k].repo_name == r[m].repo_name,
        collapsed(r)[k].event_type == r[m].event_type,
        collapsed(r)[k].message == r[m].message,
        collapsed(r)[k].timestamp.rank() >= r[m].timestamp.rank(),
{
    let starts = lemma_runs(r);
    let k = lemma_run_of(starts, r.len(), m);
    assert(run_fits(r, starts, k));
    let first = r[starts[k]];
    if starts[k] < m {
        assert(close(first, r[m]));
        lemma_close_by_fields(first, 0, r[m]);
        assert(first.timestamp.rank() >= r[m].timestamp.rank());
    }
    k
}

/// What the feed shows: each event is shown by one with its repository, type and message,
/// unless the feed is full of events that are no older than it.
#[verifier::rlimit(40)]
pub proof fn law_feed_shows_the_newest(s: Seq<FeedItem>, i: int)
    requires
        0 <= i < s.len(),
    ensures
        (exists|j: int|
            0 <= j < shown(s).len() && (#[trigger] shown(s)[j]).repo_name == s[i].repo_name
                && shown(s)[j].event_type == s[i].event_type && shown(s)[j].message
                == s[i].message) || (shown(s).len() == 50 && forall|j: int|
            0 <= j < shown(s).len() ==> !(#[trigger] shown(s)[j]).timestamp.before(
                s[i].timestamp,
            )),
{
    let r = sorted_by(s, item_rank());
    law_sorted_by(s, item_rank());
    assert(newest_first(r)) by {
        assert forall|a: int, b: int| 0 <= a < b < r.len() implies (
        #[trigger] r[a]).timestamp.rank() >= (#[trigger] r[b]).timestamp.rank() by {
            assert(item_rank()(r[a]) >= item_rank()(r[b]));
        }
    }
    assert(s.contains(s[i]));
    law_sorting_keeps_the_items(s, r, item_rank(), s[i]);
    let m = choose|m: int| 0 <= m < r.len() && r[m] == s[i];
    let c = collapsed(r);
    let k = lemma_shown_at(r, m);
    lemma_collapsed_keeps_order(r);
    if k < shown(s).len() {
        assert(shown(s)[k] == c[k]);
    } else {
        assert(shown(s).len() == 50);
        assert forall|j: int| 0 <= j < shown(s).len() implies !(
        #[trigger] shown(s)[j]).timestamp.before(s[i].timestamp) by {
            assert(shown(s)[j] == c[j]);
            assert(c[j].timestamp.rank() >= c[k].timestamp.rank());
            lemma_rank_orders(shown(s)[j].timestamp, s[i].timestamp);
        }
    }
}

/// Each repository adds all that happened in it to the feed, in its own name: its git
/// events as they are, its reviews and its sessions with what they say, each counted once.
/// What was there before stays.
pub proof fn law_feed_takes_in_everything(repos: Seq<RepoSummary>, repo: RepoSummary)
    ensures
        ({
            let before = all_feed(repos);
            let after = all_feed(repos.push(repo));
            let n = before.len();
            let e = repo.events.len();
            let v = repo.reviews.len();
            &&& after.len() == n + e + v + repo.ai_sessions.len()
            &&& before == after.take(n as int)
            &&& forall|i: int|
                0 <= i < e ==> {
                    let item = #[trigger] after[n + i];
                    &&& item.timestamp == repo.events[i].timestamp
                    &&& item.repo_name == repo.repo_name@
                    &&& item.event_type == repo.events[i].event_type@
                    &&& item.branch == opt_text(repo.events[i].branch)
                    &&& item.message == opt_text(repo.events[i].message)
                    &&& item.count == 1
                }
            &&& forall|i: int|
                0 <= i < v ==> {
                    let item = #[trigger] after[n + e + i];
                    &&& item.timestamp == repo.reviews[i].reviewed_at
                    &&& item.repo_name == repo.repo_name@
                    &&& item.event_type == "review"@
                    &&& item.branch is None
                    &&& item.message == Some(
                        repo.reviews[i].action@ + " PR #"@ + signed_decimal(
                            repo.reviews[i].pr_number as int,
                        ),
                    )
                    &&& item.count == 1
                }
            &&& forall|i: int|
                0 <= i < repo.ai_sessions.len() ==> {
                    let item = #[trigger] after[n + e + v + i];
                    &&& item.timestamp == repo.ai_sessions[i].started_at
                    &&& item.repo_name == repo.repo_name@
                    &&& item.event_type == "ai_session"@
                    &&& item.branch is None
                    &&& item.message == Some(session_text(repo.ai_sessions[i]))
                    &&& item.count == 1
                }
        }),
{
    let before = all_feed(repos);
    let after = all_feed(repos.push(repo));
    let n = before.len() as int;
    let e = repo.events.len() as int;
    let v = repo.reviews.len() as int;
    assert(repos.push(repo).drop_last() =~= repos);
    assert(after =~= before + repo_feed(repo));
    assert(before =~= after.take(n));
    assert forall|i: int| 0 <= i < e implies #[trigger] after[n + i] == event_item(
        repo.repo_name@,
        repo.events[i],
    ) by {
        assert(after[n + i] == repo_feed(repo)[i]);
    }
    assert forall|i: int| 0 <= i < v implies #[trigger] after[n + e + i] == review_item(
        repo.repo_name@,
        repo.reviews[i],
    ) by {
        assert(after[n + e + i] == repo_feed(repo)[e + i]);
    }
    assert forall|i: int|
        0 <= i < repo.ai_sessions.len() implies #[trigger] after[n + e + v + i] == session_item(
        repo.repo_name@,
        repo.ai_sessions[i],
    ) by {
        assert(after[n + e + v + i] == repo_feed(repo)[e + v + i]);
    }
}

/// A session that has ended tells its full minutes, one that has not tells that it is
/// active.
pub proof fn law_session_tells_its_minutes(ses: AiSessionInfo, minutes: nat, secs: nat)
    requires
        ses.duration.secs == minutes * 60 + secs,
        secs < 60,
        ses.duration.nanos < 1_000_000_000,
    ensures
        ses.ended_at is Some ==> session_text(ses) == "session ("@ + signed_decimal(
            minutes as int,
        ) + "m)"@,
        ses.ended_at is None ==> session_text(ses) == "session (active)"@,
{
    law_whole_minutes_are_full(ses.duration);
}

} // verus!
