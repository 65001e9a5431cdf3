//! Sessions of an AI coding tool: what their files and conversation logs tell.

use vstd::prelude::*;
use vstd::string::*;

use crate::paths::{
    components, join_path, joined_path, law_same_path_is_under, path_starts_with, same_path,
    starts_with_path,
};
use crate::platform::Liveness;
use crate::sorting::sort_descending;
use crate::text::{
    concat, is_white_space, law_lines_one_by_one, law_trimmed_takes_off_the_ends,
    lemma_trimmed_fixed, line_seq, lines, opt_text, texts, to_chars, trim, trimmed,
};
use crate::time::{
    instant_of_millis, lemma_rank_orders, parse_rfc3339, rfc3339_instant, rfc3339_text,
    timestamp_of_millis, Timestamp, MAX_SECS, MIN_SECS,
};

verus! {

/// The file that a running session keeps.
#[derive(Debug)]
pub struct SessionFile {
    pub pid: u64,
    pub session_id: String,
    pub cwd: String,
    /// Milliseconds since 1970-01-01T00:00:00 in UTC.
    pub started_at: u64,
}

// ---------------------------------------------------------------------------
// Where logs stand
// ---------------------------------------------------------------------------

/// Whether `c` is a letter or digit of ASCII.
pub open spec fn is_ascii_alphanumeric(c: char) -> bool {
    'a' <= c <= 'z' || 'A' <= c <= 'Z' || '0' <= c <= '9'
}

/// A character in the name of a project's directory.
pub open spec fn encoded_char(c: char) -> char {
    if is_ascii_alphanumeric(c) {
        c
    } else {
        '-'
    }
}

/// The name of a project's directory: the path with a dash for every character that is
/// not a letter or digit of ASCII.
pub open spec fn encoded(path: Seq<char>) -> Seq<char> {
    path.map_values(|c: char| encoded_char(c))
}

/// Encodes a path as the name of a project's directory.
pub fn encode_project_path(path: &str) -> (r: String)
    ensures
        r@ == encoded(path@),
{
    let chars = to_chars(path);
    let mut r = String::new();
    let mut i: usize = 0;
    while i < chars.len()
        invariant
            i <= chars.len(),
            r@ =~= encoded(chars@.take(i as int)),
        decreases chars.len() - i,
    {
        let c: char = chars[i];
        let alphanumeric = ('a' <= c && c <= 'z') || ('A' <= c && c <= 'Z') || ('0' <= c && c
            <= '9');
        r.push(
            if alphanumeric {
                c
            } else {
                '-'
            },
        );
        i = i + 1;
    }
    assert(chars@.take(i as int) =~= path@);
    r
}

/// An encoded path is as long as the path, holds nothing but letters, digits and dashes,
/// and is not changed by encoding it again.
pub proof fn law_encoding_settles(path: Seq<char>)
    ensures
        encoded(path).len() == path.len(),
        forall|i: int|
            0 <= i < path.len() ==> is_ascii_alphanumeric(#[trigger] encoded(path)[i]) || encoded(
                path,
            )[i] == '-',
        encoded(encoded(path)) == encoded(path),
{
    assert(encoded(encoded(path)) =~= encoded(path));
}

/// The name of a session's log.
pub open spec fn log_name(session_id: Seq<char>) -> Seq<char> {
    session_id + ".jsonl"@
}

/// The name of a session's log, in the directory of its project.
pub fn session_log_name(session_id: &str) -> (r: String)
    ensures
        r@ == log_name(session_id@),
{
    concat(session_id, ".jsonl")
}

/// Where a session's log stands.
pub open spec fn log_path(
    projects_dir: Seq<char>,
    session_cwd: Seq<char>,
    session_id: Seq<char>,
) -> Seq<char> {
    joined_path(joined_path(projects_dir, encoded(session_cwd)), log_name(session_id))
}

/// Where the log of a session stands, if there is one.
pub fn find_session_log(projects_dir: &str, session_cwd: &str, session_id: &str) -> (r: String)
    ensures
        r@ == log_path(projects_dir@, session_cwd@, session_id@),
{
    let project_dir = join_path(projects_dir, encode_project_path(session_cwd).as_str());
    join_path(project_dir.as_str(), session_log_name(session_id).as_str())
}

/// Whether a file of this name is a session file: it has the extension "json".
pub open spec fn names_session_file(name: Seq<char>) -> bool {
    name.len() > 5 && name.skip(name.len() - 5) == seq!['.', 'j', 's', 'o', 'n']
}

/// Decides whether a file of this name is a session file.
pub fn is_session_file_name(name: &str) -> (r: bool)
    ensures
        r == names_session_file(name@),
{
    let v = to_chars(name);
    let n: usize = v.len();
    if n <= 5 {
        return false;
    }
    let r = v[n - 5] == '.' && v[n - 4] == 'j' && v[n - 3] == 's' && v[n - 2] == 'o' && v[n - 1]
        == 'n';
    proof {
        let tail = name@.skip(name@.len() - 5);
        let json = seq!['.', 'j', 's', 'o', 'n'];
        if r {
            assert(tail =~= json);
        } else {
            assert(tail[0] == v[n - 5] && tail[1] == v[n - 4] && tail[2] == v[n - 3]);
            assert(tail[3] == v[n - 2] && tail[4] == v[n - 1]);
            assert(json[0] == '.' && json[1] == 'j' && json[2] == 's');
            assert(json[3] == 'o' && json[4] == 'n');
        }
    }
    r
}

// ---------------------------------------------------------------------------
// Processes and repositories
// ---------------------------------------------------------------------------

/// The process that a session's file names, as the operating system counts processes.
pub fn process_of(pid: u64) -> (r: u32)
    ensures
        r == pid % 0x1_0000_0000,
{
    assert(pid as u32 == pid % 0x1_0000_0000) by (bit_vector);
    pid as u32
}

/// Whether a process is running, where that can be told.
pub fn is_process_running(liveness: Liveness) -> (r: Option<bool>)
    ensures
        r == match liveness {
            Liveness::Running => Some(true),
            Liveness::NotRunning => Some(false),
            Liveness::Unsupported => None,
        },
{
    match liveness {
        Liveness::Running => Some(true),
        Liveness::NotRunning => Some(false),
        Liveness::Unsupported => None,
    }
}

/// The first of the repositories that `cwd` lies in.
pub open spec fn home_repo(cwd: Seq<char>, repos: Seq<Seq<char>>) -> Option<Seq<char>>
    decreases repos.len(),
{
    if repos.len() == 0 {
        None
    } else if path_starts_with(cwd, repos[0]) {
        Some(repos[0])
    } else {
        home_repo(cwd, repos.skip(1))
    }
}

/// The repository that a session is booked on: none for an ephemeral directory, else the
/// watched repository that the session runs in, else the session's own directory.
pub open spec fn booked_repo(
    cwd: Seq<char>,
    ephemeral: bool,
    repos: Seq<Seq<char>>,
) -> Option<Seq<char>> {
    if ephemeral {
        None
    } else {
        match home_repo(cwd, repos) {
            Some(repo) => Some(repo),
            None => Some(cwd),
        }
    }
}

/// The repository that a session in `session_cwd` is booked on.
pub fn map_to_repo(session_cwd: &str, ephemeral: bool, watched_repos: &Vec<String>) -> (r: Option<
    String,
>)
    ensures
        opt_text(r) == booked_repo(session_cwd@, ephemeral, texts(watched_repos@)),
{
    if ephemeral {
        return None;
    }
    let ghost repos = texts(watched_repos@);
    let mut i: usize = 0;
    assert(repos.skip(0) =~= repos);
    while i < watched_repos.len()
        invariant
            i <= watched_repos.len(),
            repos == texts(watched_repos@),
            !ephemeral,
            home_repo(session_cwd@, repos) == home_repo(session_cwd@, repos.skip(i as int)),
        decreases watched_repos.len() - i,
    {
        assert(repos.skip(i as int)[0] == watched_repos@[i as int]@);
        assert(repos.skip(i as int).skip(1) =~= repos.skip(i + 1));
        if starts_with_path(session_cwd, watched_repos[i].as_str()) {
            return Some(watched_repos[i].clone());
        }
        i = i + 1;
    }
    Some(session_cwd.to_owned())
}

/// A session in a watched repository is booked on a watched repository that it runs in.
pub proof fn law_booked_on_watched_repo(cwd: Seq<char>, repos: Seq<Seq<char>>, i: int)
    requires
        0 <= i < repos.len(),
        path_starts_with(cwd, repos[i]) || same_path(cwd, repos[i]),
    ensures
        booked_repo(cwd, false, repos) matches Some(repo) && repos.contains(repo)
            && path_starts_with(cwd, repo),
    decreases repos.len(),
{
    if same_path(cwd, repos[i]) {
        law_same_path_is_under(cwd, repos[i]);
    }
    if !path_starts_with(cwd, repos[0]) {
        let rest = repos.skip(1);
        assert(rest[i - 1] == repos[i]);
        law_booked_on_watched_repo(cwd, rest, i - 1);
        let repo = booked_repo(cwd, false, rest)->0;
        let j = choose|j: int| 0 <= j < rest.len() && rest[j] == repo;
        assert(repos[j + 1] == repo);
    } else {
        assert(repos.contains(repos[0]));
    }
}

// ---------------------------------------------------------------------------
// Times
// ---------------------------------------------------------------------------

/// Milliseconds of 64 bits as a signed number of 64 bits: the upper half is negative.
pub open spec fn signed_millis(millis: u64) -> int {
    if millis <= i64::MAX {
        millis as int
    } else {
        millis - 0x1_0000_0000_0000_0000
    }
}

/// The start of 1970 in UTC.
pub open spec fn epoch() -> Timestamp {
    Timestamp { secs: 0, nanos: 0 }
}

/// The point in time that a session file names; the start of 1970 where the calendar does
/// not have it.
pub open spec fn start_instant(millis: u64) -> Timestamp {
    match instant_of_millis(signed_millis(millis)) {
        Some(t) => t,
        None => epoch(),
    }
}

/// The point in time at which a session started.
pub fn session_start(millis: u64) -> (r: Timestamp)
    ensures
        r == start_instant(millis),
        r.wf(),
{
    assert(millis <= 0x7fff_ffff_ffff_ffff ==> millis as i64 == millis) by (bit_vector);
    assert(millis > 0x7fff_ffff_ffff_ffff ==> millis as i64 == millis - 0x1_0000_0000_0000_0000)
        by (bit_vector);
    match timestamp_of_millis(millis as i64) {
        Some(t) => t,
        None => Timestamp { secs: 0, nanos: 0 },
    }
}

/// The point in time at which a session started, in the notation of RFC 3339.
pub fn millis_to_rfc3339(millis: u64) -> (r: String)
    ensures
        r@ == rfc3339_text(start_instant(millis)),
{
    session_start(millis).to_rfc3339()
}

/// The time of a log's last change, in the notation of RFC 3339.
pub fn mtime_rfc3339(modified: &Timestamp) -> (r: String)
    requires
        modified.wf(),
    ensures
        r@ == rfc3339_text(*modified),
{
    modified.to_rfc3339()
}

// ---------------------------------------------------------------------------
// Conversation logs
// ---------------------------------------------------------------------------

/// Whether a line of a log is a turn: it is not blank.
pub open spec fn is_turn(line: Seq<char>) -> bool {
    trimmed(line).len() > 0
}

/// The number of turns in a log.
pub open spec fn turn_count(content: Seq<char>) -> nat {
    line_seq(content).filter(|l: Seq<char>| is_turn(l)).len()
}

/// Counts the turns in a log.
pub fn count_turns(content: &str) -> (r: i64)
    ensures
        r == turn_count(content@) as i64,
{
    let all = lines(content);
    let ghost parts = texts(all@);
    let ghost turn = |l: Seq<char>| is_turn(l);
    let mut n: usize = 0;
    let mut i: usize = 0;
    assert(parts.take(0).filter(turn) =~= seq![]);
    while i < all.len()
        invariant
            i <= all.len(),
            n <= i,
            parts == texts(all@),
            turn == (|l: Seq<char>| is_turn(l)),
            n == parts.take(i as int).filter(turn).len(),
        decreases all.len() - i,
    {
        proof {
            assert(parts.take(i + 1) =~= parts.take(i as int).push(parts[i as int]));
            parts.take(i as int).lemma_filter_push(parts[i as int], turn);
        }
        if trim(all[i].as_str()).unicode_len() > 0 {
            n = n + 1;
        }
        i = i + 1;
    }
    assert(parts.take(i as int) =~= parts);
    n as i64
}

/// The text that a JSON object has under `key`: none where `text` is no JSON, is no object,
/// or has something else there.
pub uninterp spec fn json_text_member(text: Seq<char>, key: Seq<char>) -> Option<Seq<char>>;

/// `serde_json::from_str` into a `serde_json::Value`, then its `get` and `as_str`: the
/// result depends on the two texts alone.
#[verifier::external_body]
fn read_json_text_member(text: &str, key: &str) -> (r: Option<String>)
    ensures
        opt_text(r) == json_text_member(text@, key@),
{
    let value: serde_json::Value = serde_json::from_str(text).ok()?;
    value.get(key)?.as_str().map(String::from)
}

/// The time of a turn, where its line tells one.
pub open spec fn turn_instant(line: Seq<char>) -> Option<Timestamp> {
    if !is_turn(line) {
        None
    } else {
        match json_text_member(trimmed(line), "timestamp"@) {
            None => None,
            Some(s) => rfc3339_instant(s),
        }
    }
}

/// Reads the time of a turn.
pub fn turn_timestamp(line: &str) -> (r: Option<Timestamp>)
    ensures
        r == turn_instant(line@),
        r matches Some(t) ==> t.wf(),
{
    let line = trim(line);
    if line.unicode_len() == 0 {
        return None;
    }
    match read_json_text_member(line.as_str(), "timestamp") {
        None => None,
        Some(s) => parse_rfc3339(s.as_str()),
    }
}

/// The times among answers that may hold none.
pub open spec fn told(found: Seq<Option<Timestamp>>) -> Seq<Timestamp>
    decreases found.len(),
{
    if found.len() == 0 {
        seq![]
    } else {
        let before = told(found.drop_last());
        match found.last() {
            Some(t) => before.push(t),
            None => before,
        }
    }
}

/// Whether points in time stand earliest first.
pub open spec fn ascending(s: Seq<Timestamp>) -> bool {
    forall|i: int, j: int| 0 <= i < j < s.len() ==> !(#[trigger] s[j]).before(#[trigger] s[i])
}

/// The times that were told, earliest first.
pub fn sorted_times(found: &Vec<Option<Timestamp>>) -> (r: Vec<Timestamp>)
    ensures
        ascending(r@),
        r@.to_multiset() == told(found@).to_multiset(),
{
    let mut times: Vec<Timestamp> = Vec::new();
    let mut keys: Vec<i128> = Vec::new();
    let ghost key = |t: Timestamp| -t.rank();
    let mut i: usize = 0;
    while i < found.len()
        invariant
            i <= found.len(),
            key == (|t: Timestamp| -t.rank()),
            times@ =~= told(found@.take(i as int)),
            keys.len() == times.len(),
            forall|j: int| 0 <= j < times.len() ==> #[trigger] keys[j] == key(times[j]),
        decreases found.len() - i,
    {
        assert(found@.take(i + 1).drop_last() =~= found@.take(i as int));
        if let Some(t) = found[i] {
            times.push(t);
            keys.push(-t.rank_number());
        }
        i = i + 1;
    }
    assert(found@.take(i as int) =~= found@);
    let r = sort_descending(times, keys, Ghost(key));
    assert forall|i: int, j: int| 0 <= i < j < r.len() implies !(#[trigger] r@[j]).before(
        #[trigger] r@[i],
    ) by {
        assert(key(r@[i]) >= key(r@[j]));
        lemma_rank_orders(r@[j], r@[i]);
    }
    r
}

/// The times that each line of a log tells.
pub open spec fn turn_instants(content: Seq<char>) -> Seq<Option<Timestamp>> {
    line_seq(content).map_values(|l: Seq<char>| turn_instant(l))
}

/// The times of the turns in a session's log, earliest first. A line that tells none is
/// passed over; without a log there are none.
pub fn read_turn_timestamps(content: &Option<String>) -> (r: Vec<Timestamp>)
    ensures
        ascending(r@),
        r@.to_multiset() == match *content {
            Some(c) => told(turn_instants(c@)).to_multiset(),
            None => Seq::<Timestamp>::empty().to_multiset(),
        },
{
    let mut found: Vec<Option<Timestamp>> = Vec::new();
    match content {
        None => {
            assert(told(found@) =~= Seq::<Timestamp>::empty());
        },
        Some(c) => {
            let all = lines(c.as_str());
            let mut i: usize = 0;
            while i < all.len()
                invariant
                    i <= all.len(),
                    texts(all@) == line_seq(c@),
                    found@ =~= turn_instants(c@).take(i as int),
                decreases all.len() - i,
            {
                assert(texts(all@)[i as int] == all@[i as int]@);
                found.push(turn_timestamp(all[i].as_str()));
                i = i + 1;
            }
            assert(turn_instants(c@).take(i as int) =~= turn_instants(c@));
        },
    }
    sorted_times(&found)
}

/// Encoding keeps each letter and digit of ASCII in its place, and puts a dash in the place
/// of every other character.
pub proof fn law_encoding_keeps_letters_and_digits(path: Seq<char>, i: int)
    requires
        0 <= i < path.len(),
    ensures
        ({
            let code = path[i] as int;
            let kept = (0x30 <= code <= 0x39) || (0x41 <= code <= 0x5a) || (0x61 <= code <= 0x7a);
            &&& kept ==> encoded(path)[i] == path[i]
            &&& !kept ==> encoded(path)[i] == '-'
        }),
{
}

/// A session's log stands in the directory of its project, which stands in the directory
/// of all projects, under the session's own name.
pub proof fn law_log_stands_in_its_project(
    projects_dir: Seq<char>,
    cwd: Seq<char>,
    session_id: Seq<char>,
)
    requires
        projects_dir.len() > 0,
        projects_dir.last() != '/',
        cwd.len() > 0,
        session_id.len() > 0,
        session_id[0] != '/',
    ensures
        log_path(projects_dir, cwd, session_id) == projects_dir + seq!['/'] + encoded(cwd)
            + seq!['/'] + session_id + ".jsonl"@,
{
    reveal_strlit(".jsonl");
    law_encoding_keeps_letters_and_digits(cwd, 0);
    law_encoding_keeps_letters_and_digits(cwd, cwd.len() - 1);
    let dir = projects_dir + seq!['/'] + encoded(cwd);
    assert(joined_path(projects_dir, encoded(cwd)) == dir);
    assert(dir.last() == encoded(cwd)[cwd.len() - 1]);
    assert(log_name(session_id)[0] == session_id[0]);
    assert(log_path(projects_dir, cwd, session_id) =~= dir + seq!['/'] + session_id + ".jsonl"@);
}

/// The session files are those with the extension `json` and a name before it.
pub proof fn law_session_files_have_the_extension(stem: Seq<char>, name: Seq<char>)
    ensures
        stem.len() > 0 ==> names_session_file(stem + ".json"@),
        names_session_file(name) ==> name.len() > 5 && name == name.take(name.len() - 5) + ".json"@,
        !names_session_file(".json"@),
{
    reveal_strlit(".json");
    let json = seq!['.', 'j', 's', 'o', 'n'];
    assert(".json"@ =~= json);
    assert((stem + json).skip(stem.len() as int) =~= json);
    if names_session_file(name) {
        assert(name =~= name.take(name.len() - 5) + name.skip(name.len() - 5));
    }
}

/// A session is booked on the first watched repository whose components its directory
/// starts with, on its own directory where there is none, and not at all in an ephemeral
/// directory.
pub proof fn law_booked_on_the_first_repo(cwd: Seq<char>, repos: Seq<Seq<char>>, i: int)
    requires
        0 <= i <= repos.len(),
        forall|j: int|
            0 <= j < i ==> !components(#[trigger] repos[j]).is_prefix_of(components(cwd)),
    ensures
        booked_repo(cwd, true, repos) is None,
        i == repos.len() ==> booked_repo(cwd, false, repos) == Some(cwd),
        i < repos.len() && components(repos[i]).is_prefix_of(components(cwd)) ==> booked_repo(
            cwd,
            false,
            repos,
        ) == Some(repos[i]),
    decreases repos.len(),
{
    if i > 0 {
        let rest = repos.skip(1);
        assert(!components(repos[0]).is_prefix_of(components(cwd)));
        assert forall|j: int| 0 <= j < i - 1 implies !components(#[trigger] rest[j]).is_prefix_of(
            components(cwd),
        ) by {
            assert(rest[j] == repos[j + 1]);
        }
        law_booked_on_the_first_repo(cwd, rest, i - 1);
    }
}

/// A session started as many milliseconds after the start of 1970 as its file says, where
/// the calendar goes that far.
pub proof fn law_start_counts_millis(millis: u64)
    ensures
        millis < (MAX_SECS + 1) * 1000 ==> start_instant(millis).secs * 1000 + start_instant(
            millis,
        ).nanos / 1_000_000 == millis && start_instant(millis).nanos % 1_000_000 == 0
            && start_instant(millis).nanos < 1_000_000_000,
        (MAX_SECS + 1) * 1000 <= millis <= i64::MAX ==> start_instant(millis) == (Timestamp {
            secs: 0,
            nanos: 0,
        }),
        0x1_0000_0000_0000_0000 + MIN_SECS * 1000 <= millis ==> start_instant(millis).secs * 1000
            + start_instant(millis).nanos / 1_000_000 == millis - 0x1_0000_0000_0000_0000,
{
}

/// A log has a turn for each of its lines that is not blank: line by line, whatever ends
/// the lines.
pub proof fn law_turns_line_by_line(line: Seq<char>, rest: Seq<char>)
    requires
        !line.contains('\n'),
        line.len() == 0 || line.last() != '\r',
    ensures
        ({
            let turn: nat = if exists|i: int|
                0 <= i < line.len() && !is_white_space(#[trigger] line[i]) {
                1
            } else {
                0
            };
            &&& turn_count(line + seq!['\n'] + rest) == turn + turn_count(rest)
            &&& turn_count(line + seq!['\r', '\n'] + rest) == turn + turn_count(rest)
            &&& turn_count(line) == turn
        }),
{
    let turns = |l: Seq<char>| is_turn(l);
    law_lines_one_by_one(line, rest);
    law_trimmed_takes_off_the_ends(line);
    Seq::filter_distributes_over_add(seq![line], line_seq(rest), turns);
    let none = Seq::<Seq<char>>::empty();
    none.lemma_filter_push(line, turns);
    assert(none.push(line) =~= seq![line]);
    assert(none.filter(turns) =~= none) by {
        none.lemma_filter_len(turns);
    }
    if line.len() == 0 {
        assert(turn_count(line) == 0);
    }
}

/// What the lines of a log tell, line by line: a blank line tells nothing, and any other
/// the time under `timestamp` in the object that it holds, with white space around it or
/// without.
pub proof fn law_times_line_by_line(line: Seq<char>, rest: Seq<char>)
    requires
        !line.contains('\n'),
        line.len() == 0 || line.last() != '\r',
    ensures
        turn_instants(line + seq!['\n'] + rest) == seq![turn_instant(line)] + turn_instants(rest),
        turn_instants(line + seq!['\r', '\n'] + rest) == seq![turn_instant(line)] + turn_instants(
            rest,
        ),
        line.len() > 0 ==> turn_instants(line) == seq![turn_instant(line)],
        line.len() == 0 ==> turn_instants(line) == Seq::<Option<Timestamp>>::empty(),
        (forall|i: int| 0 <= i < line.len() ==> is_white_space(#[trigger] line[i]))
            ==> turn_instant(line) is None,
        (exists|i: int| 0 <= i < line.len() && !is_white_space(#[trigger] line[i]))
            ==> turn_instant(line) == match json_text_member(trimmed(line), "timestamp"@) {
            Some(s) => rfc3339_instant(s),
            None => None,
        },
        turn_instant(trimmed(line)) == turn_instant(line),
{
    law_lines_one_by_one(line, rest);
    law_trimmed_takes_off_the_ends(line);
    let cuts = law_trimmed_takes_off_the_ends(line);
    lemma_trimmed_fixed(trimmed(line));
    assert(turn_instants(line + seq!['\n'] + rest) =~= seq![turn_instant(line)] + turn_instants(
        rest,
    ));
    assert(turn_instants(line + seq!['\r', '\n'] + rest) =~= seq![turn_instant(line)]
        + turn_instants(rest));
    if line.len() > 0 {
        assert(turn_instants(line) =~= seq![turn_instant(line)]);
    } else {
        assert(turn_instants(line) =~= Seq::<Option<Timestamp>>::empty());
    }
}

/// Every time that was told is kept and nothing else, in the order in which it was told.
pub proof fn law_told_keeps_every_time(a: Seq<Option<Timestamp>>, b: Seq<Option<Timestamp>>, t: Timestamp)
    ensures
        told(Seq::empty()) == Seq::<Timestamp>::empty(),
        told(seq![None]) == Seq::<Timestamp>::empty(),
        told(seq![Some(t)]) == seq![t],
        told(a + b) == told(a) + told(b),
    decreases b.len(),
{
    let none = Seq::<Option<Timestamp>>::empty();
    let one: Seq<Option<Timestamp>> = seq![Some(t)];
    let gap: Seq<Option<Timestamp>> = seq![None];
    assert(one.drop_last() =~= none);
    assert(gap.drop_last() =~= none);
    assert(told(none) =~= seq![]);
    assert(told(one) =~= seq![t]);
    assert(told(gap) =~= seq![]);
    if b.len() == 0 {
        assert(a + b =~= a);
        assert(told(a) + told(b) =~= told(a));
    } else {
        law_told_keeps_every_time(a, b.drop_last(), t);
        assert((a + b).drop_last() =~= a + b.drop_last());
        assert(told(a + b) =~= told(a) + told(b));
    }
}

} // verus!
