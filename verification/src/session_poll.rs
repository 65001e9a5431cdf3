//! One poll of the sessions of an AI coding tool, as a machine: new sessions are recorded, the
//! time of each log's last change is noted, and sessions whose process has ended are
//! marked as ended.

use vstd::prelude::*;
use vstd::string::*;

use crate::claude_tracking::{
    booked_repo, count_turns, find_session_log, is_process_running, law_booked_on_the_first_repo,
    log_path, map_to_repo, millis_to_rfc3339, process_of, start_instant, turn_count, SessionFile,
};
use crate::paths::{components, join_path, joined_path, law_join_appends};
use crate::platform::Liveness;
use crate::text::{lemma_first_of_unique, opt_text, same_text, split_at_char, texts};
use crate::time::{rfc3339_text, Timestamp};

verus! {

/// What the poll waits for.
#[derive(Debug, Clone, Copy, PartialEq, Eq, Structural)]
pub enum SessionPhase {
    /// Whether the directory of the session file is an ephemeral one.
    AskEphemeral(usize),
    /// The record of a session.
    Insert(usize),
    /// The time of the last change of the session's log.
    ReadLogTime(usize),
    /// The note of that time.
    Touch(usize, Timestamp),
    /// The recorded sessions that have not ended.
    ListActive,
    /// Whether the process of an active session is alive.
    Probe(usize),
    /// The log of a session that has ended.
    ReadLog(usize),
    /// The mark that the session has ended, with its turns where there is a log.
    MarkEnded(usize, Option<i64>),
    /// Nothing more.
    Finished,
}

/// The outcome of a piece of outside work.
pub enum SessionEvent {
    Ephemeral(bool),
    /// The time of the last change of the log, where there is one.
    LogTime(Option<Timestamp>),
    /// The active sessions, where they could be listed.
    Active(Option<Vec<String>>),
    Probed(Liveness),
    /// What is in the log, where there is one.
    LogRead(Option<String>),
    /// The work is done or has failed.
    Done,
}

/// The state of one poll.
pub struct SessionPoll {
    pub files: Vec<SessionFile>,
    pub watched_repos: Vec<String>,
    pub projects_dir: String,
    /// The recorded sessions that have not ended.
    pub active: Vec<String>,
    pub phase: SessionPhase,
}

/// What is recorded of a session.
#[derive(Debug)]
pub struct SessionRecord {
    pub tool: String,
    pub repo_path: String,
    pub session_id: String,
    pub started_at: String,
}

/// The directories of session files and of conversation logs: those given, else those in
/// the tool's own directory `tool_dir`, in the home directory.
pub fn session_dirs(
    home: &str,
    tool_dir: &str,
    sessions_dir: Option<String>,
    projects_dir: Option<String>,
) -> (r: (String, String))
    ensures
        uses_dirs(home@, tool_dir@, sessions_dir, projects_dir, r),
        r.0@ == match sessions_dir {
            Some(d) => d@,
            None => joined_path(joined_path(home@, tool_dir@), "sessions"@),
        },
        r.1@ == match projects_dir {
            Some(d) => d@,
            None => joined_path(joined_path(home@, tool_dir@), "projects"@),
        },
{
    let base = join_path(home, tool_dir);
    let sessions = match sessions_dir {
        Some(d) => d,
        None => join_path(base.as_str(), "sessions"),
    };
    let projects = match projects_dir {
        Some(d) => d,
        None => join_path(base.as_str(), "projects"),
    };
    (sessions, projects)
}

/// The process of a session: the one that the last file of the session names.
pub open spec fn pid_of(files: Seq<SessionFile>, id: Seq<char>) -> Option<u64>
    decreases files.len(),
{
    if files.len() == 0 {
        None
    } else if files.last().session_id@ == id {
        Some(files.last().pid)
    } else {
        pid_of(files.drop_last(), id)
    }
}

/// The directory that a session runs in: the one that the first file of the session names.
pub open spec fn cwd_of(files: Seq<SessionFile>, id: Seq<char>) -> Option<Seq<char>>
    decreases files.len(),
{
    if files.len() == 0 {
        None
    } else if files[0].session_id@ == id {
        Some(files[0].cwd@)
    } else {
        cwd_of(files.skip(1), id)
    }
}

/// A session that has a process also has a directory.
proof fn lemma_pid_and_cwd(files: Seq<SessionFile>, id: Seq<char>)
    ensures
        pid_of(files, id) is Some <==> exists|i: int|
            0 <= i < files.len() && (#[trigger] files[i]).session_id@ == id,
        cwd_of(files, id) is Some <==> exists|i: int|
            0 <= i < files.len() && (#[trigger] files[i]).session_id@ == id,
    decreases files.len(),
{
    if files.len() > 0 {
        let init = files.drop_last();
        let rest = files.skip(1);
        lemma_pid_and_cwd(init, id);
        lemma_pid_and_cwd(rest, id);
        if exists|i: int| 0 <= i < files.len() && (#[trigger] files[i]).session_id@ == id {
            let i = choose|i: int|
                0 <= i < files.len() && (#[trigger] files[i]).session_id@ == id;
            if i < init.len() {
                assert(init[i].session_id@ == id);
            }
            if i > 0 {
                assert(rest[i - 1].session_id@ == id);
            }
        }
        if pid_of(files, id) is Some {
            if files.last().session_id@ == id {
                assert(files[files.len() - 1].session_id@ == id);
            } else {
                let i = choose|i: int|
                    0 <= i < init.len() && (#[trigger] init[i]).session_id@ == id;
                assert(files[i].session_id@ == id);
            }
        }
        if cwd_of(files, id) is Some {
            if files[0].session_id@ != id {
                let i = choose|i: int|
                    0 <= i < rest.len() && (#[trigger] rest[i]).session_id@ == id;
                assert(files[i + 1].session_id@ == id);
            }
        }
    }
}

/// The phase that takes up the next active session from `j` on whose process is known. A
/// session without a file is left as it is.
pub open spec fn next_probe(
    files: Seq<SessionFile>,
    active: Seq<Seq<char>>,
    j: int,
) -> SessionPhase
    decreases active.len() - j,
{
    if j >= active.len() {
        SessionPhase::Finished
    } else if pid_of(files, active[j]) is Some {
        SessionPhase::Probe(j as usize)
    } else {
        next_probe(files, active, j + 1)
    }
}

/// The phase after the session file at `i` has been recorded or passed over.
pub open spec fn after_insert(files: Seq<SessionFile>, i: int) -> SessionPhase {
    if i + 1 < files.len() {
        SessionPhase::AskEphemeral((i + 1) as usize)
    } else {
        SessionPhase::ReadLogTime(0)
    }
}

/// The phase after the log of the session file at `i` has been noted or passed over.
pub open spec fn after_touch(files: Seq<SessionFile>, i: int) -> SessionPhase {
    if i + 1 < files.len() {
        SessionPhase::ReadLogTime((i + 1) as usize)
    } else {
        SessionPhase::ListActive
    }
}

/// Whether the phase is one that the poll can be in.
pub open spec fn phase_fits(
    files: Seq<SessionFile>,
    active: Seq<Seq<char>>,
    phase: SessionPhase,
) -> bool {
    match phase {
        SessionPhase::AskEphemeral(i) => i < files.len(),
        SessionPhase::Insert(i) => i < files.len(),
        SessionPhase::ReadLogTime(i) => i < files.len(),
        SessionPhase::Touch(i, t) => i < files.len() && t.wf(),
        SessionPhase::Probe(j) => j < active.len() && pid_of(files, active[j as int]) is Some,
        SessionPhase::ReadLog(j) => j < active.len() && pid_of(files, active[j as int]) is Some,
        SessionPhase::MarkEnded(j, _) => j < active.len(),
        _ => true,
    }
}

/// The active sessions and the phase that follow when `event` comes. An event that the
/// phase does not wait for changes nothing.
pub open spec fn session_next(
    files: Seq<SessionFile>,
    active: Seq<Seq<char>>,
    phase: SessionPhase,
    event: SessionEvent,
) -> (Seq<Seq<char>>, SessionPhase) {
    match (phase, event) {
        (SessionPhase::AskEphemeral(i), SessionEvent::Ephemeral(ephemeral)) => (
            active,
            if ephemeral {
                after_insert(files, i as int)
            } else {
                SessionPhase::Insert(i)
            },
        ),
        (SessionPhase::Insert(i), SessionEvent::Done) => (active, after_insert(files, i as int)),
        (SessionPhase::ReadLogTime(i), SessionEvent::LogTime(time)) => (
            active,
            match time {
                Some(t) => SessionPhase::Touch(i, t),
                None => after_touch(files, i as int),
            },
        ),
        (SessionPhase::Touch(i, _), SessionEvent::Done) => (active, after_touch(files, i as int)),
        (SessionPhase::ListActive, SessionEvent::Active(listed)) => match listed {
            Some(ids) => (texts(ids@), next_probe(files, texts(ids@), 0)),
            None => (active, SessionPhase::Finished),
        },
        (SessionPhase::Probe(j), SessionEvent::Probed(liveness)) => (
            active,
            if liveness == Liveness::NotRunning {
                SessionPhase::ReadLog(j)
            } else {
                next_probe(files, active, j + 1)
            },
        ),
        (SessionPhase::ReadLog(j), SessionEvent::LogRead(content)) => (
            active,
            SessionPhase::MarkEnded(
                j,
                match content {
                    Some(c) => Some(turn_count(c@) as i64),
                    None => None,
                },
            ),
        ),
        (SessionPhase::MarkEnded(j, _), SessionEvent::Done) => (
            active,
            next_probe(files, active, j + 1),
        ),
        _ => (active, phase),
    }
}

impl SessionPoll {
    /// Whether the phase is one that the poll can be in.
    pub open spec fn wf(&self) -> bool {
        phase_fits(self.files@, texts(self.active@), self.phase)
    }

    /// Starts a poll with the session files that were found.
    pub fn new(files: Vec<SessionFile>, watched_repos: Vec<String>, projects_dir: String) -> (r:
        SessionPoll)
        ensures
            r.wf(),
            r.files == files,
            r.watched_repos == watched_repos,
            r.projects_dir == projects_dir,
            r.active@.len() == 0,
            r.phase == if files@.len() > 0 {
                SessionPhase::AskEphemeral(0)
            } else {
                SessionPhase::ListActive
            },
    {
        let phase = if files.len() > 0 {
            SessionPhase::AskEphemeral(0)
        } else {
            SessionPhase::ListActive
        };
        SessionPoll { files, watched_repos, projects_dir, active: Vec::new(), phase }
    }

    /// What is recorded of the session file at `i`, which does not run in an ephemeral
    /// directory, as a session of the tool named `tool`.
    pub fn record(&self, i: usize, tool: &str) -> (r: SessionRecord)
        requires
            i < self.files@.len(),
        ensures
            records(self.files@[i as int], texts(self.watched_repos@), tool@, r),
            r.tool@ == tool@,
            Some(r.repo_path@) == booked_repo(
                self.files@[i as int].cwd@,
                false,
                texts(self.watched_repos@),
            ),
            r.session_id@ == self.files@[i as int].session_id@,
            r.started_at@ == rfc3339_text(start_instant(self.files@[i as int].started_at)),
    {
        let file = &self.files[i];
        let repo_path = match map_to_repo(file.cwd.as_str(), false, &self.watched_repos) {
            Some(repo) => repo,
            None => file.cwd.clone(),
        };
        SessionRecord {
            tool: tool.to_owned(),
            repo_path,
            session_id: file.session_id.clone(),
            started_at: millis_to_rfc3339(file.started_at),
        }
    }

    /// Where the log of the session file at `i` stands.
    pub fn log_path_of_file(&self, i: usize) -> (r: String)
        requires
            i < self.files@.len(),
        ensures
            r@ == log_path(
                self.projects_dir@,
                self.files@[i as int].cwd@,
                self.files@[i as int].session_id@,
            ),
    {
        find_session_log(
            self.projects_dir.as_str(),
            self.files[i].cwd.as_str(),
            self.files[i].session_id.as_str(),
        )
    }

    fn find_pid(&self, id: &str) -> (r: Option<u64>)
        ensures
            r == pid_of(self.files@, id@),
    {
        let ghost all = self.files@;
        let mut i: usize = self.files.len();
        assert(all.take(i as int) =~= all);
        while i > 0
            invariant
                i <= self.files.len(),
                all == self.files@,
                pid_of(all, id@) == pid_of(all.take(i as int), id@),
            decreases i,
        {
            assert(all.take(i as int).last() == all[i - 1]);
            assert(all.take(i as int).drop_last() =~= all.take(i - 1));
            if same_text(self.files[i - 1].session_id.as_str(), id) {
                return Some(self.files[i - 1].pid);
            }
            i = i - 1;
        }
        None
    }

    /// The process of the active session at `j`, as the operating system counts processes;
    /// none where no file of the session was found.
    pub fn active_process(&self, j: usize) -> (r: Option<u32>)
        requires
            j < self.active@.len(),
        ensures
            match pid_of(self.files@, self.active@[j as int]@) {
                Some(pid) => r == Some((pid % 0x1_0000_0000) as u32),
                None => r is None,
            },
    {
        match self.find_pid(self.active[j].as_str()) {
            Some(pid) => Some(process_of(pid)),
            None => None,
        }
    }

    /// Where the log of the active session at `j` stands; nowhere where no file of the
    /// session was found.
    pub fn active_log_path(&self, j: usize) -> (r: Option<String>)
        requires
            j < self.active@.len(),
        ensures
            opt_text(r) == match cwd_of(self.files@, self.active@[j as int]@) {
                Some(cwd) => Some(log_path(self.projects_dir@, cwd, self.active@[j as int]@)),
                None => None,
            },
    {
        let ghost all = self.files@;
        let ghost id = self.active@[j as int]@;
        let mut i: usize = 0;
        assert(all.skip(0) =~= all);
        while i < self.files.len()
            invariant
                i <= self.files.len(),
                j < self.active@.len(),
                all == self.files@,
                id == self.active@[j as int]@,
                cwd_of(all, id) == cwd_of(all.skip(i as int), id),
            decreases self.files.len() - i,
        {
            assert(all.skip(i as int)[0] == all[i as int]);
            assert(all.skip(i as int).skip(1) =~= all.skip(i + 1));
            if same_text(self.files[i].session_id.as_str(), self.active[j].as_str()) {
                return Some(
                    find_session_log(
                        self.projects_dir.as_str(),
                        self.files[i].cwd.as_str(),
                        self.active[j].as_str(),
                    ),
                );
            }
            i = i + 1;
        }
        None
    }

    fn seek_probe(&self, from: usize) -> (r: SessionPhase)
        requires
            from <= self.active@.len(),
        ensures
            r == next_probe(self.files@, texts(self.active@), from as int),
            phase_fits(self.files@, texts(self.active@), r),
    {
        let ghost ids = texts(self.active@);
        let mut j: usize = from;
        while j < self.active.len()
            invariant
                from <= j <= self.active.len(),
                ids == texts(self.active@),
                next_probe(self.files@, ids, from as int) == next_probe(self.files@, ids, j as int),
            decreases self.active.len() - j,
        {
            assert(ids[j as int] == self.active@[j as int]@);
            if self.find_pid(self.active[j].as_str()).is_some() {
                return SessionPhase::Probe(j);
            }
            j = j + 1;
        }
        SessionPhase::Finished
    }

    /// Goes on with the outcome of the work that the phase waits for. An outcome of other
    /// work changes nothing.
    #[verifier::rlimit(40)]
    pub fn step(&mut self, event: SessionEvent)
        requires
            old(self).wf(),
            event matches SessionEvent::LogTime(Some(t)) ==> t.wf(),
        ensures
            final(self).wf(),
            final(self).files == old(self).files,
            final(self).watched_repos == old(self).watched_repos,
            final(self).projects_dir == old(self).projects_dir,
            (texts(final(self).active@), final(self).phase) == session_next(
                old(self).files@,
                texts(old(self).active@),
                old(self).phase,
                event,
            ),
    {
        match (self.phase, event) {
            (SessionPhase::AskEphemeral(i), SessionEvent::Ephemeral(ephemeral)) => {
                self.phase = if ephemeral {
                    self.past_insert(i)
                } else {
                    SessionPhase::Insert(i)
                };
            },
            (SessionPhase::Insert(i), SessionEvent::Done) => {
                self.phase = self.past_insert(i);
            },
            (SessionPhase::ReadLogTime(i), SessionEvent::LogTime(time)) => {
                self.phase = match time {
                    Some(t) => SessionPhase::Touch(i, t),
                    None => self.past_touch(i),
                };
            },
            (SessionPhase::Touch(i, _), SessionEvent::Done) => {
                self.phase = self.past_touch(i);
            },
            (SessionPhase::ListActive, SessionEvent::Active(listed)) => {
                match listed {
                    Some(ids) => {
                        self.active = ids;
                        self.phase = self.seek_probe(0);
                    },
                    None => {
                        self.phase = SessionPhase::Finished;
                    },
                }
            },
            (SessionPhase::Probe(j), SessionEvent::Probed(liveness)) => {
                assert(j < self.active.len());
                self.phase = match is_process_running(liveness) {
                    Some(false) => SessionPhase::ReadLog(j),
                    _ => self.seek_probe(j + 1),
                };
            },
            (SessionPhase::ReadLog(j), SessionEvent::LogRead(content)) => {
                self.phase = SessionPhase::MarkEnded(
                    j,
                    match content {
                        Some(c) => Some(count_turns(c.as_str())),
                        None => None,
                    },
                );
            },
            (SessionPhase::MarkEnded(j, _), SessionEvent::Done) => {
                assert(j < self.active.len());
                self.phase = self.seek_probe(j + 1);
            },
            _ => {},
        }
    }

    fn past_insert(&self, i: usize) -> (r: SessionPhase)
        requires
            i < self.files@.len(),
        ensures
            r == after_insert(self.files@, i as int),
            phase_fits(self.files@, texts(self.active@), r),
    {
        if i < self.files.len() - 1 {
            SessionPhase::AskEphemeral(i + 1)
        } else {
            SessionPhase::ReadLogTime(0)
        }
    }

    fn past_touch(&self, i: usize) -> (r: SessionPhase)
        requires
            i < self.files@.len(),
        ensures
            r == after_touch(self.files@, i as int),
            phase_fits(self.files@, texts(self.active@), r),
    {
        if i < self.files.len() - 1 {
            SessionPhase::ReadLogTime(i + 1)
        } else {
            SessionPhase::ListActive
        }
    }
}

/// A session is marked as ended only after its process was found not to run; where that
/// cannot be told, and where no file of the session is left, it stays open.
pub proof fn law_ended_only_when_not_running(
    files: Seq<SessionFile>,
    active: Seq<Seq<char>>,
    phase: SessionPhase,
    event: SessionEvent,
)
    requires
        phase_fits(files, active, phase),
    ensures
        session_next(files, active, phase, event).1 is ReadLog && !(phase is ReadLog) ==> {
            let j = session_next(files, active, phase, event).1->ReadLog_0;
            &&& phase == SessionPhase::Probe(j)
            &&& event == SessionEvent::Probed(Liveness::NotRunning)
            &&& pid_of(files, active[j as int]) is Some
        },
        session_next(files, active, phase, event).1 is MarkEnded && !(phase is MarkEnded)
            ==> phase == SessionPhase::ReadLog(
            session_next(files, active, phase, event).1->MarkEnded_0,
        ),
{
    lemma_next_probe(files, active, 0);
    match (phase, event) {
        (SessionPhase::Probe(j), _) => {
            lemma_next_probe(files, active, j + 1);
        },
        (SessionPhase::MarkEnded(j, _), _) => {
            lemma_next_probe(files, active, j + 1);
        },
        (SessionPhase::ListActive, SessionEvent::Active(Some(ids))) => {
            lemma_next_probe(files, texts(ids@), 0);
        },
        _ => {},
    }
}

/// What is taken up is the first session from `j` on whose process is known.
proof fn lemma_next_probe(files: Seq<SessionFile>, active: Seq<Seq<char>>, j: int)
    requires
        0 <= j,
    ensures
        next_probe(files, active, j) is Finished || next_probe(files, active, j) is Probe,
    decreases active.len() - j,
{
    if j < active.len() && pid_of(files, active[j]) is None {
        lemma_next_probe(files, active, j + 1);
    }
}

/// Every active session with a known process is probed: none from `j` on is passed over.
pub proof fn law_no_session_is_passed_over(
    files: Seq<SessionFile>,
    active: Seq<Seq<char>>,
    j: int,
    k: int,
)
    requires
        0 <= j <= k < active.len() <= usize::MAX,
        pid_of(files, active[k]) is Some,
    ensures
        next_probe(files, active, j) matches SessionPhase::Probe(n) && j <= n <= k,
    decreases active.len() - j,
{
    if pid_of(files, active[j]) is None {
        law_no_session_is_passed_over(files, active, j + 1, k);
    }
}

/// A session that has ended has a directory to look for its log in.
pub proof fn law_probed_session_has_log_path(files: Seq<SessionFile>, id: Seq<char>)
    requires
        pid_of(files, id) is Some,
    ensures
        cwd_of(files, id) is Some,
{
    lemma_pid_and_cwd(files, id);
}

/// Whether a file of the session was found.
pub open spec fn has_file(files: Seq<SessionFile>, id: Seq<char>) -> bool {
    exists|i: int| 0 <= i < files.len() && (#[trigger] files[i]).session_id@ == id
}

/// Whether `phase` takes up the first of the sessions from `from` on that a file was found
/// of, and ends the poll where there is none.
pub open spec fn probes_next_from(
    files: Seq<SessionFile>,
    active: Seq<Seq<char>>,
    from: int,
    phase: SessionPhase,
) -> bool {
    match phase {
        SessionPhase::Probe(n) => {
            &&& from <= n < active.len()
            &&& has_file(files, active[n as int])
            &&& forall|k: int| from <= k < n ==> !has_file(files, #[trigger] active[k])
        },
        SessionPhase::Finished => forall|k: int|
            from <= k < active.len() ==> !has_file(files, #[trigger] active[k]),
        _ => false,
    }
}

/// Every active session that a file was found of is probed: the first such one is taken up
/// once the sessions are listed, the next such one after each probe that did not find the
/// process gone and after each session that was marked as ended, and the poll is finished
/// only where no such session is left.
pub proof fn law_every_known_session_is_probed(
    files: Seq<SessionFile>,
    active: Seq<Seq<char>>,
    phase: SessionPhase,
    event: SessionEvent,
)
    requires
        phase_fits(files, active, phase),
        active.len() <= usize::MAX,
    ensures
        ({
            let (listed, next) = session_next(files, active, phase, event);
            match (phase, event) {
                (SessionPhase::ListActive, SessionEvent::Active(Some(ids))) => {
                    &&& listed.len() == ids.len()
                    &&& forall|k: int| 0 <= k < ids.len() ==> #[trigger] listed[k] == ids[k]@
                    &&& probes_next_from(files, listed, 0, next)
                },
                (SessionPhase::ListActive, SessionEvent::Active(None)) => next
                    == SessionPhase::Finished,
                (SessionPhase::Probe(j), SessionEvent::Probed(liveness)) => {
                    &&& listed == active
                    &&& liveness is NotRunning ==> next == SessionPhase::ReadLog(j)
                    &&& !(liveness is NotRunning) ==> probes_next_from(files, active, j + 1, next)
                },
                (SessionPhase::ReadLog(j), SessionEvent::LogRead(content)) => {
                    &&& listed == active
                    &&& next is MarkEnded && next->MarkEnded_0 == j
                    &&& content matches Some(c) ==> next->MarkEnded_1 == Some(
                        turn_count(c@) as i64,
                    )
                    &&& content is None ==> next->MarkEnded_1 is None
                },
                (SessionPhase::MarkEnded(j, _), SessionEvent::Done) => {
                    &&& listed == active
                    &&& probes_next_from(files, active, j + 1, next)
                },
                _ => listed == active && (next is Finished ==> phase is Finished),
            }
        }),
{
    match (phase, event) {
        (SessionPhase::ListActive, SessionEvent::Active(Some(ids))) => {
            assert(texts(ids@).len() == ids.len());
            lemma_probes_next(files, texts(ids@), 0);
        },
        (SessionPhase::Probe(j), _) => {
            lemma_probes_next(files, active, j + 1);
        },
        (SessionPhase::MarkEnded(j, _), _) => {
            lemma_probes_next(files, active, j + 1);
        },
        _ => {},
    }
}

/// What is taken up next is the first session that a file was found of.
proof fn lemma_probes_next(files: Seq<SessionFile>, active: Seq<Seq<char>>, from: int)
    requires
        0 <= from,
        active.len() <= usize::MAX,
    ensures
        probes_next_from(files, active, from, next_probe(files, active, from)),
    decreases active.len() - from,
{
    if from < active.len() {
        lemma_pid_and_cwd(files, active[from]);
        if pid_of(files, active[from]) is None {
            lemma_probes_next(files, active, from + 1);
        }
    }
}

/// Every session file is looked at, in order: each is recorded unless it runs in an
/// ephemeral directory, then the log of each is looked at, and its time is noted where it
/// has one. The active sessions are listed only after the last log.
pub proof fn law_every_file_is_taken_up(
    files: Seq<SessionFile>,
    active: Seq<Seq<char>>,
    phase: SessionPhase,
    event: SessionEvent,
)
    requires
        phase_fits(files, active, phase),
        files.len() <= usize::MAX,
    ensures
        ({
            let next = session_next(files, active, phase, event).1;
            match (phase, event) {
                (SessionPhase::AskEphemeral(i), SessionEvent::Ephemeral(false)) => next
                    == SessionPhase::Insert(i),
                (SessionPhase::AskEphemeral(i), SessionEvent::Ephemeral(true))
                | (SessionPhase::Insert(i), SessionEvent::Done) => match next {
                    SessionPhase::AskEphemeral(n) => n == i + 1 && n < files.len(),
                    SessionPhase::ReadLogTime(n) => n == 0 && i == files.len() - 1,
                    _ => false,
                },
                (SessionPhase::ReadLogTime(i), SessionEvent::LogTime(Some(t))) => next
                    == SessionPhase::Touch(i, t),
                (SessionPhase::ReadLogTime(i), SessionEvent::LogTime(None))
                | (SessionPhase::Touch(i, _), SessionEvent::Done) => match next {
                    SessionPhase::ReadLogTime(n) => n == i + 1 && n < files.len(),
                    SessionPhase::ListActive => i == files.len() - 1,
                    _ => false,
                },
                _ => next is ListActive ==> phase is ListActive,
            }
        }),
{
    match (phase, event) {
        (SessionPhase::ListActive, SessionEvent::Active(Some(ids))) => {
            lemma_next_probe(files, texts(ids@), 0);
        },
        (SessionPhase::Probe(j), _) => {
            lemma_next_probe(files, active, j + 1);
        },
        (SessionPhase::MarkEnded(j, _), _) => {
            lemma_next_probe(files, active, j + 1);
        },
        _ => {},
    }
}

/// An outcome of other work than the phase waits for changes nothing.
pub proof fn law_other_events_change_nothing(
    files: Seq<SessionFile>,
    active: Seq<Seq<char>>,
    phase: SessionPhase,
    event: SessionEvent,
)
    requires
        session_next(files, active, phase, event) != (active, phase),
    ensures
        match event {
            SessionEvent::Ephemeral(_) => phase is AskEphemeral,
            SessionEvent::LogTime(_) => phase is ReadLogTime,
            SessionEvent::Active(_) => phase is ListActive,
            SessionEvent::Probed(_) => phase is Probe,
            SessionEvent::LogRead(_) => phase is ReadLog,
            SessionEvent::Done => phase is Insert || phase is Touch || phase is MarkEnded,
        },
{
}

/// Where several files name one session, its process is that of the last of them and its
/// directory that of the first.
pub proof fn law_last_process_and_first_directory(
    files: Seq<SessionFile>,
    id: Seq<char>,
    i: int,
)
    requires
        0 <= i < files.len(),
        files[i].session_id@ == id,
    ensures
        (forall|k: int| i < k < files.len() ==> (#[trigger] files[k]).session_id@ != id)
            ==> pid_of(files, id) == Some(files[i].pid),
        (forall|k: int| 0 <= k < i ==> (#[trigger] files[k]).session_id@ != id) ==> cwd_of(
            files,
            id,
        ) == Some(files[i].cwd@),
    decreases files.len(),
{
    if forall|k: int| i < k < files.len() ==> (#[trigger] files[k]).session_id@ != id {
        if i < files.len() - 1 {
            assert(files[files.len() - 1].session_id@ != id);
            let init = files.drop_last();
            assert forall|k: int| i < k < init.len() implies (#[trigger] init[k]).session_id@
                != id by {
                assert(files[k].session_id@ != id);
            }
            law_last_process_and_first_directory(init, id, i);
        }
    }
    if forall|k: int| 0 <= k < i ==> (#[trigger] files[k]).session_id@ != id {
        if i > 0 {
            assert(files[0].session_id@ != id);
            let rest = files.skip(1);
            assert forall|k: int| 0 <= k < i - 1 implies (#[trigger] rest[k]).session_id@
                != id by {
                assert(files[k + 1].session_id@ != id);
            }
            law_last_process_and_first_directory(rest, id, i - 1);
        }
    }
}

/// Whether a record tells of a session file, as a session of the tool named `tool`.
pub open spec fn records(
    file: SessionFile,
    watched: Seq<Seq<char>>,
    tool: Seq<char>,
    record: SessionRecord,
) -> bool {
    &&& record.tool@ == tool
    &&& Some(record.repo_path@) == booked_repo(file.cwd@, false, watched)
    &&& record.session_id@ == file.session_id@
    &&& record.started_at@ == rfc3339_text(start_instant(file.started_at))
}

/// A record names the session and the tool, and the first watched repository that the
/// session runs in, or else its directory.
pub proof fn law_record_tells_of_its_session(
    file: SessionFile,
    watched: Seq<Seq<char>>,
    tool: Seq<char>,
    record: SessionRecord,
    i: int,
)
    requires
        records(file, watched, tool, record),
        0 <= i <= watched.len(),
        forall|j: int|
            0 <= j < i ==> !components(#[trigger] watched[j]).is_prefix_of(
                components(file.cwd@),
            ),
    ensures
        record.tool@ == tool,
        record.session_id@ == file.session_id@,
        i == watched.len() ==> record.repo_path@ == file.cwd@,
        i < watched.len() && components(watched[i]).is_prefix_of(components(file.cwd@))
            ==> record.repo_path@ == watched[i],
{
    law_booked_on_the_first_repo(file.cwd@, watched, i);
}

/// Which directories are used for session files and for logs.
pub open spec fn uses_dirs(
    home: Seq<char>,
    tool_dir: Seq<char>,
    sessions_dir: Option<String>,
    projects_dir: Option<String>,
    dirs: (String, String),
) -> bool {
    &&& dirs.0@ == match sessions_dir {
        Some(d) => d@,
        None => joined_path(joined_path(home, tool_dir), "sessions"@),
    }
    &&& dirs.1@ == match projects_dir {
        Some(d) => d@,
        None => joined_path(joined_path(home, tool_dir), "projects"@),
    }
}

/// A directory that is given is used as it is; one that is not is the one of its name, one
/// level below the tool's own directory.
pub proof fn law_default_dirs_are_the_tools(
    home: Seq<char>,
    tool_dir: Seq<char>,
    sessions_dir: Option<String>,
    projects_dir: Option<String>,
    dirs: (String, String),
)
    requires
        uses_dirs(home, tool_dir, sessions_dir, projects_dir, dirs),
        home.len() > 0,
        tool_dir.len() > 0,
        tool_dir[0] != '/',
        split_at_char(tool_dir, '/')[0] != seq!['.'],
    ensures
        sessions_dir matches Some(d) ==> dirs.0@ == d@,
        projects_dir matches Some(d) ==> dirs.1@ == d@,
        sessions_dir is None ==> components(dirs.0@) == components(home) + components(tool_dir)
            + components("sessions"@),
        projects_dir is None ==> components(dirs.1@) == components(home) + components(tool_dir)
            + components("projects"@),
{
    let base = joined_path(home, tool_dir);
    law_join_appends(home, tool_dir);
    reveal_strlit("sessions");
    reveal_strlit("projects");
    lemma_first_of_unique("sessions"@, '/', 8);
    lemma_first_of_unique("projects"@, '/', 8);
    assert(split_at_char("sessions"@, '/')[0] == "sessions"@);
    assert(split_at_char("projects"@, '/')[0] == "projects"@);
    assert("sessions"@[0] != seq!['.'][0] && "projects"@[0] != seq!['.'][0]);
    law_join_appends(base, "sessions"@);
    law_join_appends(base, "projects"@);
}

} // verus!
