//! PTY session registry: the sessions keyed by id, the spawn, write,
//! resize, kill and inject decisions, the process-tree termination plan,
//! and the reader task's per-read step.
//!
//! The registry holds one record per live session; the operating-system
//! handles (master, writer, child) live with the runtime outside the
//! library, keyed by the same ids. Opening the pseudo-terminal, writing
//! bytes, signalling and waiting are carried out there, following the
//! decisions and plans returned by the functions here.

use vstd::prelude::*;
use crate::text::str_eq;

verus! {

// ---------------------------------------------------------------------------
// Records
// ---------------------------------------------------------------------------

/// Information about a terminal session returned to the front end.
#[derive(Debug, Clone)]
pub struct TerminalInfo {
    pub session_id: String,
    pub is_alive: bool,
}

/// Structured output event for automated consumers.
#[derive(Debug, Clone)]
pub struct TerminalOutput {
    pub session_id: String,
    pub data: String,
    pub timestamp: String,
}

/// One live session as the registry sees it: its id and the child's OS
/// process id, when known.
#[derive(Debug, Clone)]
pub struct PtySession {
    pub session_id: String,
    pub pid: Option<u32>,
}

/// Errors the registry operations report.
#[derive(Debug)]
pub enum PtyError {
    /// No session with the given id is registered.
    NotFound(String),
}

impl PtyError {
    /// The single-line message shown to the front end.
    pub fn message(&self) -> (r: String)
        ensures
            match self {
                PtyError::NotFound(id) => r@ == "Session not found: "@ + id@,
            },
    {
        match self {
            PtyError::NotFound(id) => {
                let mut s = "Session not found: ".to_owned();
                s.append(id.as_str());
                s
            },
        }
    }
}

// ---------------------------------------------------------------------------
// The registry
// ---------------------------------------------------------------------------

/// All live PTY sessions. The runtime outside the library serializes
/// access; the registry itself is plain data with a uniqueness invariant
/// over session ids.
#[derive(Debug)]
pub struct PtyState {
    pub sessions: Vec<PtySession>,
}

impl Default for PtyState {
    /// A fresh registry with no sessions.
    fn default() -> (r: Self)
        ensures
            r.sessions@.len() == 0,
            r.wf(),
    {
        PtyState { sessions: Vec::new() }
    }
}

impl PtyState {
    /// The registered session ids, in registration order.
    pub open spec fn ids(&self) -> Seq<Seq<char>> {
        self.sessions@.map_values(|s: PtySession| s.session_id@)
    }

    /// Whether a session with this id is registered.
    pub open spec fn contains_id(&self, id: Seq<char>) -> bool {
        self.ids().contains(id)
    }

    /// Registry invariant: session ids are unique.
    pub open spec fn wf(&self) -> bool {
        forall|i: int, j: int| 0 <= i < j < self.ids().len() ==> self.ids()[i] != self.ids()[j]
    }

    /// Whether a session with this id is registered.
    pub fn contains(&self, session_id: &str) -> (r: bool)
        ensures
            r == self.contains_id(session_id@),
    {
        let n = self.sessions.len();
        let mut i: usize = 0;
        while i < n
            invariant
                n == self.sessions@.len(),
                i <= n,
                forall|j: int| 0 <= j < i ==> self.ids()[j] != session_id@,
            decreases n - i,
        {
            if str_eq(self.sessions[i].session_id.as_str(), session_id) {
                proof {
                    assert(self.ids()[i as int] == session_id@);
                }
                return true;
            }
            i = i + 1;
        }
        proof {
            assert(!self.ids().contains(session_id@));
        }
        false
    }

    /// Resolves the id a spawn request will use: the requested id when one
    /// was supplied, otherwise a fresh random one. Also reports whether a
    /// session under that id already exists, in which case the caller
    /// reuses it instead of spawning a second shell.
    pub fn resolve_session_id(&self, requested: Option<String>) -> (r: (String, bool))
        ensures
            match requested {
                Some(id) => r.0 == id,
                None => r.0@.len() == 36,
            },
            r.1 == self.contains_id(r.0@),
    {
        let id = match requested {
            Some(id) => id,
            None => fresh_session_id(),
        };
        let exists_already = self.contains(id.as_str());
        (id, exists_already)
    }

    /// Registers a session under its id. Refuses (and changes nothing)
    /// when the id is already taken, so spawning is idempotent per id;
    /// otherwise appends the record and reports true.
    pub fn register(&mut self, session_id: String, pid: Option<u32>) -> (r: bool)
        ensures
            r == !old(self).contains_id(session_id@),
            r ==> final(self).sessions@ == old(self).sessions@.push(
                (PtySession { session_id, pid }),
            ),
            !r ==> *final(self) == *old(self),
            old(self).wf() ==> final(self).wf(),
            final(self).contains_id(session_id@),
    {
        if self.contains(session_id.as_str()) {
            return false;
        }
        proof {
            assert(forall|j: int|
                0 <= j < self.ids().len() ==> self.ids()[j] != session_id@);
        }
        let ghost pre = *self;
        self.sessions.push(PtySession { session_id, pid });
        proof {
            assert(self.ids() =~= pre.ids().push(self.sessions@.last().session_id@));
            assert(self.ids()[pre.ids().len() as int] == self.sessions@.last().session_id@);
            if pre.wf() {
                assert forall|i: int, j: int| 0 <= i < j < self.ids().len() implies self.ids()[i]
                    != self.ids()[j] by {
                    if j < pre.ids().len() {
                        assert(pre.ids()[i] != pre.ids()[j]);
                    }
                }
            }
        }
        true
    }

    /// Removes the session with this id and hands its record back for
    /// termination. Fails with not-found, changing nothing, when no such
    /// session exists; afterwards the id is no longer registered.
    pub fn remove(&mut self, session_id: &str) -> (r: Result<PtySession, PtyError>)
        ensures
            r is Ok <==> old(self).contains_id(session_id@),
            r is Ok ==> exists|i: int|
                0 <= i < old(self).sessions@.len() && (#[trigger] old(
                    self,
                ).sessions@[i]).session_id@ == session_id@ && r->Ok_0 == old(self).sessions@[i]
                    && final(self).sessions@ == old(self).sessions@.remove(i),
            r is Err ==> *final(self) == *old(self) && r->Err_0->NotFound_0@ == session_id@,
            old(self).wf() ==> final(self).wf(),
            old(self).wf() ==> !final(self).contains_id(session_id@),
    {
        let n = self.sessions.len();
        let mut i: usize = 0;
        while i < n
            invariant
                *self == *old(self),
                n == self.sessions@.len(),
                i <= n,
                forall|j: int| 0 <= j < i ==> self.ids()[j] != session_id@,
            decreases n - i,
        {
            if str_eq(self.sessions[i].session_id.as_str(), session_id) {
                let ghost pre = *self;
                let rec = self.sessions.remove(i);
                proof {
                    assert(pre.ids()[i as int] == session_id@);
                    assert(pre.contains_id(session_id@));
                    pre.sessions@.remove_ensures(i as int);
                    assert(self.ids() =~= pre.ids().remove(i as int));
                    pre.ids().remove_ensures(i as int);
                    if pre.wf() {
                        assert forall|a: int, b: int|
                            0 <= a < b < self.ids().len() implies self.ids()[a]
                            != self.ids()[b] by {
                            let a0 = if a < i { a } else { a + 1 };
                            let b0 = if b < i { b } else { b + 1 };
                            assert(self.ids()[a] == pre.ids()[a0]);
                            assert(self.ids()[b] == pre.ids()[b0]);
                        }
                        assert forall|a: int| 0 <= a < self.ids().len() implies self.ids()[a]
                            != session_id@ by {
                            let a0 = if a < i { a } else { a + 1 };
                            assert(self.ids()[a] == pre.ids()[a0]);
                            if a0 < i {
                                assert(pre.ids()[a0] != pre.ids()[i as int]);
                            } else {
                                assert(pre.ids()[i as int] != pre.ids()[a0]);
                            }
                        }
                        assert(!self.contains_id(session_id@));
                    }
                }
                return Ok(rec);
            }
            i = i + 1;
        }
        proof {
            assert(!self.contains_id(session_id@));
        }
        Err(PtyError::NotFound(session_id.to_owned()))
    }

    /// Checks that a session exists before the runtime writes to it or
    /// resizes it: exactly the not-found rule of those operations.
    pub fn check_session(&self, session_id: &str) -> (r: Result<(), PtyError>)
        ensures
            r is Ok <==> self.contains_id(session_id@),
            r is Err ==> r->Err_0->NotFound_0@ == session_id@,
    {
        if self.contains(session_id) {
            Ok(())
        } else {
            Err(PtyError::NotFound(session_id.to_owned()))
        }
    }

    /// Lists the live sessions, in registration order, each marked alive.
    pub fn list(&self) -> (r: Vec<TerminalInfo>)
        ensures
            r@.len() == self.ids().len(),
            forall|i: int|
                0 <= i < r@.len() ==> (#[trigger] r@[i]).session_id@ == self.ids()[i]
                    && r@[i].is_alive,
    {
        let n = self.sessions.len();
        let mut out: Vec<TerminalInfo> = Vec::new();
        let mut i: usize = 0;
        while i < n
            invariant
                n == self.sessions@.len(),
                i <= n,
                out@.len() == i,
                forall|j: int|
                    0 <= j < i ==> (#[trigger] out@[j]).session_id@ == self.ids()[j]
                        && out@[j].is_alive,
            decreases n - i,
        {
            out.push(
                TerminalInfo { session_id: self.sessions[i].session_id.clone(), is_alive: true },
            );
            i = i + 1;
        }
        out
    }

    /// Empties the registry and hands every record back, so the caller can
    /// terminate each session's process tree on application exit.
    pub fn drain(&mut self) -> (r: Vec<PtySession>)
        ensures
            r@ == old(self).sessions@,
            final(self).sessions@.len() == 0,
            final(self).wf(),
    {
        let mut out: Vec<PtySession> = Vec::new();
        core::mem::swap(&mut out, &mut self.sessions);
        out
    }
}

// ---------------------------------------------------------------------------
// Spawning
// ---------------------------------------------------------------------------

/// How the shell child is launched: the shell binary, the initial terminal
/// size, the TERM value, and the working directory.
#[derive(Debug, Clone)]
pub struct ShellLaunch {
    pub shell: String,
    pub rows: u16,
    pub cols: u16,
    pub term_value: String,
    pub cwd: Option<String>,
}

/// Builds the launch description for a new session: the shell from the
/// SHELL environment value (defaulting to /bin/bash), a 24x80 terminal,
/// TERM set to xterm-256color, and the working directory from HOME when
/// present.
pub fn plan_spawn(shell_env: Option<String>, home: Option<String>) -> (r: ShellLaunch)
    ensures
        match shell_env {
            Some(sh) => r.shell == sh,
            None => r.shell@ == "/bin/bash"@,
        },
        r.rows == 24 && r.cols == 80,
        r.term_value@ == "xterm-256color"@,
        r.cwd == home,
{
    let shell = match shell_env {
        Some(sh) => sh,
        None => "/bin/bash".to_owned(),
    };
    ShellLaunch { shell, rows: 24, cols: 80, term_value: "xterm-256color".to_owned(), cwd: home }
}

/// Name of the per-session raw-output event channel.
pub fn output_event_name(session_id: &str) -> (r: String)
    ensures
        r@ == "pty-output-"@ + session_id@,
{
    let mut s = "pty-output-".to_owned();
    s.append(session_id);
    s
}

/// Name of the per-session close event channel.
pub fn close_event_name(session_id: &str) -> (r: String)
    ensures
        r@ == "pty-close-"@ + session_id@,
{
    let mut s = "pty-close-".to_owned();
    s.append(session_id);
    s
}

// ---------------------------------------------------------------------------
// Input injection
// ---------------------------------------------------------------------------

/// The line written into a session for an injected command: the command
/// followed by a newline, so the shell executes it.
pub fn command_line(command: &str) -> (r: String)
    ensures
        r@ == command@ + "\n"@,
{
    let mut s = command.to_owned();
    s.append("\n");
    s
}

/// One step of a multi-command injection.
#[derive(Debug)]
pub enum InjectStep {
    /// Write this payload to the session's input, as one contiguous write.
    WriteLine(String),
    /// Wait this many milliseconds before the next write.
    PauseMs(u64),
}

/// The schedule for injecting several commands: each command becomes one
/// contiguous write of the command plus a newline, with a 100 ms pause
/// between consecutive commands and none after the last.
pub fn injection_plan(commands: &Vec<String>) -> (r: Vec<InjectStep>)
    ensures
        commands@.len() == 0 ==> r@.len() == 0,
        commands@.len() > 0 ==> r@.len() == 2 * commands@.len() - 1,
        forall|k: int|
            0 <= k < r@.len() ==> if k % 2 == 0 {
                (#[trigger] r@[k]) matches InjectStep::WriteLine(w) && w@ == commands@[k / 2]@
                    + "\n"@
            } else {
                r@[k] matches InjectStep::PauseMs(p) && p == 100
            },
{
    let n = commands.len();
    let mut out: Vec<InjectStep> = Vec::new();
    let mut i: usize = 0;
    while i < n
        invariant
            n == commands@.len(),
            i <= n,
            i == 0 ==> out@.len() == 0,
            i > 0 ==> out@.len() == 2 * i - 1,
            forall|k: int|
                0 <= k < out@.len() ==> if k % 2 == 0 {
                    (#[trigger] out@[k]) matches InjectStep::WriteLine(w) && w@ == commands@[k / 2]@
                        + "\n"@
                } else {
                    out@[k] matches InjectStep::PauseMs(p) && p == 100
                },
        decreases n - i,
    {
        if i > 0 {
            out.push(InjectStep::PauseMs(100));
        }
        out.push(InjectStep::WriteLine(command_line(commands[i].as_str())));
        i = i + 1;
    }
    out
}

// ---------------------------------------------------------------------------
// Process-tree termination
// ---------------------------------------------------------------------------

/// A signal sent to a process group.
#[derive(Debug, Clone, Copy, PartialEq, Eq, Structural)]
pub enum TermSignal {
    /// SIGHUP: ask the group to shut down cleanly.
    Hangup,
    /// SIGKILL: force the group down.
    Kill,
}

/// One step of terminating a session's process tree.
#[derive(Debug, Clone, Copy, PartialEq, Eq, Structural)]
pub enum TermStep {
    /// Signal the whole process group of this pid (the child leads its own
    /// group, so its pid is the group id). Failures are logged, not fatal.
    SignalGroup(u32, TermSignal),
    /// Grace period, in milliseconds, for clean-up handlers.
    PauseMs(u64),
    /// Fall back to killing the child handle directly.
    KillChild,
    /// Wait on the child to reap the zombie; always the last step.
    Reap,
}

/// The termination plan for a session: signal the process group with
/// hangup, give it a 100 ms grace period, force-kill the group, then reap;
/// without a known pid, kill the child directly and reap. Reaping always
/// happens last, whatever came before.
pub fn termination_plan(pid: Option<u32>) -> (r: Vec<TermStep>)
    ensures
        match pid {
            Some(p) => r@ =~= seq![
                TermStep::SignalGroup(p, TermSignal::Hangup),
                TermStep::PauseMs(100),
                TermStep::SignalGroup(p, TermSignal::Kill),
                TermStep::Reap,
            ],
            None => r@ =~= seq![TermStep::KillChild, TermStep::Reap],
        },
        r@.len() > 0 && r@.last() == TermStep::Reap,
{
    let mut out: Vec<TermStep> = Vec::new();
    match pid {
        Some(p) => {
            out.push(TermStep::SignalGroup(p, TermSignal::Hangup));
            out.push(TermStep::PauseMs(100));
            out.push(TermStep::SignalGroup(p, TermSignal::Kill));
            out.push(TermStep::Reap);
        },
        None => {
            out.push(TermStep::KillChild);
            out.push(TermStep::Reap);
        },
    }
    out
}

// ---------------------------------------------------------------------------
// The reader task's step
// ---------------------------------------------------------------------------

/// What one blocking read from the session's output returned.
#[derive(Debug)]
pub enum ReadOutcome {
    /// The bytes read.
    Data(Vec<u8>),
    /// The child closed its output.
    Eof,
    /// The read failed.
    Failed,
}

/// What the reader task does with one read.
#[derive(Debug)]
pub enum ReaderAction {
    /// Emit the raw text on the session's output channel and the attached
    /// structured record on the capture channel.
    Emit(String, TerminalOutput),
    /// Emit the session's close event and stop reading.
    Close,
}

/// The result of decoding arbitrary bytes as UTF-8 with lossy replacement.
pub uninterp spec fn lossy_decode(bytes: Seq<u8>) -> Seq<char>;

/// Relies on String::from_utf8_lossy: the result is a function of the
/// bytes alone (valid UTF-8 decodes as itself, malformed sequences become
/// replacement characters), and an empty input decodes to an empty string.
#[verifier::external_body]
fn lossy_utf8(bytes: &Vec<u8>) -> (r: String)
    ensures
        r@ == lossy_decode(bytes@),
        bytes@.len() == 0 ==> r@.len() == 0,
{
    String::from_utf8_lossy(bytes.as_slice()).to_string()
}

/// Relies on uuid::Uuid::new_v4 and its hyphenated textual form: a random
/// identifier rendered as 36 characters. Nothing is assumed beyond the
/// length; in particular not uniqueness.
#[verifier::external_body]
fn fresh_session_id() -> (r: String)
    ensures
        r@.len() == 36,
{
    uuid::Uuid::new_v4().to_string()
}

/// Relies on chrono::Local::now and DateTime::to_rfc3339 for the
/// structured event timestamp. Nothing is assumed of the current time.
#[verifier::external_body]
fn now_rfc3339() -> (r: String) {
    chrono::Local::now().to_rfc3339()
}

/// One step of the reader task: on data, the raw lossy-decoded text is
/// emitted together with the structured record (same text, this session's
/// id, the current local time); on end-of-file or a failed read the
/// session's close event follows.
pub fn reader_step(session_id: &str, outcome: ReadOutcome) -> (a: ReaderAction)
    ensures
        match outcome {
            ReadOutcome::Data(b) => a matches ReaderAction::Emit(raw, ev) && raw@ == lossy_decode(
                b@,
            ) && ev.session_id@ == session_id@ && ev.data@ == lossy_decode(b@),
            ReadOutcome::Eof => a is Close,
            ReadOutcome::Failed => a is Close,
        },
{
    match outcome {
        ReadOutcome::Data(b) => {
            let raw = lossy_utf8(&b);
            let record = TerminalOutput {
                session_id: session_id.to_owned(),
                data: raw.clone(),
                timestamp: now_rfc3339(),
            };
            ReaderAction::Emit(raw, record)
        },
        ReadOutcome::Eof => ReaderAction::Close,
        ReadOutcome::Failed => ReaderAction::Close,
    }
}

// ---------------------------------------------------------------------------
// Laws of the registry
// ---------------------------------------------------------------------------

/// Registering a session adds exactly its id to the listing: the new id is
/// listed, and any other id is listed afterwards exactly when it was
/// before.
pub proof fn lemma_spawn_adds_to_listing(pre: PtyState, post: PtyState, rec: PtySession)
    requires
        post.sessions@ == pre.sessions@.push(rec),
    ensures
        post.contains_id(rec.session_id@),
        forall|other: Seq<char>|
            #[trigger] post.contains_id(other) <==> pre.contains_id(other) || other
                == rec.session_id@,
{
    assert(post.ids() =~= pre.ids().push(rec.session_id@));
    assert(post.ids()[pre.ids().len() as int] == rec.session_id@);
    assert forall|other: Seq<char>| #[trigger]
        post.contains_id(other) <==> pre.contains_id(other) || other == rec.session_id@ by {
        if post.contains_id(other) {
            let i = choose|i: int| 0 <= i < post.ids().len() && post.ids()[i] == other;
            if i < pre.ids().len() {
                assert(pre.ids()[i] == other);
            }
        }
        if pre.contains_id(other) {
            let i = choose|i: int| 0 <= i < pre.ids().len() && pre.ids()[i] == other;
            assert(post.ids()[i] == other);
        }
    }
}

/// Removing a session removes exactly its id from the listing: the removed
/// id is no longer listed, and any other id is listed afterwards exactly
/// when it was before.
pub proof fn lemma_kill_removes_from_listing(pre: PtyState, post: PtyState, i: int)
    requires
        pre.wf(),
        0 <= i < pre.sessions@.len(),
        post.sessions@ == pre.sessions@.remove(i),
    ensures
        !post.contains_id(pre.ids()[i]),
        forall|other: Seq<char>|
            other != pre.ids()[i] ==> ((#[trigger] post.contains_id(other)) <==> pre.contains_id(
                other,
            )),
{
    pre.sessions@.remove_ensures(i);
    assert(post.ids() =~= pre.ids().remove(i));
    pre.ids().remove_ensures(i);
    assert forall|a: int| 0 <= a < post.ids().len() implies post.ids()[a] != pre.ids()[i] by {
        let a0 = if a < i {
            a
        } else {
            a + 1
        };
        assert(post.ids()[a] == pre.ids()[a0]);
    }
    assert forall|other: Seq<char>| other != pre.ids()[i] implies ((#[trigger] post.contains_id(
        other,
    )) <==> pre.contains_id(other)) by {
        if post.contains_id(other) {
            let a = choose|a: int| 0 <= a < post.ids().len() && post.ids()[a] == other;
            let a0 = if a < i {
                a
            } else {
                a + 1
            };
            assert(pre.ids()[a0] == other);
        }
        if pre.contains_id(other) {
            let a0 = choose|a0: int| 0 <= a0 < pre.ids().len() && pre.ids()[a0] == other;
            let a = if a0 < i {
                a0
            } else {
                a0 - 1
            };
            assert(post.ids()[a] == other);
        }
    }
}

} // verus!
