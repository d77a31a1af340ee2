//! One dsh session: ensure the runtime, spawn `dsh web --no-open --port 0`, read the
//! `dsh web: <url>` line, watch the child and report its exit. The phase tells which
//! outside work comes next; its result is handed back by the method named after it.
use vstd::prelude::*;
use vstd::slice::slice_subrange;
use vstd::string::*;

use crate::command::{CommandLine, CommandView, EnvVar, Stream};
use crate::messages::{Note, NoteView, UiMsg, UiMsgView};
use crate::os::OsText;
use crate::runtime::Runtime;
use crate::{node, os, reap, runtime, text};

verus! {

/// The dist-tag that the first run installs.
pub const FIRST_INSTALL: &'static str = "latest";

/// How long to wait before the child is looked at again, in milliseconds.
pub const WATCH_MILLIS: u64 = 200;

/// What `dsh web` prints before its URL.
pub open spec fn ready_prefix() -> Seq<char> {
    "dsh web: "@
}

/// What `dsh web` prints between its URL and its addresses in the local network.
pub open spec fn lan_note() -> Seq<char> {
    " (LAN:"@
}

/// The authenticated URL, where a line that `dsh web` prints tells it.
pub open spec fn ready_url_of(line: Seq<char>) -> Option<Seq<char>> {
    if text::occurs_at(line, ready_prefix(), 0) {
        Some(text::trim(text::up_to(line.skip(ready_prefix().len() as int), lan_note())))
    } else {
        None
    }
}

/// The authenticated URL, where a line that `dsh web` prints tells it.
pub fn ready_url(line: &str) -> (r: Option<String>)
    ensures
        r.deep_view() == ready_url_of(line@),
{
    let chars: Vec<char> = text::chars_of(line);
    let n: usize = chars.len();
    let prefix: Vec<char> = text::chars_of("dsh web: ");
    let note: Vec<char> = text::chars_of(" (LAN:");
    if !text::starts_with_chars(chars.as_slice(), prefix.as_slice()) {
        return None;
    }
    let from: usize = prefix.len();
    let rest = slice_subrange(chars.as_slice(), from, n);
    assert(rest@ =~= line@.skip(from as int));
    proof {
        text::lemma_find_is_first(rest@, note@);
    }
    let to: usize = match text::find_chars(rest, note.as_slice()) {
        Some(at) => from + at,
        None => n,
    };
    let url = line.substring_char(from, to);
    assert(url@ =~= text::up_to(rest@, note@));
    Some(text::trim_text(url))
}

/// What a line of the child's standard output makes a session say.
pub open spec fn stdout_notes_of(session: u64, line: Seq<char>) -> Seq<NoteView> {
    match ready_url_of(line) {
        Some(url) => seq![
            NoteView::Log("ready line: "@ + line),
            NoteView::Ui(UiMsgView::Ready { session, url }),
        ],
        None => seq![NoteView::Log("[dsh stdout] "@ + line)],
    }
}

/// What a line of the child's standard output makes a session say.
pub fn stdout_notes(session: u64, line: &str) -> (r: Vec<Note>)
    ensures
        r.deep_view() == stdout_notes_of(session, line@),
{
    match ready_url(line) {
        Some(url) => {
            let log = "ready line: ".to_owned().concat(line);
            let r: Vec<Note> = vec![Note::Log(log), Note::Ui(UiMsg::Ready { session, url })];
            assert(r.deep_view() =~= stdout_notes_of(session, line@));
            r
        },
        None => {
            let r: Vec<Note> = vec![Note::Log("[dsh stdout] ".to_owned().concat(line))];
            assert(r.deep_view() =~= stdout_notes_of(session, line@));
            r
        },
    }
}

/// What a line of the child's error stream makes a session say.
pub fn stderr_note(line: &str) -> (r: Note)
    ensures
        r@ == NoteView::Log("[dsh stderr] "@ + line@),
{
    Note::Log("[dsh stderr] ".to_owned().concat(line))
}

/// The command that runs `dsh web`, in the home directory of the user, or in the
/// root directory where that is not known.
pub open spec fn dsh_command_of(
    home: Seq<u8>,
    node: Seq<u8>,
    user_home: Option<Seq<u8>>,
) -> CommandView {
    CommandView {
        program: node,
        args: seq![
            runtime::dsh_bin_of(home),
            os::utf8("web"@),
            os::utf8("--no-open"@),
            os::utf8("--port"@),
            os::utf8("0"@),
        ],
        env: Seq::empty(),
        cwd: Some(
            match user_home {
                Some(dir) => dir,
                None => os::utf8("/"@),
            },
        ),
        stdin: Stream::Unset,
        stdout: Stream::Piped,
        stderr: Stream::Piped,
    }
}

impl Runtime {
    /// The command that runs `dsh web` for a given home directory of the user.
    pub fn dsh_command_in(&self, node: &OsText, user_home: Option<OsText>) -> (r: CommandLine)
        ensures
            r@ == dsh_command_of(self.home(), node@, user_home.deep_view()),
    {
        let args: Vec<OsText> = vec![
            self.dsh_bin(),
            OsText::of("web"),
            OsText::of("--no-open"),
            OsText::of("--port"),
            OsText::of("0"),
        ];
        assert(args.deep_view() =~= dsh_command_of(
            self.home(),
            node@,
            user_home.deep_view(),
        ).args);
        let env: Vec<EnvVar> = Vec::new();
        assert(env.deep_view() =~= Seq::<(Seq<char>, Seq<u8>)>::empty());
        let cwd = match user_home {
            Some(dir) => dir,
            None => OsText::of("/"),
        };
        CommandLine {
            program: node.clone(),
            args,
            env,
            cwd: Some(cwd),
            stdin: Stream::Unset,
            stdout: Stream::Piped,
            stderr: Stream::Piped,
        }
    }

    /// The command that runs `dsh web`, in the user's home directory.
    pub fn dsh_command(&self, node: &OsText) -> (r: CommandLine)
        ensures
            exists|user_home: Option<Seq<u8>>|
                (user_home matches Some(dir) ==> dir.len() > 0) && r@ == #[trigger] dsh_command_of(
                    self.home(),
                    node@,
                    user_home,
                ),
    {
        let user_home = os::home_dir();
        let ghost found = user_home.deep_view();
        let r = self.dsh_command_in(node, user_home);
        assert(r@ == dsh_command_of(self.home(), node@, found));
        r
    }
}

/// The outside work that a session waits for.
#[derive(Debug, Clone, Copy, PartialEq, Eq, Structural)]
pub enum SessionPhase {
    /// Search for Node.
    EnsureNode,
    /// See whether the session is still the current one.
    CheckBooted,
    /// Read which version of dsh is installed.
    ReadInstalled,
    /// Install dsh.
    Install,
    /// Read which version was installed.
    ReadBack,
    /// See whether the session is still the current one.
    CheckReady,
    /// Spawn `dsh web`.
    Spawn,
    /// See whether the session is still the current one.
    Watch,
    /// See whether the child has exited.
    Poll,
    /// Wait for `WATCH_MILLIS`.
    Pause,
    /// None: the session is over.
    Done,
}

/// Something that a session does.
#[derive(Debug)]
pub enum SessionAct {
    /// Write a line to the log.
    Log(String),
    /// Send a message to the user interface.
    Ui(UiMsg),
    /// Make this the contents of the pid file.
    WritePidFile(String),
    /// Keep the child where the worker can kill it, and read its two streams.
    KeepChild,
    /// Kill the child that is kept, and wait for its end.
    KillChild,
    /// Keep the child no longer.
    DropChild,
    /// Remove the pid file.
    RemovePidFile,
}

/// Something that a session does, with its texts as sequences.
#[verifier::ext_equal]
pub enum SessionActView {
    Log(Seq<char>),
    Ui(UiMsgView),
    WritePidFile(Seq<char>),
    KeepChild,
    KillChild,
    DropChild,
    RemovePidFile,
}

impl DeepView for SessionAct {
    type V = SessionActView;

    open spec fn deep_view(&self) -> SessionActView {
        match self {
            SessionAct::Log(line) => SessionActView::Log(line@),
            SessionAct::Ui(msg) => SessionActView::Ui(msg@),
            SessionAct::WritePidFile(contents) => SessionActView::WritePidFile(contents@),
            SessionAct::KeepChild => SessionActView::KeepChild,
            SessionAct::KillChild => SessionActView::KillChild,
            SessionAct::DropChild => SessionActView::DropChild,
            SessionAct::RemovePidFile => SessionActView::RemovePidFile,
        }
    }
}

/// A session under way.
#[derive(Debug)]
pub struct Session {
    id: u64,
    phase: SessionPhase,
    node: OsText,
    bundled: bool,
}

/// A session under way, with its texts as sequences.
#[verifier::ext_equal]
pub struct SessionView {
    pub id: u64,
    pub phase: SessionPhase,
    pub node: Seq<u8>,
    pub bundled: bool,
}

/// A result of outside work. Where the session may have to report its end, the
/// result comes with the seconds since the session started.
pub enum SessionEvent {
    NodeReady(Result<(Seq<u8>, bool), Seq<char>>, u64),
    Current(bool),
    InstalledRead(Option<Seq<char>>),
    Installed(Result<(), Seq<char>>, u64),
    Spawned(Result<u32, Seq<char>>, u64),
    Polled(Option<Option<i32>>, u64),
    Paused,
}

/// The start of a session.
pub open spec fn session_start(id: u64) -> SessionView {
    SessionView { id, phase: SessionPhase::EnsureNode, node: Seq::empty(), bundled: false }
}

/// The message that a session has ended.
pub open spec fn exit_report(id: u64, code: Option<i32>, uptime: u64) -> UiMsgView {
    UiMsgView::Exited { session: id, code, uptime_secs: uptime }
}

/// The message that a session has ended.
pub fn report_exit(session: u64, code: Option<i32>, uptime_secs: u64) -> (r: UiMsg)
    ensures
        r@ == exit_report(session, code, uptime_secs),
{
    UiMsg::Exited { session, code, uptime_secs }
}

/// A session that cannot go on says why, to the log and to the user, and reports
/// its end.
pub open spec fn give_up(
    id: u64,
    log: Seq<char>,
    status: Seq<char>,
    uptime: u64,
) -> Seq<SessionActView> {
    seq![
        SessionActView::Log(log),
        SessionActView::Ui(UiMsgView::Status(status)),
        SessionActView::Ui(exit_report(id, None, uptime)),
    ]
}

/// What a session does with a child that it has spawned.
pub open spec fn take_in(pid: u32) -> Seq<SessionActView> {
    seq![
        SessionActView::Log("dsh web started pid="@ + text::decimal(pid as nat)),
        SessionActView::WritePidFile(reap::pid_line_of(pid)),
        SessionActView::KeepChild,
    ]
}

/// What a session that is no longer current does with its child, without a word.
pub open spec fn leave_quietly() -> Seq<SessionActView> {
    seq![SessionActView::KillChild, SessionActView::DropChild, SessionActView::RemovePidFile]
}

/// What a session does when its child has exited.
pub open spec fn wind_up(id: u64, code: Option<i32>, uptime: u64) -> Seq<SessionActView> {
    seq![
        SessionActView::DropChild,
        SessionActView::RemovePidFile,
        SessionActView::Log(
            "dsh exited code="@ + text::shown_code(code) + " uptime="@ + text::decimal(
                uptime as nat,
            ) + "s"@,
        ),
        SessionActView::Ui(exit_report(id, code, uptime)),
    ]
}

/// What the user is told while dsh is installed for the first time.
pub open spec fn first_install_status() -> Seq<char> {
    "首次运行：正在安装官方 @deepseek-ai/dsh（约需几十秒）…"@
}

/// What a session does with a result: where it goes on, and what it does.
pub open spec fn session_step(s: SessionView, event: SessionEvent) -> (
    SessionView,
    Seq<SessionActView>,
) {
    let none = Seq::<SessionActView>::empty();
    let go_on = |phase: SessionPhase| SessionView { phase, ..s };
    let done = SessionView { phase: SessionPhase::Done, ..s };
    match (s.phase, event) {
        (SessionPhase::EnsureNode, SessionEvent::NodeReady(Ok((node, bundled)), _)) => (
            SessionView { phase: SessionPhase::CheckBooted, node, bundled, ..s },
            none,
        ),
        (SessionPhase::EnsureNode, SessionEvent::NodeReady(Err(e), uptime)) => (
            done,
            give_up(s.id, "node bootstrap failed: "@ + e, "Node.js 不可用："@ + e, uptime),
        ),
        (SessionPhase::CheckBooted, SessionEvent::Current(current)) => if current {
            (go_on(SessionPhase::ReadInstalled), none)
        } else {
            (done, none)
        },
        (SessionPhase::ReadInstalled, SessionEvent::InstalledRead(Some(_))) => (
            go_on(SessionPhase::CheckReady),
            none,
        ),
        (SessionPhase::ReadInstalled, SessionEvent::InstalledRead(None)) => (
            go_on(SessionPhase::Install),
            seq![SessionActView::Ui(UiMsgView::Status(first_install_status()))],
        ),
        (SessionPhase::Install, SessionEvent::Installed(Ok(_), _)) => (
            go_on(SessionPhase::ReadBack),
            none,
        ),
        (SessionPhase::Install, SessionEvent::Installed(Err(e), uptime)) => (
            done,
            give_up(s.id, "install failed: "@ + e, "安装失败："@ + e, uptime),
        ),
        (SessionPhase::ReadBack, SessionEvent::InstalledRead(version)) => (
            go_on(SessionPhase::CheckReady),
            seq![
                SessionActView::Log(
                    "installed dsh "@ + match version {
                        Some(v) => v,
                        None => Seq::empty(),
                    },
                ),
            ],
        ),
        (SessionPhase::CheckReady, SessionEvent::Current(current)) => if current {
            (go_on(SessionPhase::Spawn), none)
        } else {
            (done, none)
        },
        (SessionPhase::Spawn, SessionEvent::Spawned(Ok(pid), _)) => (
            go_on(SessionPhase::Watch),
            take_in(pid),
        ),
        (SessionPhase::Spawn, SessionEvent::Spawned(Err(e), uptime)) => (
            done,
            give_up(s.id, "spawn dsh failed: "@ + e, "启动失败："@ + e, uptime),
        ),
        (SessionPhase::Watch, SessionEvent::Current(current)) => if current {
            (go_on(SessionPhase::Poll), none)
        } else {
            (done, leave_quietly())
        },
        (SessionPhase::Poll, SessionEvent::Polled(Some(code), uptime)) => (
            done,
            wind_up(s.id, code, uptime),
        ),
        (SessionPhase::Poll, SessionEvent::Polled(None, _)) => (go_on(SessionPhase::Pause), none),
        (SessionPhase::Pause, SessionEvent::Paused) => (go_on(SessionPhase::Watch), none),
        _ => (s, none),
    }
}

impl View for Session {
    type V = SessionView;

    closed spec fn view(&self) -> SessionView {
        SessionView {
            id: self.id,
            phase: self.phase,
            node: self.node@,
            bundled: self.bundled,
        }
    }
}

/// The session waits to be told whether it is still current.
pub open spec fn asks_current(phase: SessionPhase) -> bool {
    phase == SessionPhase::CheckBooted || phase == SessionPhase::CheckReady || phase
        == SessionPhase::Watch
}

/// The session waits for the installed version.
pub open spec fn asks_installed(phase: SessionPhase) -> bool {
    phase == SessionPhase::ReadInstalled || phase == SessionPhase::ReadBack
}

/// The process number of a child, or an error text as a sequence.
pub open spec fn spawn_result(r: Result<u32, String>) -> Result<u32, Seq<char>> {
    match r {
        Ok(pid) => Ok(pid),
        Err(e) => Err(e@),
    }
}

fn no_acts() -> (r: Vec<SessionAct>)
    ensures
        r.deep_view() == Seq::<SessionActView>::empty(),
{
    let r: Vec<SessionAct> = Vec::new();
    assert(r.deep_view() =~= Seq::<SessionActView>::empty());
    r
}

impl Session {
    /// The session of the given number.
    pub fn new(id: u64) -> (r: Session)
        ensures
            r@ == session_start(id),
    {
        let none: Vec<u8> = Vec::new();
        assert(none@ =~= Seq::<u8>::empty());
        Session {
            id,
            phase: SessionPhase::EnsureNode,
            node: OsText { bytes: none },
            bundled: false,
        }
    }

    /// The outside work that comes next.
    pub fn phase(&self) -> (r: SessionPhase)
        ensures
            r == self@.phase,
    {
        self.phase
    }

    /// The Node binary, and whether its npm comes from the bundle.
    pub fn node(&self) -> (r: (OsText, bool))
        ensures
            (r.0@, r.1) == (self@.node, self@.bundled),
    {
        (self.node.clone(), self.bundled)
    }

    /// The dist-tag that is installed where dsh is missing.
    pub fn install_version(&self) -> (r: String)
        ensures
            r@ == FIRST_INSTALL@,
    {
        FIRST_INSTALL.to_owned()
    }

    fn give_up(&mut self, log: String, status: String, uptime: u64) -> (r: Vec<SessionAct>)
        ensures
            final(self)@ == (SessionView { phase: SessionPhase::Done, ..old(self)@ }),
            r.deep_view() == give_up(old(self)@.id, log@, status@, uptime),
    {
        self.phase = SessionPhase::Done;
        let r: Vec<SessionAct> = vec![
            SessionAct::Log(log),
            SessionAct::Ui(UiMsg::Status(status)),
            SessionAct::Ui(report_exit(self.id, None, uptime)),
        ];
        assert(r.deep_view() =~= give_up(old(self)@.id, log@, status@, uptime));
        r
    }

    /// The search for Node came to its end.
    pub fn node_ready(&mut self, found: Result<(OsText, bool), String>, uptime: u64) -> (r: Vec<
        SessionAct,
    >)
        requires
            old(self)@.phase == SessionPhase::EnsureNode,
        ensures
            (final(self)@, r.deep_view()) == session_step(
                old(self)@,
                SessionEvent::NodeReady(node::node_result(found), uptime),
            ),
    {
        match found {
            Ok((path, bundled)) => {
                self.node = path;
                self.bundled = bundled;
                self.phase = SessionPhase::CheckBooted;
                no_acts()
            },
            Err(e) => {
                let log = "node bootstrap failed: ".to_owned().concat(e.as_str());
                let status = "Node.js 不可用：".to_owned().concat(e.as_str());
                self.give_up(log, status, uptime)
            },
        }
    }

    /// The session is still the current one, or not.
    pub fn current(&mut self, current: bool) -> (r: Vec<SessionAct>)
        requires
            asks_current(old(self)@.phase),
        ensures
            (final(self)@, r.deep_view()) == session_step(
                old(self)@,
                SessionEvent::Current(current),
            ),
    {
        match self.phase {
            SessionPhase::CheckBooted => {
                self.phase = if current {
                    SessionPhase::ReadInstalled
                } else {
                    SessionPhase::Done
                };
                no_acts()
            },
            SessionPhase::CheckReady => {
                self.phase = if current {
                    SessionPhase::Spawn
                } else {
                    SessionPhase::Done
                };
                no_acts()
            },
            _ => {
                if current {
                    self.phase = SessionPhase::Poll;
                    no_acts()
                } else {
                    self.phase = SessionPhase::Done;
                    let r: Vec<SessionAct> = vec![
                        SessionAct::KillChild,
                        SessionAct::DropChild,
                        SessionAct::RemovePidFile,
                    ];
                    assert(r.deep_view() =~= leave_quietly());
                    r
                }
            },
        }
    }

    /// The installed version was read; `None` where none is installed.
    pub fn installed_read(&mut self, version: Option<String>) -> (r: Vec<SessionAct>)
        requires
            asks_installed(old(self)@.phase),
        ensures
            (final(self)@, r.deep_view()) == session_step(
                old(self)@,
                SessionEvent::InstalledRead(version.deep_view()),
            ),
    {
        match self.phase {
            SessionPhase::ReadInstalled => {
                if version.is_some() {
                    self.phase = SessionPhase::CheckReady;
                    no_acts()
                } else {
                    self.phase = SessionPhase::Install;
                    let status = "首次运行：正在安装官方 @deepseek-ai/dsh（约需几十秒）…";
                    let r: Vec<SessionAct> = vec![SessionAct::Ui(UiMsg::Status(status.to_owned()))];
                    assert(r.deep_view() =~= seq![
                        SessionActView::Ui(UiMsgView::Status(first_install_status())),
                    ]);
                    r
                }
            },
            _ => {
                self.phase = SessionPhase::CheckReady;
                let shown = match version {
                    Some(v) => v,
                    None => String::new(),
                };
                let line = "installed dsh ".to_owned().concat(shown.as_str());
                let r: Vec<SessionAct> = vec![SessionAct::Log(line)];
                assert(r.deep_view() =~= seq![SessionActView::Log(line@)]);
                r
            },
        }
    }

    /// dsh was installed, or not.
    pub fn installed(&mut self, result: Result<(), String>, uptime: u64) -> (r: Vec<SessionAct>)
        requires
            old(self)@.phase == SessionPhase::Install,
        ensures
            (final(self)@, r.deep_view()) == session_step(
                old(self)@,
                SessionEvent::Installed(text::unit_result(result), uptime),
            ),
    {
        match result {
            Ok(_) => {
                self.phase = SessionPhase::ReadBack;
                no_acts()
            },
            Err(e) => {
                let log = "install failed: ".to_owned().concat(e.as_str());
                let status = "安装失败：".to_owned().concat(e.as_str());
                self.give_up(log, status, uptime)
            },
        }
    }

    /// `dsh web` was spawned, or not.
    pub fn spawned(&mut self, result: Result<u32, String>, uptime: u64) -> (r: Vec<SessionAct>)
        requires
            old(self)@.phase == SessionPhase::Spawn,
        ensures
            (final(self)@, r.deep_view()) == session_step(
                old(self)@,
                SessionEvent::Spawned(spawn_result(result), uptime),
            ),
    {
        match result {
            Ok(pid) => {
                self.phase = SessionPhase::Watch;
                let line = "dsh web started pid=".to_owned().concat(
                    text::decimal_text(pid as u64).as_str(),
                );
                let r: Vec<SessionAct> = vec![
                    SessionAct::Log(line),
                    SessionAct::WritePidFile(reap::pid_line(pid)),
                    SessionAct::KeepChild,
                ];
                assert(r.deep_view() =~= take_in(pid));
                r
            },
            Err(e) => {
                let log = "spawn dsh failed: ".to_owned().concat(e.as_str());
                let status = "启动失败：".to_owned().concat(e.as_str());
                self.give_up(log, status, uptime)
            },
        }
    }

    /// The child was looked at: it has exited, with a code where it was not ended
    /// by a signal, or it still runs.
    pub fn polled(&mut self, exited: Option<Option<i32>>, uptime: u64) -> (r: Vec<SessionAct>)
        requires
            old(self)@.phase == SessionPhase::Poll,
        ensures
            (final(self)@, r.deep_view()) == session_step(
                old(self)@,
                SessionEvent::Polled(exited, uptime),
            ),
    {
        match exited {
            Some(code) => {
                self.phase = SessionPhase::Done;
                let line = "dsh exited code=".to_owned().concat(
                    text::shown_code_text(code).as_str(),
                ).concat(" uptime=").concat(text::decimal_text(uptime).as_str()).concat("s");
                let r: Vec<SessionAct> = vec![
                    SessionAct::DropChild,
                    SessionAct::RemovePidFile,
                    SessionAct::Log(line),
                    SessionAct::Ui(report_exit(self.id, code, uptime)),
                ];
                assert(r.deep_view() =~= wind_up(old(self)@.id, code, uptime));
                r
            },
            None => {
                self.phase = SessionPhase::Pause;
                no_acts()
            },
        }
    }

    /// The wait is over.
    pub fn paused(&mut self)
        requires
            old(self)@.phase == SessionPhase::Pause,
        ensures
            (final(self)@, Seq::<SessionActView>::empty()) == session_step(
                old(self)@,
                SessionEvent::Paused,
            ),
    {
        self.phase = SessionPhase::Watch;
    }
}

/// What a session does on results that come one after the other.
pub open spec fn session_run(s: SessionView, events: Seq<SessionEvent>) -> (
    SessionView,
    Seq<SessionActView>,
)
    decreases events.len(),
{
    if events.len() == 0 {
        (s, Seq::empty())
    } else {
        let (before, acts) = session_run(s, events.drop_last());
        let (last, more) = session_step(before, events.last());
        (last, acts + more)
    }
}

/// How many of the acts are of a kind.
pub open spec fn tally(acts: Seq<SessionActView>, kind: spec_fn(SessionActView) -> bool) -> int
    decreases acts.len(),
{
    if acts.len() == 0 {
        0
    } else {
        tally(acts.drop_last(), kind) + if kind(acts.last()) {
            1int
        } else {
            0int
        }
    }
}

proof fn lemma_tally_add(
    a: Seq<SessionActView>,
    b: Seq<SessionActView>,
    kind: spec_fn(SessionActView) -> bool,
)
    ensures
        tally(a + b, kind) == tally(a, kind) + tally(b, kind),
    decreases b.len(),
{
    if b.len() == 0 {
        assert(a + b =~= a);
    } else {
        assert((a + b).drop_last() =~= a + b.drop_last());
        lemma_tally_add(a, b.drop_last(), kind);
    }
}

/// How often a child is taken in.
pub open spec fn children_kept(acts: Seq<SessionActView>) -> int {
    tally(acts, |act: SessionActView| act is KeepChild)
}

/// How often a child is let go.
pub open spec fn children_dropped(acts: Seq<SessionActView>) -> int {
    tally(acts, |act: SessionActView| act is DropChild)
}

/// How often the pid file is written.
pub open spec fn pids_written(acts: Seq<SessionActView>) -> int {
    tally(acts, |act: SessionActView| act is WritePidFile)
}

/// How often the pid file is removed.
pub open spec fn pids_removed(acts: Seq<SessionActView>) -> int {
    tally(acts, |act: SessionActView| act is RemovePidFile)
}

/// The act reports the end of a session.
pub open spec fn is_exit(act: SessionActView) -> bool {
    act matches SessionActView::Ui(msg) && msg is Exited
}

/// How often the end of a session is reported.
pub open spec fn exits_reported(acts: Seq<SessionActView>) -> int {
    tally(acts, |act: SessionActView| is_exit(act))
}

/// The session has a child.
pub open spec fn has_child(phase: SessionPhase) -> bool {
    phase == SessionPhase::Watch || phase == SessionPhase::Poll || phase == SessionPhase::Pause
}

proof fn lemma_step_tallies(s: SessionView, event: SessionEvent)
    ensures
        ({
            let (next, acts) = session_step(s, event);
            &&& children_kept(acts) == if !has_child(s.phase) && has_child(next.phase) {
                1int
            } else {
                0int
            }
            &&& children_dropped(acts) == if has_child(s.phase) && !has_child(next.phase) {
                1int
            } else {
                0int
            }
            &&& pids_written(acts) == children_kept(acts)
            &&& pids_removed(acts) == children_dropped(acts)
            &&& 0 <= exits_reported(acts) <= 1
            &&& exits_reported(acts) == 1 ==> next.phase == SessionPhase::Done && s.phase
                != SessionPhase::Done
            &&& !has_child(s.phase) && has_child(next.phase) ==> s.phase == SessionPhase::Spawn
            &&& has_child(s.phase) && !has_child(next.phase) ==> next.phase == SessionPhase::Done
        }),
{
    let acts = session_step(s, event).1;
    assert(acts.len() <= 4);
    reveal_with_fuel(tally, 5);
}

/// A session has come to its end, or it has a child, or it has never had one.
pub open spec fn session_ledger(phase: SessionPhase, acts: Seq<SessionActView>) -> bool {
    &&& 0 <= children_dropped(acts) <= children_kept(acts) <= 1
    &&& has_child(phase) ==> children_kept(acts) == 1 && children_dropped(acts) == 0
    &&& !has_child(phase) ==> children_dropped(acts) == children_kept(acts)
    &&& phase != SessionPhase::Done && !has_child(phase) ==> children_kept(acts) == 0
    &&& pids_written(acts) == children_kept(acts)
    &&& pids_removed(acts) == children_dropped(acts)
    &&& 0 <= exits_reported(acts) <= 1
    &&& phase != SessionPhase::Done ==> exits_reported(acts) == 0
}

/// Whatever results come, a session takes in at most one child, and reports its
/// end at most once. A session that is over has let its child go and has removed
/// the pid file that it wrote.
pub proof fn lemma_session_ledger(id: u64, events: Seq<SessionEvent>)
    ensures
        session_ledger(
            session_run(session_start(id), events).0.phase,
            session_run(session_start(id), events).1,
        ),
    decreases events.len(),
{
    if events.len() > 0 {
        let (before, acts) = session_run(session_start(id), events.drop_last());
        let (last, more) = session_step(before, events.last());
        lemma_session_ledger(id, events.drop_last());
        lemma_step_tallies(before, events.last());
        lemma_tally_add(acts, more, |act: SessionActView| act is KeepChild);
        lemma_tally_add(acts, more, |act: SessionActView| act is DropChild);
        lemma_tally_add(acts, more, |act: SessionActView| act is WritePidFile);
        lemma_tally_add(acts, more, |act: SessionActView| act is RemovePidFile);
        lemma_tally_add(acts, more, |act: SessionActView| is_exit(act));
        if before.phase == SessionPhase::Done {
            assert(more =~= Seq::<SessionActView>::empty());
        }
    }
}

/// The report that a session has ended is the last thing that the session does,
/// and names that session.
pub proof fn lemma_exit_report_is_last(id: u64, events: Seq<SessionEvent>, i: int)
    requires
        0 <= i < session_run(session_start(id), events).1.len(),
        is_exit(session_run(session_start(id), events).1[i]),
    ensures
        session_run(session_start(id), events).0.phase == SessionPhase::Done,
        i == session_run(session_start(id), events).1.len() - 1,
        exists|code: Option<i32>, uptime: u64|
            session_run(session_start(id), events).1[i] == SessionActView::Ui(
                #[trigger] exit_report(id, code, uptime),
            ),
    decreases events.len(),
{
    lemma_session_id(id, events);
    let (before, acts) = session_run(session_start(id), events.drop_last());
    let (last, more) = session_step(before, events.last());
    let all = session_run(session_start(id), events).1;
    lemma_session_id(id, events.drop_last());
    if i < acts.len() {
        assert(all[i] == acts[i]);
        lemma_exit_report_is_last(id, events.drop_last(), i);
        assert(more =~= Seq::<SessionActView>::empty());
    } else {
        assert(all[i] == more[i - acts.len()]);
        match events.last() {
            SessionEvent::NodeReady(_, uptime) => {
                assert(more.last() == SessionActView::Ui(exit_report(id, None, uptime)));
            },
            SessionEvent::Installed(_, uptime) => {
                assert(more.last() == SessionActView::Ui(exit_report(id, None, uptime)));
            },
            SessionEvent::Spawned(_, uptime) => {
                assert(more.last() == SessionActView::Ui(exit_report(id, None, uptime)));
            },
            SessionEvent::Polled(Some(code), uptime) => {
                assert(more.last() == SessionActView::Ui(exit_report(id, code, uptime)));
            },
            _ => {},
        }
    }
}

proof fn lemma_session_id(id: u64, events: Seq<SessionEvent>)
    ensures
        session_run(session_start(id), events).0.id == id,
    decreases events.len(),
{
    if events.len() > 0 {
        lemma_session_id(id, events.drop_last());
    }
}

/// A session that learns that it is no longer current is over, says nothing to the
/// user, and has killed and let go the child that it had.
pub proof fn lemma_stale_session_leaves_quietly(s: SessionView)
    requires
        asks_current(s.phase),
    ensures
        session_step(s, SessionEvent::Current(false)).0.phase == SessionPhase::Done,
        session_step(s, SessionEvent::Current(false)).1 == if has_child(s.phase) {
            leave_quietly()
        } else {
            Seq::empty()
        },
        forall|i: int|
            0 <= i < session_step(s, SessionEvent::Current(false)).1.len() ==> !((
            #[trigger] session_step(s, SessionEvent::Current(false)).1[i]) is Ui),
{
}

/// A session that ends for any other reason than that it is no longer current
/// reports its end.
pub proof fn lemma_end_is_reported(s: SessionView, event: SessionEvent)
    requires
        s.phase != SessionPhase::Done,
        session_step(s, event).0.phase == SessionPhase::Done,
        event != SessionEvent::Current(false),
    ensures
        session_step(s, event).1.len() > 0,
        is_exit(session_step(s, event).1.last()),
{
}

/// `dsh web` is spawned only by a session that has just been found to be current.
pub proof fn lemma_spawn_needs_current(s: SessionView, event: SessionEvent)
    requires
        s.phase != SessionPhase::Spawn,
        session_step(s, event).0.phase == SessionPhase::Spawn,
    ensures
        s.phase == SessionPhase::CheckReady,
        event == SessionEvent::Current(true),
{
}

/// A session that is out of date, and stays so, spawns nothing more: whatever
/// results come, a stale boot takes in no child. A session that was found current
/// and is about to spawn learns of it at its next look.
pub proof fn lemma_stale_session_never_spawns(s: SessionView, events: Seq<SessionEvent>)
    requires
        s.phase != SessionPhase::Spawn,
        forall|i: int| 0 <= i < events.len() ==> #[trigger] events[i] != SessionEvent::Current(true),
    ensures
        session_run(s, events).0.phase != SessionPhase::Spawn,
        children_kept(session_run(s, events).1) == 0,
    decreases events.len(),
{
    if events.len() > 0 {
        let (before, acts) = session_run(s, events.drop_last());
        let (last, more) = session_step(before, events.last());
        assert forall|i: int| 0 <= i < events.drop_last().len() implies #[trigger] events.drop_last()[i]
            != SessionEvent::Current(true) by {
            assert(events[i] != SessionEvent::Current(true));
        }
        lemma_stale_session_never_spawns(s, events.drop_last());
        assert(events[events.len() - 1] != SessionEvent::Current(true));
        lemma_step_tallies(before, events.last());
        lemma_tally_add(acts, more, |act: SessionActView| act is KeepChild);
    }
}

/// A session lets its child go only when the child has exited, or right after it
/// has killed the child and waited for its end.
pub proof fn lemma_child_is_never_left_running(s: SessionView, event: SessionEvent, i: int)
    requires
        0 <= i < session_step(s, event).1.len(),
        session_step(s, event).1[i] is DropChild,
    ensures
        (event matches SessionEvent::Polled(exited, _) && exited is Some) || (i > 0 && session_step(
            s,
            event,
        ).1[i - 1] is KillChild),
{
}

/// dsh is installed only where no version is installed.
pub proof fn lemma_install_only_when_missing(s: SessionView, event: SessionEvent)
    requires
        s.phase != SessionPhase::Install,
        session_step(s, event).0.phase == SessionPhase::Install,
    ensures
        event == SessionEvent::InstalledRead(None),
{
}

/// The results of a boot that finds dsh installed.
pub open spec fn plain_boot(
    node: Seq<u8>,
    bundled: bool,
    version: Seq<char>,
    pid: u32,
    uptime: u64,
) -> Seq<SessionEvent> {
    seq![
        SessionEvent::NodeReady(Ok((node, bundled)), uptime),
        SessionEvent::Current(true),
        SessionEvent::InstalledRead(Some(version)),
        SessionEvent::Current(true),
        SessionEvent::Spawned(Ok(pid), uptime),
    ]
}

/// The results of a boot that has to install dsh.
pub open spec fn first_boot(
    node: Seq<u8>,
    bundled: bool,
    version: Seq<char>,
    pid: u32,
    uptime: u64,
) -> Seq<SessionEvent> {
    seq![
        SessionEvent::NodeReady(Ok((node, bundled)), uptime),
        SessionEvent::Current(true),
        SessionEvent::InstalledRead(None),
        SessionEvent::Installed(Ok(()), uptime),
        SessionEvent::InstalledRead(Some(version)),
        SessionEvent::Current(true),
        SessionEvent::Spawned(Ok(pid), uptime),
    ]
}

proof fn lemma_run_extends(s: SessionView, events: Seq<SessionEvent>, k: int)
    requires
        0 <= k < events.len(),
    ensures
        session_run(s, events.take(k + 1)) == ({
            let (before, acts) = session_run(s, events.take(k));
            let (last, more) = session_step(before, events[k]);
            (last, acts + more)
        }),
{
    assert(events.take(k + 1).drop_last() =~= events.take(k));
}

/// Where all goes well, a session that stays current finds Node, installs dsh if it
/// has to, spawns `dsh web`, and watches it.
pub proof fn lemma_session_boots(
    id: u64,
    node: Seq<u8>,
    bundled: bool,
    version: Seq<char>,
    pid: u32,
    uptime: u64,
)
    ensures
        session_run(session_start(id), plain_boot(node, bundled, version, pid, uptime)) == (
            SessionView { id, phase: SessionPhase::Watch, node, bundled },
            take_in(pid),
        ),
        session_run(session_start(id), first_boot(node, bundled, version, pid, uptime)) == (
            SessionView { id, phase: SessionPhase::Watch, node, bundled },
            seq![
                SessionActView::Ui(UiMsgView::Status(first_install_status())),
                SessionActView::Log("installed dsh "@ + version),
            ] + take_in(pid),
        ),
{
    let start = session_start(id);
    let plain = plain_boot(node, bundled, version, pid, uptime);
    assert(plain.take(0) =~= Seq::<SessionEvent>::empty());
    assert(plain.take(5) =~= plain);
    lemma_run_extends(start, plain, 0);
    lemma_run_extends(start, plain, 1);
    lemma_run_extends(start, plain, 2);
    lemma_run_extends(start, plain, 3);
    lemma_run_extends(start, plain, 4);
    assert(session_run(start, plain).1 =~= take_in(pid));
    let first = first_boot(node, bundled, version, pid, uptime);
    assert(first.take(0) =~= Seq::<SessionEvent>::empty());
    assert(first.take(7) =~= first);
    lemma_run_extends(start, first, 0);
    lemma_run_extends(start, first, 1);
    lemma_run_extends(start, first, 2);
    lemma_run_extends(start, first, 3);
    lemma_run_extends(start, first, 4);
    lemma_run_extends(start, first, 5);
    lemma_run_extends(start, first, 6);
    assert(session_run(start, first).1 =~= seq![
        SessionActView::Ui(UiMsgView::Status(first_install_status())),
        SessionActView::Log("installed dsh "@ + version),
    ] + take_in(pid));
}

/// A session that is over does nothing more.
pub proof fn lemma_done_is_final(s: SessionView, event: SessionEvent)
    requires
        s.phase == SessionPhase::Done,
    ensures
        session_step(s, event) == (s, Seq::<SessionActView>::empty()),
{
}

proof fn lemma_plain_ready_url(url: Seq<char>)
    requires
        url.len() > 0,
        text::trimmed(url),
        text::find(url + lan_note(), lan_note()) == Some(url.len() as int),
    ensures
        text::trim(url) == url,
        ready_url_of(ready_prefix() + url) == Some(url),
{
    let none = Seq::<char>::empty();
    let note = lan_note();
    let line = ready_prefix() + url;
    assert(text::blank(none));
    text::lemma_trim_of_padded(none, url, none);
    assert(none + url + none =~= url);
    assert(line.subrange(0, ready_prefix().len() as int) =~= ready_prefix());
    assert(line.skip(ready_prefix().len() as int) =~= url);
    text::lemma_find_is_first(url + note, note);
    text::lemma_find_is_first(url, note);
    if let Some(j) = text::find(url, note) {
        reveal_strlit(" (LAN:");
        assert((url + note).subrange(j, j + note.len()) =~= url.subrange(j, j + note.len()));
        assert(text::occurs_at(url + note, note, j));
    }
}

/// The URL that `dsh web` prints is the URL that is read, with or without the
/// addresses in the local network behind it.
pub proof fn lemma_ready_url_reads_back(url: Seq<char>, addresses: Seq<char>)
    requires
        url.len() > 0,
        text::trimmed(url),
        text::find(url + lan_note(), lan_note()) == Some(url.len() as int),
    ensures
        ready_url_of(ready_prefix() + url) == Some(url),
        ready_url_of(ready_prefix() + url + lan_note() + addresses) == Some(url),
{
    let note = lan_note();
    let at = url.len() as int;
    let line = ready_prefix() + url + note + addresses;
    let rest = url + note + addresses;
    lemma_plain_ready_url(url);
    text::lemma_find_is_first(url + note, note);
    assert(line.subrange(0, ready_prefix().len() as int) =~= ready_prefix());
    assert(line.skip(ready_prefix().len() as int) =~= rest);
    assert(rest.subrange(at, at + note.len()) =~= note);
    assert forall|j: int| 0 <= j < at implies !text::occurs_at(rest, note, j) by {
        assert(rest.subrange(j, j + note.len()) =~= (url + note).subrange(j, j + note.len()));
        assert(!text::occurs_at(url + note, note, j));
    }
    text::lemma_find_unique(rest, note, at);
    assert(rest.take(at) =~= url);
}

/// A session that has a child stays with it until the child has exited or the session
/// is no longer current, however long that takes: whatever else comes, it does
/// nothing and goes on watching.
pub proof fn lemma_child_is_watched_until_it_exits(s: SessionView, event: SessionEvent)
    requires
        s.phase == SessionPhase::Watch || s.phase == SessionPhase::Poll || s.phase
            == SessionPhase::Pause,
        !(event matches SessionEvent::Current(current) && !current),
        !(event matches SessionEvent::Polled(exited, _) && exited is Some),
    ensures
        ({
            let (next, acts) = session_step(s, event);
            &&& acts.len() == 0
            &&& next.phase == SessionPhase::Watch || next.phase == SessionPhase::Poll || next.phase
                == SessionPhase::Pause
            &&& next.id == s.id
            &&& next.node == s.node
            &&& next.bundled == s.bundled
        }),
{
}

/// The watch goes round: it asks whether the session is current, looks at the child,
/// waits, and asks again.
pub proof fn lemma_watch_goes_round(s: SessionView, uptime: u64)
    ensures
        s.phase == SessionPhase::Watch ==> session_step(s, SessionEvent::Current(true)) == (
            SessionView { phase: SessionPhase::Poll, ..s },
            Seq::<SessionActView>::empty(),
        ),
        s.phase == SessionPhase::Poll ==> session_step(s, SessionEvent::Polled(None, uptime)) == (
            SessionView { phase: SessionPhase::Pause, ..s },
            Seq::<SessionActView>::empty(),
        ),
        s.phase == SessionPhase::Pause ==> session_step(s, SessionEvent::Paused) == (
            SessionView { phase: SessionPhase::Watch, ..s },
            Seq::<SessionActView>::empty(),
        ),
{
}

/// When the child has exited, the session lets it go, removes the pid file, logs the
/// exit code and the uptime, and reports them with its own number.
pub proof fn lemma_exit_is_reported_as_it_was(s: SessionView, code: Option<i32>, uptime: u64)
    requires
        s.phase == SessionPhase::Poll,
    ensures
        ({
            let (next, acts) = session_step(s, SessionEvent::Polled(Some(code), uptime));
            &&& next.phase == SessionPhase::Done
            &&& acts.len() == 4
            &&& acts[0] is DropChild
            &&& acts[1] is RemovePidFile
            &&& acts[2] == SessionActView::Log(
                "dsh exited code="@ + text::shown_code(code) + " uptime="@ + text::decimal(
                    uptime as nat,
                ) + "s"@,
            )
            &&& acts[3] == SessionActView::Ui(
                UiMsgView::Exited { session: s.id, code, uptime_secs: uptime },
            )
        }),
{
}

/// A session that finds itself out of date is over. It says nothing; a child that it
/// has is killed, let go, and its pid file removed.
pub proof fn lemma_stale_session_ends(s: SessionView)
    ensures
        s.phase == SessionPhase::CheckBooted || s.phase == SessionPhase::CheckReady
            ==> session_step(s, SessionEvent::Current(false)).0.phase == SessionPhase::Done
            && session_step(s, SessionEvent::Current(false)).1.len() == 0,
        s.phase == SessionPhase::Watch ==> {
            let (next, acts) = session_step(s, SessionEvent::Current(false));
            &&& next.phase == SessionPhase::Done
            &&& acts.len() == 3
            &&& acts[0] is KillChild
            &&& acts[1] is DropChild
            &&& acts[2] is RemovePidFile
        },
{
}

/// A session starts with the search for Node, keeps the binary that was found, and
/// while it is current reads which dsh is installed and goes on to spawn it.
pub proof fn lemma_boot_goes_on(
    s: SessionView,
    id: u64,
    node: Seq<u8>,
    bundled: bool,
    version: Seq<char>,
    uptime: u64,
)
    ensures
        session_start(id).id == id,
        session_start(id).phase == SessionPhase::EnsureNode,
        s.phase == SessionPhase::EnsureNode ==> session_step(
            s,
            SessionEvent::NodeReady(Ok((node, bundled)), uptime),
        ) == (
            SessionView { id: s.id, phase: SessionPhase::CheckBooted, node, bundled },
            Seq::<SessionActView>::empty(),
        ),
        s.phase == SessionPhase::CheckBooted ==> session_step(s, SessionEvent::Current(true)) == (
            SessionView { phase: SessionPhase::ReadInstalled, ..s },
            Seq::<SessionActView>::empty(),
        ),
        s.phase == SessionPhase::ReadInstalled ==> session_step(
            s,
            SessionEvent::InstalledRead(Some(version)),
        ) == (
            SessionView { phase: SessionPhase::CheckReady, ..s },
            Seq::<SessionActView>::empty(),
        ),
        s.phase == SessionPhase::CheckReady ==> session_step(s, SessionEvent::Current(true)) == (
            SessionView { phase: SessionPhase::Spawn, ..s },
            Seq::<SessionActView>::empty(),
        ),
{
}

/// Where no dsh is installed, the user is told and dsh is installed; the version that
/// is then found, or nothing, goes to the log.
pub proof fn lemma_missing_dsh_is_installed(
    s: SessionView,
    version: Seq<char>,
    uptime: u64,
)
    ensures
        s.phase == SessionPhase::ReadInstalled ==> session_step(
            s,
            SessionEvent::InstalledRead(None),
        ) == (
            SessionView { phase: SessionPhase::Install, ..s },
            seq![
                SessionActView::Ui(
                    UiMsgView::Status(
                        "首次运行：正在安装官方 @deepseek-ai/dsh（约需几十秒）…"@,
                    ),
                ),
            ],
        ),
        s.phase == SessionPhase::Install ==> session_step(
            s,
            SessionEvent::Installed(Ok(()), uptime),
        ) == (SessionView { phase: SessionPhase::ReadBack, ..s }, Seq::<SessionActView>::empty()),
        s.phase == SessionPhase::ReadBack ==> session_step(
            s,
            SessionEvent::InstalledRead(Some(version)),
        ) == (
            SessionView { phase: SessionPhase::CheckReady, ..s },
            seq![SessionActView::Log("installed dsh "@ + version)],
        ),
        s.phase == SessionPhase::ReadBack ==> session_step(s, SessionEvent::InstalledRead(None))
            == (
            SessionView { phase: SessionPhase::CheckReady, ..s },
            seq![SessionActView::Log("installed dsh "@ + Seq::empty())],
        ),
{
}

/// A child that is spawned is logged, its number goes to the pid file on a line of its
/// own, and it is kept.
pub proof fn lemma_spawned_child_is_kept(s: SessionView, pid: u32, uptime: u64)
    requires
        s.phase == SessionPhase::Spawn,
    ensures
        session_step(s, SessionEvent::Spawned(Ok(pid), uptime)) == (
            SessionView { phase: SessionPhase::Watch, ..s },
            seq![
                SessionActView::Log("dsh web started pid="@ + text::decimal(pid as nat)),
                SessionActView::WritePidFile(text::decimal(pid as nat) + "\n"@),
                SessionActView::KeepChild,
            ],
        ),
{
    assert(session_step(s, SessionEvent::Spawned(Ok(pid), uptime)).1 =~= seq![
        SessionActView::Log("dsh web started pid="@ + text::decimal(pid as nat)),
        SessionActView::WritePidFile(text::decimal(pid as nat) + "\n"@),
        SessionActView::KeepChild,
    ]);
}

/// A session that fails to find Node, to install dsh or to spawn it says why, to the
/// log and to the user, and reports its end without a code.
pub proof fn lemma_failure_is_told(s: SessionView, why: Seq<char>, uptime: u64)
    ensures
        s.phase == SessionPhase::EnsureNode ==> ends_with_reason(
            s,
            SessionEvent::NodeReady(Err(why), uptime),
            "node bootstrap failed: "@ + why,
            "Node.js 不可用："@ + why,
            uptime,
        ),
        s.phase == SessionPhase::Install ==> ends_with_reason(
            s,
            SessionEvent::Installed(Err(why), uptime),
            "install failed: "@ + why,
            "安装失败："@ + why,
            uptime,
        ),
        s.phase == SessionPhase::Spawn ==> ends_with_reason(
            s,
            SessionEvent::Spawned(Err(why), uptime),
            "spawn dsh failed: "@ + why,
            "启动失败："@ + why,
            uptime,
        ),
{
}

/// On this result the session ends with a line for the log, a status for the user and
/// the report of its end.
pub open spec fn ends_with_reason(
    s: SessionView,
    event: SessionEvent,
    log: Seq<char>,
    status: Seq<char>,
    uptime: u64,
) -> bool {
    let (next, acts) = session_step(s, event);
    &&& next.phase == SessionPhase::Done
    &&& acts.len() == 3
    &&& acts[0] == SessionActView::Log(log)
    &&& acts[1] == SessionActView::Ui(UiMsgView::Status(status))
    &&& acts[2] == SessionActView::Ui(
        UiMsgView::Exited { session: s.id, code: None, uptime_secs: uptime },
    )
}

/// The phases in which a session takes each kind of answer.
pub proof fn lemma_session_questions(phase: SessionPhase)
    ensures
        asks_current(phase) <==> (phase == SessionPhase::CheckBooted || phase
            == SessionPhase::CheckReady || phase == SessionPhase::Watch),
        asks_installed(phase) <==> (phase == SessionPhase::ReadInstalled || phase
            == SessionPhase::ReadBack),
{
}

/// Nothing that looks like the note before the addresses stands in `s`.
pub open spec fn without_lan_note(s: Seq<char>) -> bool {
    forall|j: int| 0 <= j && j + 6 <= s.len() ==> #[trigger] s.subrange(j, j + 6) != " (LAN:"@
}

proof fn lemma_note_found_behind(s: Seq<char>, more: Seq<char>)
    requires
        without_lan_note(s),
    ensures
        text::find(s, " (LAN:"@) is None,
        text::find(s + " (LAN:"@ + more, " (LAN:"@) == Some(s.len() as int),
{
    let note = " (LAN:"@;
    let whole = s + note + more;
    let at = s.len() as int;
    reveal_strlit(" (LAN:");
    text::lemma_find_is_first(s, note);
    assert(whole.subrange(at, at + 6) =~= note);
    assert forall|j: int| 0 <= j < at implies !text::occurs_at(whole, note, j) by {
        if j + 6 <= at {
            assert(whole.subrange(j, j + 6) =~= s.subrange(j, j + 6));
        } else if text::occurs_at(whole, note, j) {
            assert(whole.subrange(j, j + 6)[at - j] == note[at - j]);
            assert(whole[at] == note[0]);
        }
    }
    text::lemma_find_unique(whole, note, at);
}

/// The line that `dsh web` prints makes the window load the whole URL of this session,
/// token and all: with white space round it, and with or without the addresses in the
/// local network behind it. One message goes to the user interface, and no other.
pub proof fn lemma_ready_line_loads_the_url(
    session: u64,
    left: Seq<char>,
    url: Seq<char>,
    right: Seq<char>,
    addresses: Seq<char>,
)
    requires
        url.len() > 0,
        text::trimmed(url),
        text::blank(left),
        text::blank(right),
        without_lan_note(left + url + right),
    ensures
        ({
            let line = "dsh web: "@ + (left + url + right);
            let notes = stdout_notes_of(session, line);
            &&& ready_url_of(line) == Some(url)
            &&& notes.len() == 2
            &&& notes[0] == NoteView::Log("ready line: "@ + line)
            &&& notes[1] == NoteView::Ui(UiMsgView::Ready { session, url })
        }),
        ({
            let line = "dsh web: "@ + (left + url + right + " (LAN:"@ + addresses);
            let notes = stdout_notes_of(session, line);
            &&& ready_url_of(line) == Some(url)
            &&& notes.len() == 2
            &&& notes[0] == NoteView::Log("ready line: "@ + line)
            &&& notes[1] == NoteView::Ui(UiMsgView::Ready { session, url })
        }),
{
    let told = left + url + right;
    let long = told + " (LAN:"@ + addresses;
    let prefix = "dsh web: "@;
    reveal_strlit("dsh web: ");
    lemma_note_found_behind(told, addresses);
    text::lemma_trim_of_padded(left, url, right);
    assert((prefix + told).subrange(0, 9) =~= prefix);
    assert((prefix + told).skip(9) =~= told);
    assert((prefix + long).subrange(0, 9) =~= prefix);
    assert((prefix + long).skip(9) =~= long);
    assert(long.take(told.len() as int) =~= told);
}

/// A line that announces a URL and holds only white space in its place is taken at its
/// word: the URL is empty.
pub proof fn lemma_ready_line_without_url(
    session: u64,
    told: Seq<char>,
    addresses: Seq<char>,
)
    requires
        text::blank(told),
        without_lan_note(told),
    ensures
        ready_url_of("dsh web: "@ + told) == Some(Seq::<char>::empty()),
        ready_url_of("dsh web: "@ + (told + " (LAN:"@ + addresses)) == Some(Seq::<char>::empty()),
        stdout_notes_of(session, "dsh web: "@ + told).len() == 2,
        stdout_notes_of(session, "dsh web: "@ + told)[1] == NoteView::Ui(
            UiMsgView::Ready { session, url: Seq::empty() },
        ),
{
    let long = told + " (LAN:"@ + addresses;
    let prefix = "dsh web: "@;
    reveal_strlit("dsh web: ");
    lemma_note_found_behind(told, addresses);
    text::lemma_trim_of_blank(told);
    assert((prefix + told).subrange(0, 9) =~= prefix);
    assert((prefix + told).skip(9) =~= told);
    assert((prefix + long).subrange(0, 9) =~= prefix);
    assert((prefix + long).skip(9) =~= long);
    assert(long.take(told.len() as int) =~= told);
}

/// Every other line of the child goes to the log as it is, and nowhere else.
pub proof fn lemma_other_lines_are_logged(session: u64, line: Seq<char>)
    requires
        line.len() < 9 || line.take(9) != "dsh web: "@,
    ensures
        ready_url_of(line) is None,
        stdout_notes_of(session, line).len() == 1,
        stdout_notes_of(session, line)[0] == NoteView::Log("[dsh stdout] "@ + line),
{
    reveal_strlit("dsh web: ");
    assert(line.len() >= 9 ==> line.subrange(0, 9) =~= line.take(9));
}

/// `dsh web` is run by the Node binary that was found, without opening a browser, on a
/// free port, with its output read by the shell, in the home directory of the user.
pub proof fn lemma_dsh_web_command(home: Seq<u8>, node: Seq<u8>, user_home: Option<Seq<u8>>)
    ensures
        ({
            let cmd = dsh_command_of(home, node, user_home);
            &&& cmd.program == node
            &&& cmd.args.len() == 5
            &&& cmd.args[0] == runtime::below(
                home,
                "runtime/node_modules/@deepseek-ai/dsh/lib/bin.js"@,
            )
            &&& cmd.args[1] == os::utf8("web"@)
            &&& cmd.args[2] == os::utf8("--no-open"@)
            &&& cmd.args[3] == os::utf8("--port"@)
            &&& cmd.args[4] == os::utf8("0"@)
            &&& cmd.env.len() == 0
            &&& user_home matches Some(dir) ==> cmd.cwd == Some(dir)
            &&& user_home is None ==> cmd.cwd == Some(os::utf8("/"@))
            &&& cmd.stdin == Stream::Unset
            &&& cmd.stdout == Stream::Piped
            &&& cmd.stderr == Stream::Piped
        }),
{
    assert(runtime::dsh_bin_of(home) == runtime::below(
        home,
        "runtime/node_modules/@deepseek-ai/dsh/lib/bin.js"@,
    )) by {
        runtime::lemma_layout(home);
    }
}

/// The view of an act holds all that the act holds, and a result keeps its error.
pub proof fn lemma_session_act_view(text: String, msg: UiMsg, pid: u32)
    ensures
        SessionAct::Log(text).deep_view() == SessionActView::Log(text@),
        SessionAct::Ui(msg).deep_view() == SessionActView::Ui(msg@),
        SessionAct::WritePidFile(text).deep_view() == SessionActView::WritePidFile(text@),
        SessionAct::KeepChild.deep_view() is KeepChild,
        SessionAct::KillChild.deep_view() is KillChild,
        SessionAct::DropChild.deep_view() is DropChild,
        SessionAct::RemovePidFile.deep_view() is RemovePidFile,
        spawn_result(Ok(pid)) == Ok::<u32, Seq<char>>(pid),
        spawn_result(Err(text)) == Err::<u32, Seq<char>>(text@),
{
}

} // verus!
