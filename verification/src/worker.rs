//! The worker: what each command makes it do, one session at a time.
use vstd::prelude::*;
use vstd::string::*;

use crate::messages::{UiMsg, UiMsgView, WorkerCmd};

verus! {

/// How far an update check goes.
#[derive(Debug, Clone, Copy, PartialEq, Eq, Structural)]
pub enum UpdateMode {
    /// Tell of a newer version.
    Inform,
    /// Install a newer version.
    Install,
}

/// Something that the worker does.
#[derive(Debug)]
pub enum WorkerAct {
    /// Kill a leftover `dsh web` from an earlier run, if there is one.
    ReapStalePid,
    /// Make this the number of the session that is current.
    SetExpected(u64),
    /// Kill the child of the session that runs, if it has one.
    KillChild,
    /// Wait for the thread of the session that runs.
    JoinSession,
    /// Start a thread for the session of this number, with no child yet.
    SpawnSession(u64),
    /// Start a thread for an update check.
    CheckUpdate(UpdateMode),
    /// Send a message to the user interface.
    Ui(UiMsg),
    /// Write a line to the log.
    Log(String),
}

/// Something that the worker does, with its texts as sequences.
#[verifier::ext_equal]
pub enum WorkerActView {
    ReapStalePid,
    SetExpected(u64),
    KillChild,
    JoinSession,
    SpawnSession(u64),
    CheckUpdate(UpdateMode),
    Ui(UiMsgView),
    Log(Seq<char>),
}

impl DeepView for WorkerAct {
    type V = WorkerActView;

    open spec fn deep_view(&self) -> WorkerActView {
        match self {
            WorkerAct::ReapStalePid => WorkerActView::ReapStalePid,
            WorkerAct::SetExpected(id) => WorkerActView::SetExpected(*id),
            WorkerAct::KillChild => WorkerActView::KillChild,
            WorkerAct::JoinSession => WorkerActView::JoinSession,
            WorkerAct::SpawnSession(id) => WorkerActView::SpawnSession(*id),
            WorkerAct::CheckUpdate(mode) => WorkerActView::CheckUpdate(*mode),
            WorkerAct::Ui(msg) => WorkerActView::Ui(msg@),
            WorkerAct::Log(line) => WorkerActView::Log(line@),
        }
    }
}

/// The worker between two commands.
#[derive(Debug)]
pub struct WorkerInner {
    session: u64,
    expected: u64,
    running: bool,
    closed: bool,
}

/// The number of the latest session, the number of the current one (zero where
/// there is none), whether the thread of a session is still to be waited for, and
/// whether the worker has shut down.
pub struct WorkerView {
    pub session: u64,
    pub expected: u64,
    pub running: bool,
    pub closed: bool,
}

impl View for WorkerInner {
    type V = WorkerView;

    closed spec fn view(&self) -> WorkerView {
        WorkerView {
            session: self.session,
            expected: self.expected,
            running: self.running,
            closed: self.closed,
        }
    }
}

/// The current session is the latest one, and there is one exactly while a thread
/// is to be waited for.
pub open spec fn worker_wf(s: WorkerView) -> bool {
    if s.running {
        s.expected == s.session && s.session > 0
    } else {
        s.expected == 0
    }
}

/// A worker that has done nothing yet.
pub open spec fn worker_start() -> WorkerView {
    WorkerView { session: 0, expected: 0, running: false, closed: false }
}

/// The session that runs is killed and waited for.
pub open spec fn end_session(s: WorkerView) -> Seq<WorkerActView> {
    if s.running {
        seq![WorkerActView::KillChild, WorkerActView::JoinSession]
    } else {
        Seq::empty()
    }
}

/// A fresh session: the leftover of an earlier run is killed, the session that
/// runs is no longer current, is killed and waited for, and the new one starts.
pub open spec fn start_session_of(s: WorkerView) -> (WorkerView, Seq<WorkerActView>) {
    let id = (s.session + 1) as u64;
    (
        WorkerView { session: id, expected: id, running: true, ..s },
        seq![WorkerActView::ReapStalePid, WorkerActView::SetExpected(id)] + end_session(s)
            + seq![WorkerActView::SpawnSession(id)],
    )
}

/// No session: the one that runs is no longer current, is killed and waited for.
pub open spec fn stop_session_of(s: WorkerView) -> (WorkerView, Seq<WorkerActView>) {
    (
        WorkerView { expected: 0, running: false, ..s },
        seq![WorkerActView::SetExpected(0)] + end_session(s),
    )
}

/// What a command makes the worker do. The update check at the start only informs;
/// the one that is asked for installs.
pub open spec fn worker_step(s: WorkerView, cmd: WorkerCmd) -> (WorkerView, Seq<WorkerActView>) {
    let starting = seq![WorkerActView::Ui(UiMsgView::Status("正在启动 DeepSeek Harness…"@))];
    let (started, start_acts) = start_session_of(s);
    let (stopped, stop_acts) = stop_session_of(s);
    match cmd {
        WorkerCmd::Start => (
            started,
            starting + start_acts + seq![WorkerActView::CheckUpdate(UpdateMode::Inform)],
        ),
        WorkerCmd::Restart => (started, starting + start_acts),
        WorkerCmd::Stop => (stopped, stop_acts),
        WorkerCmd::CheckUpdate => (s, seq![WorkerActView::CheckUpdate(UpdateMode::Install)]),
        WorkerCmd::Quit => (
            WorkerView { closed: true, ..stopped },
            stop_acts + seq![
                WorkerActView::Ui(UiMsgView::Status("正在退出…"@)),
                WorkerActView::Log("worker: quit, bye"@),
                WorkerActView::Ui(UiMsgView::Bye),
            ],
        ),
    }
}

/// A command that starts a session.
pub open spec fn starts_session(cmd: WorkerCmd) -> bool {
    cmd == WorkerCmd::Start || cmd == WorkerCmd::Restart
}

impl WorkerInner {
    /// A worker that has done nothing yet.
    pub fn new() -> (r: WorkerInner)
        ensures
            r@ == worker_start(),
            worker_wf(r@),
    {
        WorkerInner { session: 0, expected: 0, running: false, closed: false }
    }

    /// The number of the latest session.
    pub fn session(&self) -> (r: u64)
        ensures
            r == self@.session,
    {
        self.session
    }

    /// Whether the worker has shut down.
    pub fn closed(&self) -> (r: bool)
        ensures
            r == self@.closed,
    {
        self.closed
    }

    fn push_end(&self, acts: &mut Vec<WorkerAct>)
        ensures
            final(acts).deep_view() == old(acts).deep_view() + end_session(self@),
    {
        if self.running {
            acts.push(WorkerAct::KillChild);
            acts.push(WorkerAct::JoinSession);
        }
        assert(acts.deep_view() =~= old(acts).deep_view() + end_session(self@));
    }

    /// Reap an orphaned dsh from an earlier force-quit, then boot a session.
    pub fn start_session(&mut self) -> (r: Vec<WorkerAct>)
        requires
            worker_wf(old(self)@),
            old(self)@.session < u64::MAX,
        ensures
            worker_wf(final(self)@),
            (final(self)@, r.deep_view()) == start_session_of(old(self)@),
    {
        let id: u64 = self.session + 1;
        let mut acts: Vec<WorkerAct> = vec![WorkerAct::ReapStalePid, WorkerAct::SetExpected(id)];
        assert(acts.deep_view() =~= seq![
            WorkerActView::ReapStalePid,
            WorkerActView::SetExpected(id),
        ]);
        self.push_end(&mut acts);
        let ghost before = acts.deep_view();
        acts.push(WorkerAct::SpawnSession(id));
        assert(acts.deep_view() =~= before + seq![WorkerActView::SpawnSession(id)]);
        self.session = id;
        self.expected = id;
        self.running = true;
        acts
    }

    /// Kill the current session and stay idle.
    pub fn stop_session(&mut self) -> (r: Vec<WorkerAct>)
        requires
            worker_wf(old(self)@),
        ensures
            worker_wf(final(self)@),
            (final(self)@, r.deep_view()) == stop_session_of(old(self)@),
    {
        let mut acts: Vec<WorkerAct> = vec![WorkerAct::SetExpected(0)];
        assert(acts.deep_view() =~= seq![WorkerActView::SetExpected(0)]);
        self.push_end(&mut acts);
        self.expected = 0;
        self.running = false;
        acts
    }

    /// What a command makes the worker do, in order.
    pub fn on_command(&mut self, cmd: WorkerCmd) -> (r: Vec<WorkerAct>)
        requires
            worker_wf(old(self)@),
            !old(self)@.closed,
            starts_session(cmd) ==> old(self)@.session < u64::MAX,
        ensures
            worker_wf(final(self)@),
            (final(self)@, r.deep_view()) == worker_step(old(self)@, cmd),
    {
        match cmd {
            WorkerCmd::Start => {
                let mut acts = self.starting();
                let ghost first = acts.deep_view();
                let mut more = self.start_session();
                let ghost then_acts = more.deep_view();
                acts.append(&mut more);
                acts.push(WorkerAct::CheckUpdate(UpdateMode::Inform));
                assert(acts.deep_view() =~= first + then_acts + seq![
                    WorkerActView::CheckUpdate(UpdateMode::Inform),
                ]);
                acts
            },
            WorkerCmd::Restart => {
                let mut acts = self.starting();
                let ghost first = acts.deep_view();
                let mut more = self.start_session();
                let ghost then_acts = more.deep_view();
                acts.append(&mut more);
                assert(acts.deep_view() =~= first + then_acts);
                acts
            },
            WorkerCmd::Stop => self.stop_session(),
            WorkerCmd::CheckUpdate => {
                let acts: Vec<WorkerAct> = vec![WorkerAct::CheckUpdate(UpdateMode::Install)];
                assert(acts.deep_view() =~= seq![WorkerActView::CheckUpdate(UpdateMode::Install)]);
                acts
            },
            WorkerCmd::Quit => {
                let mut acts = self.stop_session();
                let ghost first = acts.deep_view();
                acts.push(WorkerAct::Ui(UiMsg::Status("正在退出…".to_owned())));
                acts.push(WorkerAct::Log("worker: quit, bye".to_owned()));
                acts.push(WorkerAct::Ui(UiMsg::Bye));
                assert(acts.deep_view() =~= first + seq![
                    WorkerActView::Ui(UiMsgView::Status("正在退出…"@)),
                    WorkerActView::Log("worker: quit, bye"@),
                    WorkerActView::Ui(UiMsgView::Bye),
                ]);
                self.closed = true;
                acts
            },
        }
    }

    fn starting(&self) -> (r: Vec<WorkerAct>)
        ensures
            r.deep_view() == seq![
                WorkerActView::Ui(UiMsgView::Status("正在启动 DeepSeek Harness…"@)),
            ],
    {
        let acts: Vec<WorkerAct> = vec![
            WorkerAct::Ui(UiMsg::Status("正在启动 DeepSeek Harness…".to_owned())),
        ];
        assert(acts.deep_view() =~= seq![
            WorkerActView::Ui(UiMsgView::Status("正在启动 DeepSeek Harness…"@)),
        ]);
        acts
    }
}

/// What a worker does on commands that come one after the other. It takes no
/// command after it has shut down.
pub open spec fn worker_run(s: WorkerView, cmds: Seq<WorkerCmd>) -> (
    WorkerView,
    Seq<WorkerActView>,
)
    decreases cmds.len(),
{
    if cmds.len() == 0 || s.closed {
        (s, Seq::empty())
    } else {
        let (next, acts) = worker_step(s, cmds[0]);
        let (last, rest) = worker_run(next, cmds.skip(1));
        (last, acts + rest)
    }
}

/// A worker in good order with numbers left for as many sessions as commands.
pub open spec fn can_take(s: WorkerView, cmds: Seq<WorkerCmd>) -> bool {
    worker_wf(s) && s.session + cmds.len() <= u64::MAX
}

/// What one act adds to the session threads.
pub open spec fn thread_change(act: WorkerActView) -> int {
    match act {
        WorkerActView::SpawnSession(_) => 1,
        WorkerActView::JoinSession => -1,
        _ => 0,
    }
}

/// The session threads that acts start, less those that they wait for.
pub open spec fn threads(acts: Seq<WorkerActView>) -> int
    decreases acts.len(),
{
    if acts.len() == 0 {
        0
    } else {
        threads(acts.drop_last()) + thread_change(acts.last())
    }
}

/// The session threads of a worker.
pub open spec fn held(s: WorkerView) -> int {
    if s.running {
        1
    } else {
        0
    }
}

proof fn lemma_threads_add(a: Seq<WorkerActView>, b: Seq<WorkerActView>)
    ensures
        threads(a + b) == threads(a) + threads(b),
    decreases b.len(),
{
    if b.len() == 0 {
        assert(a + b =~= a);
    } else {
        assert((a + b).drop_last() =~= a + b.drop_last());
        lemma_threads_add(a, b.drop_last());
    }
}

proof fn lemma_threads_next(acts: Seq<WorkerActView>, k: int)
    requires
        0 <= k,
    ensures
        k < acts.len() ==> threads(acts.take(k + 1)) == threads(acts.take(k)) + thread_change(
            acts[k],
        ),
{
    if k < acts.len() {
        assert(acts.take(k + 1).drop_last() =~= acts.take(k));
    }
}

proof fn lemma_step_threads(s: WorkerView, cmd: WorkerCmd)
    requires
        worker_wf(s),
        s.session < u64::MAX,
    ensures
        worker_wf(worker_step(s, cmd).0),
        s.session <= worker_step(s, cmd).0.session <= s.session + 1,
        held(s) + threads(worker_step(s, cmd).1) == held(worker_step(s, cmd).0),
        forall|k: int|
            0 <= k <= worker_step(s, cmd).1.len() ==> 0 <= held(s) + #[trigger] threads(
                worker_step(s, cmd).1.take(k),
            ) <= 1,
{
    let acts = worker_step(s, cmd).1;
    assert(acts.len() <= 7);
    assert(acts.take(0) =~= Seq::<WorkerActView>::empty());
    assert(acts.take(acts.len() as int) =~= acts);
    lemma_threads_next(acts, 0);
    lemma_threads_next(acts, 1);
    lemma_threads_next(acts, 2);
    lemma_threads_next(acts, 3);
    lemma_threads_next(acts, 4);
    lemma_threads_next(acts, 5);
    lemma_threads_next(acts, 6);
}

/// At no moment do two session threads run: whatever commands come, a session is
/// waited for before the next one starts, so that two installs never work in the
/// same runtime directory.
pub proof fn lemma_one_session_at_a_time(s: WorkerView, cmds: Seq<WorkerCmd>, k: int)
    requires
        can_take(s, cmds),
        0 <= k <= worker_run(s, cmds).1.len(),
    ensures
        worker_wf(worker_run(s, cmds).0),
        0 <= held(s) + threads(worker_run(s, cmds).1.take(k)) <= 1,
        held(s) + threads(worker_run(s, cmds).1) == held(worker_run(s, cmds).0),
    decreases cmds.len(),
{
    let (last, all) = worker_run(s, cmds);
    if cmds.len() == 0 || s.closed {
        assert(all.take(k) =~= Seq::<WorkerActView>::empty());
    } else {
        let (next, acts) = worker_step(s, cmds[0]);
        let rest = worker_run(next, cmds.skip(1)).1;
        lemma_step_threads(s, cmds[0]);
        lemma_threads_add(acts, rest);
        if k <= acts.len() {
            lemma_one_session_at_a_time(next, cmds.skip(1), 0);
            assert(all.take(k) =~= acts.take(k));
        } else {
            lemma_one_session_at_a_time(next, cmds.skip(1), k - acts.len());
            assert(all.take(k) =~= acts + rest.take(k - acts.len()));
            lemma_threads_add(acts, rest.take(k - acts.len()));
        }
    }
}

/// The numbers of the sessions that are started grow, and so none is used twice.
pub proof fn lemma_session_numbers_grow(s: WorkerView, cmds: Seq<WorkerCmd>)
    requires
        can_take(s, cmds),
    ensures
        ({
            let (last, acts) = worker_run(s, cmds);
            &&& s.session <= last.session <= s.session + cmds.len()
            &&& forall|i: int|
                0 <= i < acts.len() && #[trigger] acts[i] is SpawnSession ==> s.session
                    < acts[i]->SpawnSession_0 <= last.session
            &&& forall|i: int, j: int|
                0 <= i < j < acts.len() && #[trigger] acts[i] is SpawnSession
                    && #[trigger] acts[j] is SpawnSession ==> acts[i]->SpawnSession_0
                    < acts[j]->SpawnSession_0
        }),
    decreases cmds.len(),
{
    let (last, all) = worker_run(s, cmds);
    if cmds.len() > 0 && !s.closed {
        let (next, acts) = worker_step(s, cmds[0]);
        let rest = worker_run(next, cmds.skip(1)).1;
        lemma_step_threads(s, cmds[0]);
        lemma_session_numbers_grow(next, cmds.skip(1));
        assert forall|i: int| 0 <= i < all.len() && #[trigger] all[i] is SpawnSession implies s.session
            < all[i]->SpawnSession_0 <= last.session by {
            if i < acts.len() {
                assert(all[i] == acts[i]);
            } else {
                assert(all[i] == rest[i - acts.len()]);
            }
        }
        assert forall|i: int, j: int|
            0 <= i < j < all.len() && #[trigger] all[i] is SpawnSession
                && #[trigger] all[j] is SpawnSession implies all[i]->SpawnSession_0
            < all[j]->SpawnSession_0 by {
            if j < acts.len() {
                assert(all[i] == acts[i] && all[j] == acts[j]);
            } else {
                assert(all[j] == rest[j - acts.len()]);
                if i < acts.len() {
                    assert(all[i] == acts[i]);
                } else {
                    assert(all[i] == rest[i - acts.len()]);
                }
            }
        }
    }
}

/// A command that starts or ends a session leaves no earlier session current: a
/// session that is still booting finds itself out of date.
pub proof fn lemma_earlier_sessions_are_stale(s: WorkerView, cmd: WorkerCmd, id: u64)
    requires
        worker_wf(s),
        s.session < u64::MAX,
        0 < id <= s.session,
        cmd != WorkerCmd::CheckUpdate,
    ensures
        worker_step(s, cmd).0.expected != id,
{
}

/// A session that is no longer current never becomes current again, whatever
/// commands come.
pub proof fn lemma_stale_stays_stale(s: WorkerView, cmds: Seq<WorkerCmd>, id: u64)
    requires
        can_take(s, cmds),
        0 < id <= s.session,
        s.expected != id,
    ensures
        worker_run(s, cmds).0.expected != id,
    decreases cmds.len(),
{
    if cmds.len() > 0 && !s.closed {
        lemma_step_threads(s, cmds[0]);
        lemma_stale_stays_stale(worker_step(s, cmds[0]).0, cmds.skip(1), id);
    }
}

/// The thread of a session is waited for only after the session has been made out
/// of date and its child has been killed.
pub proof fn lemma_stale_and_killed_before_join(s: WorkerView, cmd: WorkerCmd, j: int)
    requires
        worker_wf(s),
        s.session < u64::MAX,
        0 <= j < worker_step(s, cmd).1.len(),
        worker_step(s, cmd).1[j] == WorkerActView::JoinSession,
    ensures
        j > 0,
        worker_step(s, cmd).1[j - 1] == WorkerActView::KillChild,
        exists|i: int|
            0 <= i < j - 1 && (#[trigger] worker_step(s, cmd).1[i]) is SetExpected
                && worker_step(s, cmd).1[i]->SetExpected_0 != s.session,
{
    let acts = worker_step(s, cmd).1;
    if starts_session(cmd) {
        assert(acts[2] == WorkerActView::SetExpected((s.session + 1) as u64));
    } else {
        assert(acts[0] == WorkerActView::SetExpected(0));
    }
}

/// No session starts before a leftover of an earlier run has been looked for.
pub proof fn lemma_reaps_before_spawn(s: WorkerView, cmd: WorkerCmd, j: int)
    requires
        0 <= j < worker_step(s, cmd).1.len(),
        worker_step(s, cmd).1[j] is SpawnSession,
    ensures
        exists|i: int| 0 <= i < j && (#[trigger] worker_step(s, cmd).1[i]) is ReapStalePid,
{
    assert(worker_step(s, cmd).1[1] is ReapStalePid);
}

/// The worker says goodbye when it shuts down, once, and does nothing after that.
pub proof fn lemma_bye_is_last(s: WorkerView, cmds: Seq<WorkerCmd>)
    requires
        can_take(s, cmds),
        !s.closed,
    ensures
        worker_run(s, cmds).0.closed ==> worker_run(s, cmds).1.len() > 0 && worker_run(
            s,
            cmds,
        ).1.last() == WorkerActView::Ui(UiMsgView::Bye),
        forall|i: int|
            0 <= i < worker_run(s, cmds).1.len() && #[trigger] worker_run(s, cmds).1[i]
                == WorkerActView::Ui(UiMsgView::Bye) ==> worker_run(s, cmds).0.closed && i
                == worker_run(s, cmds).1.len() - 1,
        worker_run(s, cmds).0.closed ==> !worker_run(s, cmds).0.running,
        worker_run(s, cmds).0.closed <==> cmds.contains(WorkerCmd::Quit),
    decreases cmds.len(),
{
    let (last, all) = worker_run(s, cmds);
    if cmds.len() > 0 {
        let (next, acts) = worker_step(s, cmds[0]);
        let (end, rest) = worker_run(next, cmds.skip(1));
        lemma_step_threads(s, cmds[0]);
        assert(cmds =~= seq![cmds[0]] + cmds.skip(1));
        if next.closed {
            assert(rest =~= Seq::<WorkerActView>::empty());
            assert(all =~= acts);
            assert(cmds[0] == WorkerCmd::Quit);
        } else {
            lemma_bye_is_last(next, cmds.skip(1));
            assert forall|i: int|
                0 <= i < all.len() && #[trigger] all[i] == WorkerActView::Ui(
                    UiMsgView::Bye,
                ) implies last.closed && i == all.len() - 1 by {
                if i < acts.len() {
                    assert(all[i] == acts[i]);
                } else {
                    assert(all[i] == rest[i - acts.len()]);
                }
            }
            if last.closed {
                assert(all.last() == rest.last());
            }
            assert(cmds.contains(WorkerCmd::Quit) <==> cmds.skip(1).contains(WorkerCmd::Quit)) by {
                if cmds.contains(WorkerCmd::Quit) {
                    let i = choose|i: int| 0 <= i < cmds.len() && cmds[i] == WorkerCmd::Quit;
                    assert(cmds.skip(1)[i - 1] == WorkerCmd::Quit);
                }
                if cmds.skip(1).contains(WorkerCmd::Quit) {
                    let i = choose|i: int|
                        0 <= i < cmds.len() - 1 && cmds.skip(1)[i] == WorkerCmd::Quit;
                    assert(cmds[i + 1] == WorkerCmd::Quit);
                }
            }
        }
    }
}

/// A check that the user asks for installs what it finds, whether a session runs or
/// not, and leaves the sessions as they are.
pub proof fn lemma_asked_check_installs(s: WorkerView)
    ensures
        worker_step(s, WorkerCmd::CheckUpdate).0 == s,
        worker_step(s, WorkerCmd::CheckUpdate).1.len() == 1,
        worker_step(s, WorkerCmd::CheckUpdate).1[0] is CheckUpdate,
        worker_step(s, WorkerCmd::CheckUpdate).1[0]->CheckUpdate_0 == UpdateMode::Install,
{
}

/// No command but the one that asks for it makes the worker install an update: the
/// check at the start informs only, and the other commands check nothing.
pub proof fn lemma_only_asked_checks_install(s: WorkerView, cmd: WorkerCmd, i: int)
    requires
        0 <= i < worker_step(s, cmd).1.len(),
        worker_step(s, cmd).1[i] is CheckUpdate,
    ensures
        cmd == WorkerCmd::CheckUpdate || (cmd == WorkerCmd::Start && worker_step(
            s,
            cmd,
        ).1[i]->CheckUpdate_0 == UpdateMode::Inform && i == worker_step(s, cmd).1.len() - 1),
{
}

/// A command that starts a session tells the user so first, reaps a leftover, makes
/// the new session the current one, ends the one that runs, and only then starts the
/// new one, under the number after the last. At the start an update check follows.
pub proof fn lemma_starting_a_session(s: WorkerView, cmd: WorkerCmd)
    requires
        cmd == WorkerCmd::Start || cmd == WorkerCmd::Restart,
        s.session < u64::MAX,
    ensures
        ({
            let (next, acts) = worker_step(s, cmd);
            let k = if s.running {
                5int
            } else {
                3int
            };
            &&& next.session == s.session + 1
            &&& next.expected == s.session + 1
            &&& next.running
            &&& next.closed == s.closed
            &&& acts.len() == if cmd == WorkerCmd::Start {
                k + 2
            } else {
                k + 1
            }
            &&& acts[0] == WorkerActView::Ui(UiMsgView::Status("正在启动 DeepSeek Harness…"@))
            &&& acts[1] is ReapStalePid
            &&& acts[2] is SetExpected && acts[2]->SetExpected_0 == s.session + 1
            &&& s.running ==> acts[3] is KillChild && acts[4] is JoinSession
            &&& acts[k] is SpawnSession && acts[k]->SpawnSession_0 == s.session + 1
            &&& cmd == WorkerCmd::Start ==> acts[k + 1] is CheckUpdate
                && acts[k + 1]->CheckUpdate_0 == UpdateMode::Inform
        }),
{
}

/// A command that ends the session leaves none current, kills the child of the one
/// that runs and waits for its thread. Shutting down then tells the user, the log,
/// and the user interface that it may exit.
pub proof fn lemma_ending_a_session(s: WorkerView, cmd: WorkerCmd)
    requires
        cmd == WorkerCmd::Stop || cmd == WorkerCmd::Quit,
    ensures
        ({
            let (next, acts) = worker_step(s, cmd);
            let k = if s.running {
                3int
            } else {
                1int
            };
            &&& next.session == s.session
            &&& next.expected == 0
            &&& !next.running
            &&& next.closed == (s.closed || cmd == WorkerCmd::Quit)
            &&& acts.len() == if cmd == WorkerCmd::Quit {
                k + 3
            } else {
                k
            }
            &&& acts[0] is SetExpected && acts[0]->SetExpected_0 == 0
            &&& s.running ==> acts[1] is KillChild && acts[2] is JoinSession
            &&& cmd == WorkerCmd::Quit ==> {
                &&& acts[k] == WorkerActView::Ui(UiMsgView::Status("正在退出…"@))
                &&& acts[k + 1] == WorkerActView::Log("worker: quit, bye"@)
                &&& acts[k + 2] == WorkerActView::Ui(UiMsgView::Bye)
            }
        }),
{
}

/// What the worker does alone, outside a command, is what the command does of it.
pub proof fn lemma_session_commands_agree(s: WorkerView)
    requires
        s.session < u64::MAX,
    ensures
        worker_step(s, WorkerCmd::Stop) == stop_session_of(s),
        worker_step(s, WorkerCmd::Restart).0 == start_session_of(s).0,
        worker_step(s, WorkerCmd::Restart).1.skip(1) == start_session_of(s).1,
{
    assert(worker_step(s, WorkerCmd::Restart).1.skip(1) =~= start_session_of(s).1);
}

/// A worker that has done nothing has had no session and takes commands.
pub proof fn lemma_worker_starts_idle()
    ensures
        worker_start().session == 0,
        worker_start().expected == 0,
        !worker_start().running,
        !worker_start().closed,
        worker_wf(worker_start()),
{
}

/// The view of an act holds all that the act holds.
pub proof fn lemma_worker_act_view(id: u64, mode: UpdateMode, msg: UiMsg, line: String)
    ensures
        WorkerAct::ReapStalePid.deep_view() is ReapStalePid,
        WorkerAct::SetExpected(id).deep_view() == WorkerActView::SetExpected(id),
        WorkerAct::KillChild.deep_view() is KillChild,
        WorkerAct::JoinSession.deep_view() is JoinSession,
        WorkerAct::SpawnSession(id).deep_view() == WorkerActView::SpawnSession(id),
        WorkerAct::CheckUpdate(mode).deep_view() == WorkerActView::CheckUpdate(mode),
        WorkerAct::Ui(msg).deep_view() == WorkerActView::Ui(msg@),
        WorkerAct::Log(line).deep_view() == WorkerActView::Log(line@),
{
}

/// Two commands start a session. A worker is in good order where the current session is
/// the latest one while its thread runs, and none is current otherwise.
pub proof fn lemma_worker_in_good_order(s: WorkerView, cmd: WorkerCmd)
    ensures
        starts_session(cmd) <==> (cmd == WorkerCmd::Start || cmd == WorkerCmd::Restart),
        s.running ==> (worker_wf(s) <==> 0 < s.session && s.expected == s.session),
        !s.running ==> (worker_wf(s) <==> s.expected == 0),
{
}

} // verus!
