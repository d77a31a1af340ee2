//! Sessions of `dsh web`, and the worker that starts and ends them.
use dsh_client::command::Stream;
use dsh_client::messages::{Note, UiMsg, WorkerCmd};
use dsh_client::os::OsText;
use dsh_client::runtime::Runtime;
use dsh_client::session::{
    ready_url, report_exit, stderr_note, stdout_notes, Session, SessionAct, SessionPhase, FIRST_INSTALL,
    WATCH_MILLIS,
};
use dsh_client::worker::{WorkerAct, WorkerInner};

fn ui(msg: &UiMsg) -> String {
    match msg {
        UiMsg::Status(text) => format!("status {text}"),
        UiMsg::Ready { session, url } => format!("ready {session} {url}"),
        UiMsg::Exited { session, code, uptime_secs } => {
            format!("exited {session} {code:?} {uptime_secs}")
        }
        UiMsg::UpdateInfo(text) => format!("info {text}"),
        UiMsg::Menu(id) => format!("menu {id}"),
        UiMsg::TrayLeftClick => "tray".to_string(),
        UiMsg::Bye => "bye".to_string(),
    }
}

fn acts(done: &[SessionAct]) -> Vec<String> {
    done.iter()
        .map(|act| match act {
            SessionAct::Log(line) => format!("log {line}"),
            SessionAct::Ui(msg) => ui(msg),
            other => format!("{other:?}"),
        })
        .collect()
}

fn works(done: &[WorkerAct]) -> Vec<String> {
    done.iter()
        .map(|act| match act {
            WorkerAct::Log(line) => format!("log {line}"),
            WorkerAct::Ui(msg) => ui(msg),
            other => format!("{other:?}"),
        })
        .collect()
}

fn booted() -> Session {
    let mut session = Session::new(3);
    assert_eq!(session.phase(), SessionPhase::EnsureNode);
    assert!(session.node_ready(Ok((OsText::of("/n"), true)), 1).is_empty());
    assert_eq!(session.node(), (OsText::of("/n"), true));
    assert_eq!(session.phase(), SessionPhase::CheckBooted);
    assert!(session.current(true).is_empty());
    assert_eq!(session.phase(), SessionPhase::ReadInstalled);
    session
}

fn ready() -> Session {
    let mut session = booted();
    assert!(session.installed_read(Some("0.4.0".to_string())).is_empty());
    assert_eq!(session.phase(), SessionPhase::CheckReady);
    session
}

fn watched() -> Session {
    let mut session = ready();
    assert!(session.current(true).is_empty());
    assert_eq!(session.phase(), SessionPhase::Spawn);
    assert_eq!(
        acts(&session.spawned(Ok(4242), 2)),
        vec!["log dsh web started pid=4242", "WritePidFile(\"4242\\n\")", "KeepChild"]
    );
    assert_eq!(session.phase(), SessionPhase::Watch);
    session
}

#[test]
fn ready_line_tells_the_url() {
    assert_eq!(
        ready_url("dsh web: http://127.0.0.1:5173/?token=abc"),
        Some("http://127.0.0.1:5173/?token=abc".to_string())
    );
    assert_eq!(
        ready_url("dsh web: http://127.0.0.1:5173/?token=abc (LAN: http://10.0.0.2:5173)"),
        Some("http://127.0.0.1:5173/?token=abc".to_string())
    );
    assert_eq!(ready_url("dsh web:   http://x  "), Some("http://x".to_string()));
    assert_eq!(ready_url("dsh web: "), Some(String::new()));
    assert_eq!(ready_url("dsh web:"), None);
    assert_eq!(ready_url(" dsh web: http://x"), None);
    assert_eq!(ready_url(""), None);
}

#[test]
fn lines_of_the_child() {
    let notes = stdout_notes(3, "dsh web: http://x (LAN: y)");
    assert_eq!(notes.len(), 2);
    assert!(matches!(&notes[0], Note::Log(line) if line == "ready line: dsh web: http://x (LAN: y)"));
    assert!(matches!(&notes[1], Note::Ui(msg) if ui(msg) == "ready 3 http://x"));
    let notes = stdout_notes(3, "listening");
    assert_eq!(notes.len(), 1);
    assert!(matches!(&notes[0], Note::Log(line) if line == "[dsh stdout] listening"));
    assert!(matches!(stderr_note("oops"), Note::Log(line) if line == "[dsh stderr] oops"));
}

#[test]
fn dsh_web_command() {
    let rt = Runtime::new(Some(OsText::of("/app")));
    let cmd = rt.dsh_command_in(&OsText::of("/n"), Some(OsText::of("/Users/me")));
    assert_eq!(cmd.program, OsText::of("/n"));
    assert_eq!(
        cmd.args,
        vec![
            OsText::of("/app/runtime/node_modules/@deepseek-ai/dsh/lib/bin.js"),
            OsText::of("web"),
            OsText::of("--no-open"),
            OsText::of("--port"),
            OsText::of("0"),
        ]
    );
    assert!(cmd.env.is_empty());
    assert_eq!(cmd.cwd, Some(OsText::of("/Users/me")));
    assert_eq!((cmd.stdin, cmd.stdout, cmd.stderr), (Stream::Unset, Stream::Piped, Stream::Piped));
    assert_eq!(rt.dsh_command_in(&OsText::of("/n"), None).cwd, Some(OsText::of("/")));
}

#[test]
fn dsh_web_runs_in_the_home_of_this_user() {
    let rt = Runtime::new(Some(OsText::of("/app")));
    let want = match dirs::home_dir() {
        Some(home) => home.to_str().unwrap().to_string(),
        None => "/".to_string(),
    };
    assert_eq!(rt.dsh_command(&OsText::of("/n")).cwd, Some(OsText::of(&want)));
}

#[test]
fn session_from_boot_to_exit() {
    let mut session = watched();
    assert_eq!(WATCH_MILLIS, 200);
    assert!(session.current(true).is_empty());
    assert_eq!(session.phase(), SessionPhase::Poll);
    assert!(session.polled(None, 5).is_empty());
    assert_eq!(session.phase(), SessionPhase::Pause);
    session.paused();
    assert_eq!(session.phase(), SessionPhase::Watch);
    session.current(true);
    assert_eq!(
        acts(&session.polled(Some(Some(1)), 9)),
        vec![
            "DropChild",
            "RemovePidFile",
            "log dsh exited code=Some(1) uptime=9s",
            "exited 3 Some(1) 9",
        ]
    );
    assert_eq!(session.phase(), SessionPhase::Done);
}

#[test]
fn child_ended_by_a_signal() {
    let mut session = watched();
    session.current(true);
    assert_eq!(
        acts(&session.polled(Some(None), 0))[2..],
        ["log dsh exited code=None uptime=0s".to_string(), "exited 3 None 0".to_string()]
    );
}

#[test]
fn first_run_installs() {
    assert_eq!(FIRST_INSTALL, "latest");
    let mut session = booted();
    assert_eq!(
        acts(&session.installed_read(None)),
        vec!["status 首次运行：正在安装官方 @deepseek-ai/dsh（约需几十秒）…"]
    );
    assert_eq!(session.phase(), SessionPhase::Install);
    assert_eq!(session.install_version(), "latest");
    assert!(session.installed(Ok(()), 30).is_empty());
    assert_eq!(session.phase(), SessionPhase::ReadBack);
    assert_eq!(
        acts(&session.installed_read(Some("0.4.0".to_string()))),
        vec!["log installed dsh 0.4.0"]
    );
    assert_eq!(session.phase(), SessionPhase::CheckReady);
}

#[test]
fn installed_version_may_stay_unknown() {
    let mut session = booted();
    session.installed_read(None);
    session.installed(Ok(()), 30);
    assert_eq!(acts(&session.installed_read(None)), vec!["log installed dsh "]);
    assert_eq!(session.phase(), SessionPhase::CheckReady);
}

#[test]
fn session_gives_up() {
    let mut session = Session::new(3);
    assert_eq!(
        acts(&session.node_ready(Err("offline".to_string()), 4)),
        vec!["log node bootstrap failed: offline", "status Node.js 不可用：offline", "exited 3 None 4"]
    );
    assert_eq!(session.phase(), SessionPhase::Done);

    let mut session = booted();
    session.installed_read(None);
    assert_eq!(
        acts(&session.installed(Err("E404".to_string()), 6)),
        vec!["log install failed: E404", "status 安装失败：E404", "exited 3 None 6"]
    );
    assert_eq!(session.phase(), SessionPhase::Done);

    let mut session = ready();
    session.current(true);
    assert_eq!(
        acts(&session.spawned(Err("no node".to_string()), 8)),
        vec!["log spawn dsh failed: no node", "status 启动失败：no node", "exited 3 None 8"]
    );
    assert_eq!(session.phase(), SessionPhase::Done);
}

#[test]
fn stale_session_spawns_nothing() {
    let mut session = Session::new(3);
    session.node_ready(Ok((OsText::of("/n"), false)), 0);
    assert!(session.current(false).is_empty());
    assert_eq!(session.phase(), SessionPhase::Done);

    let mut session = ready();
    assert!(session.current(false).is_empty());
    assert_eq!(session.phase(), SessionPhase::Done);
}

#[test]
fn stale_session_leaves_quietly() {
    let mut session = watched();
    assert_eq!(acts(&session.current(false)), vec!["KillChild", "DropChild", "RemovePidFile"]);
    assert_eq!(session.phase(), SessionPhase::Done);
}

#[test]
fn end_of_a_session() {
    assert_eq!(ui(&report_exit(5, Some(0), 61)), "exited 5 Some(0) 61");
}

#[test]
fn worker_starts_a_session() {
    let mut worker = WorkerInner::new();
    assert_eq!(worker.session(), 0);
    assert_eq!(
        works(&worker.on_command(WorkerCmd::Start)),
        vec![
            "status 正在启动 DeepSeek Harness…",
            "ReapStalePid",
            "SetExpected(1)",
            "SpawnSession(1)",
            "CheckUpdate(Inform)",
        ]
    );
    assert_eq!(worker.session(), 1);
    assert!(!worker.closed());
}

#[test]
fn worker_restarts_a_session() {
    let mut worker = WorkerInner::new();
    worker.on_command(WorkerCmd::Start);
    assert_eq!(
        works(&worker.on_command(WorkerCmd::Restart)),
        vec![
            "status 正在启动 DeepSeek Harness…",
            "ReapStalePid",
            "SetExpected(2)",
            "KillChild",
            "JoinSession",
            "SpawnSession(2)",
        ]
    );
    assert_eq!(worker.session(), 2);
}

#[test]
fn worker_stops_a_session() {
    let mut worker = WorkerInner::new();
    assert_eq!(works(&worker.on_command(WorkerCmd::Stop)), vec!["SetExpected(0)"]);
    worker.on_command(WorkerCmd::Restart);
    assert_eq!(
        works(&worker.on_command(WorkerCmd::Stop)),
        vec!["SetExpected(0)", "KillChild", "JoinSession"]
    );
    assert_eq!(
        works(&worker.start_session()),
        vec!["ReapStalePid", "SetExpected(2)", "SpawnSession(2)"]
    );
    assert_eq!(works(&worker.stop_session()), vec!["SetExpected(0)", "KillChild", "JoinSession"]);
}

#[test]
fn worker_checks_for_updates() {
    let mut worker = WorkerInner::new();
    assert_eq!(works(&worker.on_command(WorkerCmd::CheckUpdate)), vec!["CheckUpdate(Install)"]);
    assert_eq!(worker.session(), 0);
}

#[test]
fn worker_says_goodbye_last() {
    let mut worker = WorkerInner::new();
    worker.on_command(WorkerCmd::Start);
    assert_eq!(
        works(&worker.on_command(WorkerCmd::Quit)),
        vec![
            "SetExpected(0)",
            "KillChild",
            "JoinSession",
            "status 正在退出…",
            "log worker: quit, bye",
            "bye",
        ]
    );
    assert!(worker.closed());
}

#[test]
fn one_session_thread_at_a_time() {
    let mut worker = WorkerInner::new();
    let mut threads = 0;
    let mut numbers = Vec::new();
    for cmd in [
        WorkerCmd::Start,
        WorkerCmd::Restart,
        WorkerCmd::Stop,
        WorkerCmd::CheckUpdate,
        WorkerCmd::Stop,
        WorkerCmd::Restart,
        WorkerCmd::Restart,
        WorkerCmd::Quit,
    ] {
        for act in worker.on_command(cmd) {
            match act {
                WorkerAct::SpawnSession(id) => {
                    threads += 1;
                    numbers.push(id);
                }
                WorkerAct::JoinSession => threads -= 1,
                _ => {}
            }
            assert!((0..=1).contains(&threads));
        }
    }
    assert_eq!(threads, 0);
    assert_eq!(numbers, vec![1, 2, 3, 4]);
}
