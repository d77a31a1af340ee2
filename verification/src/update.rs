//! The check for a newer dsh. The phase tells which outside work comes next; its
//! result is handed back by the method named after it.
use vstd::prelude::*;
use vstd::string::*;

use crate::messages::{Note, NoteView, UiMsg, UiMsgView};
use crate::os::OsText;
use crate::runtime::DSH_PKG;
use crate::worker::UpdateMode;
use crate::{node, npm, text, version};

verus! {

/// The outside work that an update check waits for.
#[derive(Debug, Clone, Copy, PartialEq, Eq, Structural)]
pub enum UpdatePhase {
    /// Search for Node.
    EnsureNode,
    /// Read which version is installed.
    ReadInstalled,
    /// Ask npm for the latest version.
    AskLatest,
    /// Install the latest version.
    Install,
    /// None: the check is over.
    Done,
}

/// An update check under way.
#[derive(Debug)]
pub struct UpdateCheck {
    mode: UpdateMode,
    phase: UpdatePhase,
    node: OsText,
    bundled: bool,
    installed: String,
    latest: String,
}

/// An update check under way, with its texts as sequences.
#[verifier::ext_equal]
pub struct UpdateView {
    pub mode: UpdateMode,
    pub phase: UpdatePhase,
    pub node: Seq<u8>,
    pub bundled: bool,
    pub installed: Seq<char>,
    pub latest: Seq<char>,
}

/// A run of npm: the Node binary, whether its npm comes from the bundle, the
/// arguments, and how long npm may take, in nanoseconds.
#[derive(Debug)]
pub struct LatestQuery {
    pub node: OsText,
    pub bundled: bool,
    pub args: Vec<String>,
    pub limit_nanos: u128,
}

/// A result of outside work.
pub enum UpdateEvent {
    NodeReady(Result<(Seq<u8>, bool), Seq<char>>),
    InstalledRead(Option<Seq<char>>),
    LatestAsked(Option<Seq<char>>),
    Installed(Result<(), Seq<char>>),
}

/// The start of an update check.
pub open spec fn update_start(mode: UpdateMode) -> UpdateView {
    UpdateView {
        mode,
        phase: UpdatePhase::EnsureNode,
        node: Seq::empty(),
        bundled: false,
        installed: Seq::empty(),
        latest: Seq::empty(),
    }
}

/// What an update check says first.
pub open spec fn update_opening() -> Seq<NoteView> {
    seq![NoteView::Ui(UiMsgView::Status("正在检查更新…"@))]
}

/// What an update check says last: its result, to the log and to the user.
pub open spec fn update_verdict(result: Seq<char>) -> Seq<NoteView> {
    seq![
        NoteView::Log("update check: "@ + result),
        NoteView::Ui(UiMsgView::UpdateInfo(result)),
    ]
}

/// The text that tells that no version is newer than the installed one.
pub open spec fn no_newer_text(installed: Seq<char>) -> Seq<char> {
    "已是最新版本 "@ + installed
}

/// The text that tells of a newer version.
pub open spec fn newer_text(latest: Seq<char>, installed: Seq<char>) -> Seq<char> {
    "发现新版本 "@ + latest + "（当前 "@ + installed + "）"@
}

/// The text that tells of an update that was installed.
pub open spec fn updated_text(latest: Seq<char>, installed: Seq<char>) -> Seq<char> {
    "已更新到 "@ + latest + "（原 "@ + installed
        + "）。请从托盘菜单“重启 Harness”使新版本生效。"@
}

/// What an update check does with a result: where it goes on, and what it says.
pub open spec fn update_step(s: UpdateView, event: UpdateEvent) -> (UpdateView, Seq<NoteView>) {
    let none = Seq::<NoteView>::empty();
    let done = UpdateView { phase: UpdatePhase::Done, ..s };
    match (s.phase, event) {
        (UpdatePhase::EnsureNode, UpdateEvent::NodeReady(Ok((node, bundled)))) => (
            UpdateView { phase: UpdatePhase::ReadInstalled, node, bundled, ..s },
            none,
        ),
        (UpdatePhase::EnsureNode, UpdateEvent::NodeReady(Err(e))) => (
            done,
            seq![NoteView::Ui(UiMsgView::UpdateInfo("检查更新失败："@ + e))],
        ),
        (UpdatePhase::ReadInstalled, UpdateEvent::InstalledRead(Some(installed))) => (
            UpdateView { phase: UpdatePhase::AskLatest, installed, ..s },
            none,
        ),
        (UpdatePhase::ReadInstalled, UpdateEvent::InstalledRead(None)) => (done, none),
        (UpdatePhase::AskLatest, UpdateEvent::LatestAsked(None)) => (
            done,
            update_verdict("检查更新失败：无法访问 npm registry"@),
        ),
        (UpdatePhase::AskLatest, UpdateEvent::LatestAsked(Some(latest))) => if !version::newer_version(
            latest,
            s.installed,
        ) {
            (UpdateView { latest, ..done }, update_verdict(no_newer_text(s.installed)))
        } else if s.mode == UpdateMode::Inform {
            (
                UpdateView { latest, ..done },
                update_verdict(newer_text(latest, s.installed)),
            )
        } else {
            (
                UpdateView { phase: UpdatePhase::Install, latest, ..s },
                seq![
                    NoteView::Ui(
                        UiMsgView::Status(newer_text(latest, s.installed) + "，正在下载…"@),
                    ),
                ],
            )
        },
        (UpdatePhase::Install, UpdateEvent::Installed(Ok(_))) => (
            done,
            seq![
                NoteView::Log(
                    "update installed "@ + s.latest + " (was "@ + s.installed + ")"@,
                ),
            ] + update_verdict(updated_text(s.latest, s.installed)),
        ),
        (UpdatePhase::Install, UpdateEvent::Installed(Err(e))) => (
            done,
            update_verdict("更新到 "@ + s.latest + " 失败："@ + e),
        ),
        _ => (s, none),
    }
}

impl View for UpdateCheck {
    type V = UpdateView;

    closed spec fn view(&self) -> UpdateView {
        UpdateView {
            mode: self.mode,
            phase: self.phase,
            node: self.node@,
            bundled: self.bundled,
            installed: self.installed@,
            latest: self.latest@,
        }
    }
}

fn verdict(result: String) -> (r: Vec<Note>)
    ensures
        r.deep_view() == update_verdict(result@),
{
    let line = "update check: ".to_owned().concat(result.as_str());
    let r: Vec<Note> = vec![Note::Log(line), Note::Ui(UiMsg::UpdateInfo(result))];
    assert(r.deep_view() =~= update_verdict(result@));
    r
}

fn nothing() -> (r: Vec<Note>)
    ensures
        r.deep_view() == Seq::<NoteView>::empty(),
{
    let r: Vec<Note> = Vec::new();
    assert(r.deep_view() =~= Seq::<NoteView>::empty());
    r
}

fn newer(latest: &str, installed: &str) -> (r: String)
    ensures
        r@ == newer_text(latest@, installed@),
{
    "发现新版本 ".to_owned().concat(latest).concat("（当前 ").concat(installed).concat("）")
}

impl UpdateCheck {
    /// An update check, and what it says first.
    pub fn new(mode: UpdateMode) -> (r: (UpdateCheck, Vec<Note>))
        ensures
            r.0@ == update_start(mode),
            r.1.deep_view() == update_opening(),
    {
        let check = UpdateCheck {
            mode,
            phase: UpdatePhase::EnsureNode,
            node: OsText { bytes: Vec::new() },
            bundled: false,
            installed: String::new(),
            latest: String::new(),
        };
        assert(check.node@ =~= Seq::<u8>::empty());
        let notes: Vec<Note> = vec![Note::Ui(UiMsg::Status("正在检查更新…".to_owned()))];
        assert(notes.deep_view() =~= update_opening());
        (check, notes)
    }

    /// The outside work that comes next.
    pub fn phase(&self) -> (r: UpdatePhase)
        ensures
            r == self@.phase,
    {
        self.phase
    }

    /// The Node binary, and whether its npm comes from the bundle.
    pub fn node(&self) -> (r: (OsText, bool))
        ensures
            (r.0@, r.1) == (self@.node, self@.bundled),
    {
        (self.node.clone(), self.bundled)
    }

    /// The latest published version.
    pub fn latest(&self) -> (r: String)
        ensures
            r@ == self@.latest,
    {
        self.latest.clone()
    }

    /// What npm is asked for the latest version.
    pub fn latest_query(&self) -> (r: LatestQuery)
        requires
            self@.phase == UpdatePhase::AskLatest,
        ensures
            (r.node@, r.bundled) == (self@.node, self@.bundled),
            r.args.deep_view() == seq!["view"@, DSH_PKG@, "version"@],
            r.limit_nanos == npm::LATEST_VERSION_TIMEOUT_NANOS,
    {
        LatestQuery {
            node: self.node.clone(),
            bundled: self.bundled,
            args: npm::latest_version_args(),
            limit_nanos: npm::LATEST_VERSION_TIMEOUT_NANOS,
        }
    }

    /// The search for Node came to its end.
    pub fn node_ready(&mut self, found: Result<(OsText, bool), String>) -> (r: Vec<Note>)
        requires
            old(self)@.phase == UpdatePhase::EnsureNode,
        ensures
            (final(self)@, r.deep_view()) == update_step(
                old(self)@,
                UpdateEvent::NodeReady(node::node_result(found)),
            ),
    {
        match found {
            Ok((path, bundled)) => {
                self.node = path;
                self.bundled = bundled;
                self.phase = UpdatePhase::ReadInstalled;
                nothing()
            },
            Err(e) => {
                self.phase = UpdatePhase::Done;
                let info = "检查更新失败：".to_owned().concat(e.as_str());
                let r: Vec<Note> = vec![Note::Ui(UiMsg::UpdateInfo(info))];
                assert(r.deep_view() =~= seq![
                    NoteView::Ui(UiMsgView::UpdateInfo("检查更新失败："@ + e@)),
                ]);
                r
            },
        }
    }

    /// The installed version was read; `None` where none is installed. The first
    /// boot installs the latest version, so that there is nothing to check then.
    pub fn installed_read(&mut self, installed: Option<String>)
        requires
            old(self)@.phase == UpdatePhase::ReadInstalled,
        ensures
            (final(self)@, Seq::<NoteView>::empty()) == update_step(
                old(self)@,
                UpdateEvent::InstalledRead(installed.deep_view()),
            ),
    {
        match installed {
            Some(version) => {
                self.installed = version;
                self.phase = UpdatePhase::AskLatest;
            },
            None => {
                self.phase = UpdatePhase::Done;
            },
        }
    }

    /// npm told the latest version, or did not.
    pub fn latest_asked(&mut self, latest: Option<String>) -> (r: Vec<Note>)
        requires
            old(self)@.phase == UpdatePhase::AskLatest,
        ensures
            (final(self)@, r.deep_view()) == update_step(
                old(self)@,
                UpdateEvent::LatestAsked(latest.deep_view()),
            ),
    {
        match latest {
            None => {
                self.phase = UpdatePhase::Done;
                verdict("检查更新失败：无法访问 npm registry".to_owned())
            },
            Some(version) => {
                let newer_found = version::is_newer(version.as_str(), self.installed.as_str());
                self.latest = version;
                if !newer_found {
                    self.phase = UpdatePhase::Done;
                    verdict("已是最新版本 ".to_owned().concat(self.installed.as_str()))
                } else if self.mode == UpdateMode::Inform {
                    self.phase = UpdatePhase::Done;
                    verdict(newer(self.latest.as_str(), self.installed.as_str()))
                } else {
                    self.phase = UpdatePhase::Install;
                    let status = newer(self.latest.as_str(), self.installed.as_str()).concat(
                        "，正在下载…",
                    );
                    let r: Vec<Note> = vec![Note::Ui(UiMsg::Status(status))];
                    assert(r.deep_view() =~= seq![NoteView::Ui(UiMsgView::Status(status@))]);
                    r
                }
            },
        }
    }

    /// The latest version was installed, or not.
    pub fn installed(&mut self, result: Result<(), String>) -> (r: Vec<Note>)
        requires
            old(self)@.phase == UpdatePhase::Install,
        ensures
            (final(self)@, r.deep_view()) == update_step(
                old(self)@,
                UpdateEvent::Installed(text::unit_result(result)),
            ),
    {
        self.phase = UpdatePhase::Done;
        match result {
            Ok(_) => {
                let line = "update installed ".to_owned().concat(self.latest.as_str()).concat(
                    " (was ",
                ).concat(self.installed.as_str()).concat(")");
                let mut r: Vec<Note> = vec![Note::Log(line)];
                let info = "已更新到 ".to_owned().concat(self.latest.as_str()).concat(
                    "（原 ",
                ).concat(self.installed.as_str()).concat(
                    "）。请从托盘菜单“重启 Harness”使新版本生效。",
                );
                let mut more = verdict(info);
                let ghost tail = more.deep_view();
                r.append(&mut more);
                assert(r.deep_view() =~= seq![NoteView::Log(line@)] + tail);
                r
            },
            Err(e) => verdict(
                "更新到 ".to_owned().concat(self.latest.as_str()).concat(" 失败：").concat(
                    e.as_str(),
                ),
            ),
        }
    }
}

/// How all the outside work of an update check would turn out.
pub struct UpdateWorld {
    pub node: Result<(Seq<u8>, bool), Seq<char>>,
    pub installed: Option<Seq<char>>,
    pub latest: Option<Seq<char>>,
    pub result: Result<(), Seq<char>>,
}

/// The result of the outside work that comes next.
pub open spec fn update_answer(phase: UpdatePhase, world: UpdateWorld) -> UpdateEvent {
    match phase {
        UpdatePhase::EnsureNode => UpdateEvent::NodeReady(world.node),
        UpdatePhase::ReadInstalled => UpdateEvent::InstalledRead(world.installed),
        UpdatePhase::AskLatest => UpdateEvent::LatestAsked(world.latest),
        _ => UpdateEvent::Installed(world.result),
    }
}

/// An update check carried on for `n` results: where it is, what it said, and
/// whether it installed.
pub open spec fn update_run(s: UpdateView, world: UpdateWorld, n: nat) -> (
    UpdateView,
    Seq<NoteView>,
    bool,
)
    decreases n,
{
    if n == 0 || s.phase == UpdatePhase::Done {
        (s, Seq::empty(), false)
    } else {
        let (next, notes) = update_step(s, update_answer(s.phase, world));
        let (last, rest, installs) = update_run(next, world, (n - 1) as nat);
        (last, notes + rest, installs || s.phase == UpdatePhase::Install)
    }
}

/// There is a newer version than the one that is installed.
pub open spec fn update_available(world: UpdateWorld) -> bool {
    &&& world.node is Ok
    &&& world.installed is Some
    &&& world.latest is Some
    &&& version::newer_version(world.latest->0, world.installed->0)
}

/// What an update check tells the user in the end, if it tells anything.
pub open spec fn update_info(mode: UpdateMode, world: UpdateWorld) -> Option<Seq<char>> {
    if world.node is Err {
        Some("检查更新失败："@ + world.node->Err_0)
    } else if world.installed is None {
        None
    } else if world.latest is None {
        Some("检查更新失败：无法访问 npm registry"@)
    } else if !version::newer_version(world.latest->0, world.installed->0) {
        Some(no_newer_text(world.installed->0))
    } else if mode == UpdateMode::Inform {
        Some(newer_text(world.latest->0, world.installed->0))
    } else if world.result is Ok {
        Some(updated_text(world.latest->0, world.installed->0))
    } else {
        Some("更新到 "@ + world.latest->0 + " 失败："@ + world.result->Err_0)
    }
}

/// An update check ends after at most four results. It installs exactly where it
/// may and the latest version is newer than the installed one. The last thing it says is
/// its one result for the user; it says nothing where no version is installed.
pub proof fn lemma_update_outcome(mode: UpdateMode, world: UpdateWorld)
    ensures
        ({
            let (last, notes, installs) = update_run(update_start(mode), world, 4);
            &&& last.phase == UpdatePhase::Done
            &&& installs <==> mode == UpdateMode::Install && update_available(world)
            &&& installs ==> last.latest == world.latest->0
            &&& update_info(mode, world) is None ==> notes.len() == 0
            &&& update_info(mode, world) matches Some(info) ==> {
                &&& notes.len() > 0
                &&& notes.last() == NoteView::Ui(UiMsgView::UpdateInfo(info))
                &&& forall|i: int|
                    0 <= i < notes.len() - 1 ==> !(#[trigger] notes[i] matches NoteView::Ui(msg)
                        && msg is UpdateInfo)
            }
        }),
{
    reveal_with_fuel(update_run, 5);
}

/// An update check never replaces the installed version by an older one, nor by
/// itself.
pub proof fn lemma_update_never_downgrades(mode: UpdateMode, world: UpdateWorld)
    ensures
        ({
            let (last, notes, installs) = update_run(update_start(mode), world, 4);
            installs ==> {
                &&& world.installed is Some
                &&& last.latest != world.installed->0
                &&& version::newer_version(last.latest, world.installed->0)
                &&& version::version_of(last.latest) is Some && version::version_of(
                    world.installed->0,
                ) is Some ==> !version::newer_version(world.installed->0, last.latest)
            }
        }),
{
    lemma_update_outcome(mode, world);
    if update_available(world) {
        let latest = world.latest->0;
        let installed = world.installed->0;
        version::lemma_not_newer_than_itself(installed);
        if version::version_of(latest) is Some && version::version_of(installed) is Some {
            version::lemma_newer_is_an_order(latest, installed, latest);
        }
    }
}

/// An update check says first that it checks, searches for Node, and keeps the binary
/// that was found. Without Node it tells the user why.
pub proof fn lemma_check_starts(
    mode: UpdateMode,
    s: UpdateView,
    node: Seq<u8>,
    bundled: bool,
    why: Seq<char>,
)
    ensures
        update_start(mode).mode == mode,
        update_start(mode).phase == UpdatePhase::EnsureNode,
        update_opening().len() == 1,
        update_opening()[0] == NoteView::Ui(UiMsgView::Status("正在检查更新…"@)),
        s.phase == UpdatePhase::EnsureNode ==> update_step(
            s,
            UpdateEvent::NodeReady(Ok((node, bundled))),
        ) == (
            UpdateView { phase: UpdatePhase::ReadInstalled, node, bundled, ..s },
            Seq::<NoteView>::empty(),
        ),
        s.phase == UpdatePhase::EnsureNode ==> {
            let (next, notes) = update_step(s, UpdateEvent::NodeReady(Err(why)));
            &&& next.phase == UpdatePhase::Done
            &&& notes.len() == 1
            &&& notes[0] == NoteView::Ui(UiMsgView::UpdateInfo("检查更新失败："@ + why))
        },
{
}

/// The latest version is asked for only where one is installed; else the check is over
/// without a word.
pub proof fn lemma_check_needs_an_installed_version(s: UpdateView, version: Seq<char>)
    requires
        s.phase == UpdatePhase::ReadInstalled,
    ensures
        update_step(s, UpdateEvent::InstalledRead(Some(version))) == (
            UpdateView { phase: UpdatePhase::AskLatest, installed: version, ..s },
            Seq::<NoteView>::empty(),
        ),
        update_step(s, UpdateEvent::InstalledRead(None)).0.phase == UpdatePhase::Done,
        update_step(s, UpdateEvent::InstalledRead(None)).1.len() == 0,
{
}

/// The check is over with one text, which goes to the log and to the user.
pub open spec fn ends_with_text(s: UpdateView, event: UpdateEvent, told: Seq<char>) -> bool {
    let (next, notes) = update_step(s, event);
    &&& next.phase == UpdatePhase::Done
    &&& notes.len() == 2
    &&& notes[0] == NoteView::Log("update check: "@ + told)
    &&& notes[1] == NoteView::Ui(UiMsgView::UpdateInfo(told))
}

/// A version that is newer is told of, and where the check may install, it is
/// installed after the user has been told; a version that is not newer never is.
pub proof fn lemma_newer_version_is_told_or_installed(s: UpdateView, latest: Seq<char>)
    requires
        s.phase == UpdatePhase::AskLatest,
    ensures
        ends_with_text(
            s,
            UpdateEvent::LatestAsked(None),
            "检查更新失败：无法访问 npm registry"@,
        ),
        !version::newer_version(latest, s.installed) ==> ends_with_text(
            s,
            UpdateEvent::LatestAsked(Some(latest)),
            "已是最新版本 "@ + s.installed,
        ),
        version::newer_version(latest, s.installed) && s.mode == UpdateMode::Inform
            ==> ends_with_text(
            s,
            UpdateEvent::LatestAsked(Some(latest)),
            "发现新版本 "@ + latest + "（当前 "@ + s.installed + "）"@,
        ),
        version::newer_version(latest, s.installed) && s.mode == UpdateMode::Install
            ==> update_step(s, UpdateEvent::LatestAsked(Some(latest))) == (
            UpdateView { phase: UpdatePhase::Install, latest, ..s },
            seq![
                NoteView::Ui(
                    UiMsgView::Status(
                        "发现新版本 "@ + latest + "（当前 "@ + s.installed + "）"@
                            + "，正在下载…"@,
                    ),
                ),
            ],
        ),
{
}

/// After an install the user learns which version was installed and which it replaced,
/// and how to use it, or why the install failed.
pub proof fn lemma_install_is_reported(s: UpdateView, why: Seq<char>)
    requires
        s.phase == UpdatePhase::Install,
    ensures
        ({
            let (next, notes) = update_step(s, UpdateEvent::Installed(Ok(())));
            let told = "已更新到 "@ + s.latest + "（原 "@ + s.installed
                + "）。请从托盘菜单“重启 Harness”使新版本生效。"@;
            &&& next.phase == UpdatePhase::Done
            &&& notes.len() == 3
            &&& notes[0] == NoteView::Log(
                "update installed "@ + s.latest + " (was "@ + s.installed + ")"@,
            )
            &&& notes[1] == NoteView::Log("update check: "@ + told)
            &&& notes[2] == NoteView::Ui(UiMsgView::UpdateInfo(told))
        }),
        ends_with_text(
            s,
            UpdateEvent::Installed(Err(why)),
            "更新到 "@ + s.latest + " 失败："@ + why,
        ),
{
}

} // verus!
