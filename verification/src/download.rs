//! The download of the official Node.js release into the runtime directory. The
//! phase tells which outside work comes next; its result is handed back by the
//! method named after it.
use vstd::prelude::*;
use vstd::string::*;

use crate::command::CommandLine;
use crate::messages::{Note, NoteView};
use crate::os::OsText;
use crate::runtime::Runtime;
use crate::{command, os, releases, runtime, text};

verus! {

/// Where the releases of Node.js are listed.
pub const NODE_INDEX_URL: &'static str = "https://nodejs.org/dist/index.json";

/// The outside work that a download waits for.
#[derive(Debug, Clone, Copy, PartialEq, Eq, Structural)]
pub enum DownloadPhase {
    /// See whether the bundled Node is there already.
    Probe,
    /// Fetch the page at `NODE_INDEX_URL`.
    FetchIndex,
    /// Create the runtime directory and those above it.
    MakeDir,
    /// Fetch the archive.
    FetchArchive,
    /// Run the command that unpacks the archive.
    Unpack,
    /// Rename the directory that was unpacked.
    Rename,
    /// Remove the archive.
    Clean,
    /// None: the outcome is known.
    Done,
}

/// A download under way.
#[derive(Debug)]
pub struct NodeDownload {
    machine: String,
    arch: String,
    version: String,
    phase: DownloadPhase,
    outcome: Result<(), String>,
}

/// A download under way, with its texts as sequences.
#[verifier::ext_equal]
pub struct DownloadView {
    pub machine: Seq<char>,
    pub arch: Seq<char>,
    pub version: Seq<char>,
    pub phase: DownloadPhase,
    pub outcome: Result<(), Seq<char>>,
}

/// A result of outside work.
pub enum DownloadEvent {
    Probed(bool),
    IndexFetched(Result<Seq<char>, Seq<char>>),
    DirMade(Result<(), Seq<char>>),
    ArchiveFetched(Result<(), Seq<char>>),
    Unpacked(Result<bool, Seq<char>>),
    Renamed(Result<(), Seq<char>>),
    Cleaned,
}

/// What the releases of Node.js call a processor architecture.
pub open spec fn node_arch_of(machine: Seq<char>) -> Option<Seq<char>> {
    if machine == "aarch64"@ {
        Some("arm64"@)
    } else if machine == "x86_64"@ {
        Some("x64"@)
    } else {
        None
    }
}

/// What the releases of Node.js call a processor architecture.
pub fn node_arch(machine: &str) -> (r: Option<String>)
    ensures
        r.deep_view() == node_arch_of(machine@),
{
    if text::same_text(machine, "aarch64") {
        Some("arm64".to_owned())
    } else if text::same_text(machine, "x86_64") {
        Some("x64".to_owned())
    } else {
        None
    }
}

/// The name of a release, which is that of the directory in its archive.
pub open spec fn release_name_of(version: Seq<char>, arch: Seq<char>) -> Seq<char> {
    "node-v"@ + version + "-darwin-"@ + arch
}

/// The name of the archive of a release.
pub open spec fn archive_name_of(version: Seq<char>, arch: Seq<char>) -> Seq<char> {
    release_name_of(version, arch) + ".tar.gz"@
}

/// Where the archive of a release is fetched from.
pub open spec fn archive_url_of(version: Seq<char>, arch: Seq<char>) -> Seq<char> {
    "https://nodejs.org/dist/v"@ + version + "/"@ + archive_name_of(version, arch)
}

/// Where the archive of a release is fetched to.
pub open spec fn archive_path_of(home: Seq<u8>, version: Seq<char>, arch: Seq<char>) -> Seq<u8> {
    runtime::below(runtime::runtime_dir_of(home), archive_name_of(version, arch))
}

/// The directory that the archive of a release unpacks to.
pub open spec fn unpacked_dir_of(home: Seq<u8>, version: Seq<char>, arch: Seq<char>) -> Seq<u8> {
    runtime::below(runtime::runtime_dir_of(home), release_name_of(version, arch))
}

/// The start of a download on a machine of the given architecture.
pub open spec fn download_start(machine: Seq<char>) -> DownloadView {
    DownloadView {
        machine,
        arch: Seq::empty(),
        version: Seq::empty(),
        phase: DownloadPhase::Probe,
        outcome: Ok(()),
    }
}

/// The line that the log gets before the archive is fetched.
pub open spec fn download_note(version: Seq<char>, arch: Seq<char>) -> Seq<NoteView> {
    seq![NoteView::Log("download node v"@ + version + " darwin-"@ + arch)]
}

/// What a download does with a result: where it goes on, and what it says.
pub open spec fn download_step(s: DownloadView, event: DownloadEvent) -> (
    DownloadView,
    Seq<NoteView>,
) {
    let none = Seq::<NoteView>::empty();
    let go_on = |phase: DownloadPhase| DownloadView { phase, ..s };
    let done = |outcome: Result<(), Seq<char>>|
        DownloadView { phase: DownloadPhase::Done, outcome, ..s };
    match (s.phase, event) {
        (DownloadPhase::Probe, DownloadEvent::Probed(is_file)) => if is_file {
            (done(Ok(())), none)
        } else {
            match node_arch_of(s.machine) {
                Some(arch) => (DownloadView { phase: DownloadPhase::FetchIndex, arch, ..s }, none),
                None => (done(Err("不支持的 CPU 架构: "@ + s.machine)), none),
            }
        },
        (DownloadPhase::FetchIndex, DownloadEvent::IndexFetched(Ok(index))) => match releases::first_lts(
            index,
        ) {
            Some(version) => (
                DownloadView { phase: DownloadPhase::MakeDir, version, ..s },
                download_note(version, s.arch),
            ),
            None => (done(Err("无法解析 nodejs.org 版本列表"@)), none),
        },
        (DownloadPhase::FetchIndex, DownloadEvent::IndexFetched(Err(e))) => (done(Err(e)), none),
        (DownloadPhase::MakeDir, DownloadEvent::DirMade(Ok(_))) => (
            go_on(DownloadPhase::FetchArchive),
            none,
        ),
        (DownloadPhase::MakeDir, DownloadEvent::DirMade(Err(e))) => (done(Err(e)), none),
        (DownloadPhase::FetchArchive, DownloadEvent::ArchiveFetched(Ok(_))) => (
            go_on(DownloadPhase::Unpack),
            none,
        ),
        (DownloadPhase::FetchArchive, DownloadEvent::ArchiveFetched(Err(e))) => (
            done(Err(e)),
            none,
        ),
        (DownloadPhase::Unpack, DownloadEvent::Unpacked(Ok(success))) => if success {
            (go_on(DownloadPhase::Rename), none)
        } else {
            (done(Err("解压 Node 失败"@)), none)
        },
        (DownloadPhase::Unpack, DownloadEvent::Unpacked(Err(e))) => (done(Err(e)), none),
        (DownloadPhase::Rename, DownloadEvent::Renamed(Ok(_))) => (
            go_on(DownloadPhase::Clean),
            none,
        ),
        (DownloadPhase::Rename, DownloadEvent::Renamed(Err(e))) => (done(Err(e)), none),
        (DownloadPhase::Clean, DownloadEvent::Cleaned) => (done(Ok(())), none),
        _ => (s, none),
    }
}

impl View for NodeDownload {
    type V = DownloadView;

    closed spec fn view(&self) -> DownloadView {
        DownloadView {
            machine: self.machine@,
            arch: self.arch@,
            version: self.version@,
            phase: self.phase,
            outcome: text::unit_result(self.outcome),
        }
    }
}

/// A result with whether a command succeeded, with its error text as a sequence.
pub open spec fn success_result(r: Result<bool, String>) -> Result<bool, Seq<char>> {
    match r {
        Ok(success) => Ok(success),
        Err(e) => Err(e@),
    }
}

impl Runtime {
    /// Download Node on a machine of the given architecture.
    pub fn download_node(&self, machine: &str) -> (r: NodeDownload)
        ensures
            r@ == download_start(machine@),
    {
        NodeDownload {
            machine: machine.to_owned(),
            arch: String::new(),
            version: String::new(),
            phase: DownloadPhase::Probe,
            outcome: Ok(()),
        }
    }
}

impl NodeDownload {
    /// The outside work that comes next.
    pub fn phase(&self) -> (r: DownloadPhase)
        ensures
            r == self@.phase,
    {
        self.phase
    }

    /// What the download came to.
    pub fn outcome(self) -> (r: Result<(), String>)
        requires
            self@.phase == DownloadPhase::Done,
        ensures
            text::unit_result(r) == self@.outcome,
    {
        self.outcome
    }

    fn release_name(&self) -> (r: String)
        ensures
            r@ == release_name_of(self@.version, self@.arch),
    {
        "node-v".to_owned().concat(self.version.as_str()).concat("-darwin-").concat(
            self.arch.as_str(),
        )
    }

    /// Where the archive is fetched from.
    pub fn archive_url(&self) -> (r: String)
        ensures
            r@ == archive_url_of(self@.version, self@.arch),
    {
        let archive = self.release_name().concat(".tar.gz");
        "https://nodejs.org/dist/v".to_owned().concat(self.version.as_str()).concat("/").concat(
            archive.as_str(),
        )
    }

    /// Where the archive is fetched to.
    pub fn archive_path(&self, rt: &Runtime) -> (r: OsText)
        ensures
            r@ == archive_path_of(rt.home(), self@.version, self@.arch),
    {
        rt.runtime_dir().join_str(self.release_name().concat(".tar.gz").as_str())
    }

    /// The directory that the archive unpacks to.
    pub fn unpacked_dir(&self, rt: &Runtime) -> (r: OsText)
        ensures
            r@ == unpacked_dir_of(rt.home(), self@.version, self@.arch),
    {
        rt.runtime_dir().join_str(self.release_name().as_str())
    }

    /// The command that unpacks the archive.
    pub fn unpack_command(&self, rt: &Runtime) -> (r: CommandLine)
        ensures
            r@ == command::plain_command(
                os::utf8("tar"@),
                seq![
                    os::utf8("-xzf"@),
                    archive_path_of(rt.home(), self@.version, self@.arch),
                    os::utf8("-C"@),
                    runtime::runtime_dir_of(rt.home()),
                ],
            ),
    {
        let args: Vec<OsText> = vec![
            OsText::of("-xzf"),
            self.archive_path(rt),
            OsText::of("-C"),
            rt.runtime_dir(),
        ];
        assert(args.deep_view() =~= seq![
            os::utf8("-xzf"@),
            archive_path_of(rt.home(), self@.version, self@.arch),
            os::utf8("-C"@),
            runtime::runtime_dir_of(rt.home()),
        ]);
        CommandLine::plain(OsText::of("tar"), args)
    }

    fn fail(&mut self, e: String)
        ensures
            final(self)@ == (DownloadView {
                phase: DownloadPhase::Done,
                outcome: Err(e@),
                ..old(self)@
            }),
    {
        self.phase = DownloadPhase::Done;
        self.outcome = Err(e);
    }

    /// The bundled Node is there already, or not.
    pub fn probed(&mut self, is_file: bool)
        requires
            old(self)@.phase == DownloadPhase::Probe,
        ensures
            (final(self)@, Seq::<NoteView>::empty()) == download_step(
                old(self)@,
                DownloadEvent::Probed(is_file),
            ),
    {
        if is_file {
            self.phase = DownloadPhase::Done;
            self.outcome = Ok(());
        } else {
            match node_arch(self.machine.as_str()) {
                Some(arch) => {
                    self.arch = arch;
                    self.phase = DownloadPhase::FetchIndex;
                },
                None => {
                    let e = "不支持的 CPU 架构: ".to_owned().concat(self.machine.as_str());
                    self.fail(e);
                },
            }
        }
    }

    /// The list of releases was fetched, or not.
    pub fn index_fetched(&mut self, index: Result<String, String>) -> (r: Vec<Note>)
        requires
            old(self)@.phase == DownloadPhase::FetchIndex,
        ensures
            (final(self)@, r.deep_view()) == download_step(
                old(self)@,
                DownloadEvent::IndexFetched(text::text_result(index)),
            ),
    {
        let mut r: Vec<Note> = Vec::new();
        assert(r.deep_view() =~= Seq::<NoteView>::empty());
        match index {
            Ok(list) => match releases::first_lts_version_in_node_index(list.as_str()) {
                Some(version) => {
                    let line = "download node v".to_owned().concat(version.as_str()).concat(
                        " darwin-",
                    ).concat(self.arch.as_str());
                    r.push(Note::Log(line));
                    assert(r.deep_view() =~= download_note(version@, old(self)@.arch));
                    self.version = version;
                    self.phase = DownloadPhase::MakeDir;
                },
                None => {
                    self.fail("无法解析 nodejs.org 版本列表".to_owned());
                },
            },
            Err(e) => {
                self.fail(e);
            },
        }
        r
    }

    /// The runtime directory was created, or not.
    pub fn dir_made(&mut self, made: Result<(), String>)
        requires
            old(self)@.phase == DownloadPhase::MakeDir,
        ensures
            (final(self)@, Seq::<NoteView>::empty()) == download_step(
                old(self)@,
                DownloadEvent::DirMade(text::unit_result(made)),
            ),
    {
        match made {
            Ok(_) => {
                self.phase = DownloadPhase::FetchArchive;
            },
            Err(e) => {
                self.fail(e);
            },
        }
    }

    /// The archive was fetched, or not.
    pub fn archive_fetched(&mut self, fetched: Result<(), String>)
        requires
            old(self)@.phase == DownloadPhase::FetchArchive,
        ensures
            (final(self)@, Seq::<NoteView>::empty()) == download_step(
                old(self)@,
                DownloadEvent::ArchiveFetched(text::unit_result(fetched)),
            ),
    {
        match fetched {
            Ok(_) => {
                self.phase = DownloadPhase::Unpack;
            },
            Err(e) => {
                self.fail(e);
            },
        }
    }

    /// The command that unpacks succeeded or not, or could not be run.
    pub fn unpacked(&mut self, ran: Result<bool, String>)
        requires
            old(self)@.phase == DownloadPhase::Unpack,
        ensures
            (final(self)@, Seq::<NoteView>::empty()) == download_step(
                old(self)@,
                DownloadEvent::Unpacked(success_result(ran)),
            ),
    {
        match ran {
            Ok(success) => {
                if success {
                    self.phase = DownloadPhase::Rename;
                } else {
                    self.fail("解压 Node 失败".to_owned());
                }
            },
            Err(e) => {
                self.fail(e);
            },
        }
    }

    /// The directory was renamed, or not.
    pub fn renamed(&mut self, renamed: Result<(), String>)
        requires
            old(self)@.phase == DownloadPhase::Rename,
        ensures
            (final(self)@, Seq::<NoteView>::empty()) == download_step(
                old(self)@,
                DownloadEvent::Renamed(text::unit_result(renamed)),
            ),
    {
        match renamed {
            Ok(_) => {
                self.phase = DownloadPhase::Clean;
            },
            Err(e) => {
                self.fail(e);
            },
        }
    }

    /// The archive was removed, as far as that was possible.
    pub fn cleaned(&mut self)
        requires
            old(self)@.phase == DownloadPhase::Clean,
        ensures
            (final(self)@, Seq::<NoteView>::empty()) == download_step(
                old(self)@,
                DownloadEvent::Cleaned,
            ),
    {
        self.phase = DownloadPhase::Done;
        self.outcome = Ok(());
    }
}

/// How all the outside work of a download would turn out.
pub struct DownloadWorld {
    pub present: bool,
    pub index: Result<Seq<char>, Seq<char>>,
    pub made: Result<(), Seq<char>>,
    pub fetched: Result<(), Seq<char>>,
    pub unpacked: Result<bool, Seq<char>>,
    pub renamed: Result<(), Seq<char>>,
}

/// The result of the outside work that comes next.
pub open spec fn download_answer(phase: DownloadPhase, world: DownloadWorld) -> DownloadEvent {
    match phase {
        DownloadPhase::Probe => DownloadEvent::Probed(world.present),
        DownloadPhase::FetchIndex => DownloadEvent::IndexFetched(world.index),
        DownloadPhase::MakeDir => DownloadEvent::DirMade(world.made),
        DownloadPhase::FetchArchive => DownloadEvent::ArchiveFetched(world.fetched),
        DownloadPhase::Unpack => DownloadEvent::Unpacked(world.unpacked),
        DownloadPhase::Rename => DownloadEvent::Renamed(world.renamed),
        _ => DownloadEvent::Cleaned,
    }
}

/// A download carried on for `n` results, with all that it says.
pub open spec fn download_run(s: DownloadView, world: DownloadWorld, n: nat) -> (
    DownloadView,
    Seq<NoteView>,
)
    decreases n,
{
    if n == 0 || s.phase == DownloadPhase::Done {
        (s, Seq::empty())
    } else {
        let (next, notes) = download_step(s, download_answer(s.phase, world));
        let (last, rest) = download_run(next, world, (n - 1) as nat);
        (last, notes + rest)
    }
}

/// What a download comes to: nothing is done where the bundled Node is there; else
/// the first error of its steps, in their order, is its error.
pub open spec fn download_outcome(machine: Seq<char>, world: DownloadWorld) -> Result<
    (),
    Seq<char>,
> {
    if world.present {
        Ok(())
    } else if node_arch_of(machine) is None {
        Err("不支持的 CPU 架构: "@ + machine)
    } else if world.index is Err {
        Err(world.index->Err_0)
    } else if releases::first_lts(world.index->Ok_0) is None {
        Err("无法解析 nodejs.org 版本列表"@)
    } else if world.made is Err {
        world.made
    } else if world.fetched is Err {
        world.fetched
    } else if world.unpacked is Err {
        Err(world.unpacked->Err_0)
    } else if world.unpacked == Ok::<bool, Seq<char>>(false) {
        Err("解压 Node 失败"@)
    } else if world.renamed is Err {
        world.renamed
    } else {
        Ok(())
    }
}

/// A download ends after at most seven results, with the outcome of
/// `download_outcome`. What it fetches, where it fetches anything, is the first
/// long-term-support version of the list of releases, for this machine.
pub proof fn lemma_download_outcome(machine: Seq<char>, world: DownloadWorld)
    ensures
        ({
            let (last, notes) = download_run(download_start(machine), world, 7);
            &&& last.phase == DownloadPhase::Done
            &&& last.outcome == download_outcome(machine, world)
            &&& !world.present && node_arch_of(machine) is Some && world.index is Ok
                && releases::first_lts(world.index->Ok_0) is Some ==> {
                &&& last.version == releases::first_lts(world.index->Ok_0)->0
                &&& last.arch == node_arch_of(machine)->0
                &&& notes == download_note(last.version, last.arch)
            }
        }),
{
    reveal_with_fuel(download_run, 8);
    let (last, notes) = download_run(download_start(machine), world, 7);
    if !world.present && node_arch_of(machine) is Some && world.index is Ok && releases::first_lts(
        world.index->Ok_0,
    ) is Some {
        assert(notes =~= download_note(last.version, last.arch));
    }
}

/// The releases know two architectures, and no other.
pub proof fn lemma_architectures(machine: Seq<char>)
    ensures
        node_arch_of("aarch64"@) == Some("arm64"@),
        node_arch_of("x86_64"@) == Some("x64"@),
        machine != "aarch64"@ && machine != "x86_64"@ ==> node_arch_of(machine) is None,
{
    reveal_strlit("aarch64");
    reveal_strlit("x86_64");
    assert("aarch64"@.len() != "x86_64"@.len());
}

/// A release is fetched from the directory of its version, as an archive for this
/// architecture, next to where it is unpacked.
pub proof fn lemma_release_names(home: Seq<u8>, version: Seq<char>, arch: Seq<char>)
    ensures
        release_name_of(version, arch) == "node-v"@ + version + "-darwin-"@ + arch,
        archive_name_of(version, arch) == "node-v"@ + version + "-darwin-"@ + arch + ".tar.gz"@,
        archive_url_of(version, arch) == "https://nodejs.org/dist/v"@ + version + "/"@ + ("node-v"@
            + version + "-darwin-"@ + arch + ".tar.gz"@),
        archive_path_of(home, version, arch) == runtime::below(
            runtime::runtime_dir_of(home),
            "node-v"@ + version + "-darwin-"@ + arch + ".tar.gz"@,
        ),
        unpacked_dir_of(home, version, arch) == runtime::below(
            runtime::runtime_dir_of(home),
            "node-v"@ + version + "-darwin-"@ + arch,
        ),
{
}

/// A download starts by looking whether Node is there. Where it is, that is all; else
/// the machine must be one that there are releases for.
pub proof fn lemma_download_starts(s: DownloadView, machine: Seq<char>)
    ensures
        download_start(machine).machine == machine,
        download_start(machine).phase == DownloadPhase::Probe,
        s.phase == DownloadPhase::Probe ==> {
            let (there, there_notes) = download_step(s, DownloadEvent::Probed(true));
            let (next, notes) = download_step(s, DownloadEvent::Probed(false));
            &&& there.phase == DownloadPhase::Done && there.outcome is Ok && there_notes.len() == 0
            &&& notes.len() == 0
            &&& s.machine == "aarch64"@ ==> next == (DownloadView {
                phase: DownloadPhase::FetchIndex,
                arch: "arm64"@,
                ..s
            })
            &&& s.machine == "x86_64"@ ==> next == (DownloadView {
                phase: DownloadPhase::FetchIndex,
                arch: "x64"@,
                ..s
            })
            &&& s.machine != "aarch64"@ && s.machine != "x86_64"@ ==> next == (DownloadView {
                phase: DownloadPhase::Done,
                outcome: Err("不支持的 CPU 架构: "@ + s.machine),
                ..s
            })
        },
{
    lemma_architectures(s.machine);
}

/// Of the index, the first long-term-support version is taken and announced in the
/// log; an index without one is an error, and so is one that could not be fetched.
pub proof fn lemma_download_takes_lts(
    s: DownloadView,
    index: Seq<char>,
    version: Seq<char>,
    why: Seq<char>,
)
    requires
        s.phase == DownloadPhase::FetchIndex,
    ensures
        releases::first_lts(index) == Some(version) ==> download_step(
            s,
            DownloadEvent::IndexFetched(Ok(index)),
        ) == (
            DownloadView { phase: DownloadPhase::MakeDir, version, ..s },
            seq![NoteView::Log("download node v"@ + version + " darwin-"@ + s.arch)],
        ),
        releases::first_lts(index) is None ==> download_step(
            s,
            DownloadEvent::IndexFetched(Ok(index)),
        ) == (
            DownloadView {
                phase: DownloadPhase::Done,
                outcome: Err("无法解析 nodejs.org 版本列表"@),
                ..s
            },
            Seq::<NoteView>::empty(),
        ),
        download_step(s, DownloadEvent::IndexFetched(Err(why))) == (
            DownloadView { phase: DownloadPhase::Done, outcome: Err(why), ..s },
            Seq::<NoteView>::empty(),
        ),
{
}

/// The download goes on as an error-free step leads to the next: directory, archive,
/// unpacking, renaming, cleaning. Only then has it succeeded.
pub proof fn lemma_download_goes_on(s: DownloadView)
    ensures
        s.phase == DownloadPhase::MakeDir ==> download_step(s, DownloadEvent::DirMade(Ok(()))) == (
            DownloadView { phase: DownloadPhase::FetchArchive, ..s },
            Seq::<NoteView>::empty(),
        ),
        s.phase == DownloadPhase::FetchArchive ==> download_step(
            s,
            DownloadEvent::ArchiveFetched(Ok(())),
        ) == (DownloadView { phase: DownloadPhase::Unpack, ..s }, Seq::<NoteView>::empty()),
        s.phase == DownloadPhase::Unpack ==> download_step(s, DownloadEvent::Unpacked(Ok(true)))
            == (DownloadView { phase: DownloadPhase::Rename, ..s }, Seq::<NoteView>::empty()),
        s.phase == DownloadPhase::Rename ==> download_step(s, DownloadEvent::Renamed(Ok(()))) == (
            DownloadView { phase: DownloadPhase::Clean, ..s },
            Seq::<NoteView>::empty(),
        ),
        s.phase == DownloadPhase::Clean ==> {
            let (next, notes) = download_step(s, DownloadEvent::Cleaned);
            next.phase == DownloadPhase::Done && next.outcome is Ok && notes.len() == 0
        },
{
}

/// A step that fails ends the download with its error, without a word.
pub proof fn lemma_download_fails(s: DownloadView, why: Seq<char>)
    ensures
        s.phase == DownloadPhase::MakeDir ==> download_fails_with(
            s,
            DownloadEvent::DirMade(Err(why)),
            why,
        ),
        s.phase == DownloadPhase::FetchArchive ==> download_fails_with(
            s,
            DownloadEvent::ArchiveFetched(Err(why)),
            why,
        ),
        s.phase == DownloadPhase::Unpack ==> download_fails_with(
            s,
            DownloadEvent::Unpacked(Err(why)),
            why,
        ) && download_fails_with(s, DownloadEvent::Unpacked(Ok(false)), "解压 Node 失败"@),
        s.phase == DownloadPhase::Rename ==> download_fails_with(
            s,
            DownloadEvent::Renamed(Err(why)),
            why,
        ),
{
}

/// On this result the download ends with this error and says nothing.
pub open spec fn download_fails_with(
    s: DownloadView,
    event: DownloadEvent,
    why: Seq<char>,
) -> bool {
    let (next, notes) = download_step(s, event);
    next.phase == DownloadPhase::Done && next.outcome == Err::<(), Seq<char>>(why) && notes.len()
        == 0
}

/// A result keeps whether the command succeeded, and its error.
pub proof fn lemma_success_result_is_kept(success: bool, why: String)
    ensures
        success_result(Ok(success)) == Ok::<bool, Seq<char>>(success),
        success_result(Err(why)) == Err::<bool, Seq<char>>(why@),
{
}

} // verus!
