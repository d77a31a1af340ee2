//! The installation of the official dsh package, pinned exactly, into the runtime
//! directory. The phase tells which outside work comes next; its result is handed
//! back by the method named after it.
use vstd::prelude::*;
use vstd::string::*;
use vstd::utf8::*;

use crate::messages::{Note, NoteView};
use crate::npm::Finished;
use crate::runtime::Runtime;
use crate::{npm, os, runtime, text};

verus! {

/// What a fresh `package.json` of the runtime directory holds.
pub const FRESH_MANIFEST: &'static str = "{\"name\":\"dsh-runtime\",\"private\":true}";

/// The outside work that an installation waits for.
#[derive(Debug, Clone, Copy, PartialEq, Eq, Structural)]
pub enum InstallPhase {
    /// Create the runtime directory and those above it.
    MakeDir,
    /// See whether the runtime directory has a `package.json`.
    FindManifest,
    /// Write `FRESH_MANIFEST` as its `package.json`.
    WriteManifest,
    /// Run npm with the arguments of the installation.
    RunNpm,
    /// None: the outcome is known.
    Done,
}

/// An installation under way.
#[derive(Debug)]
pub struct InstallDsh {
    version: String,
    phase: InstallPhase,
    outcome: Result<(), String>,
}

/// An installation under way, with its texts as sequences.
#[verifier::ext_equal]
pub struct InstallView {
    pub version: Seq<char>,
    pub phase: InstallPhase,
    pub outcome: Result<(), Seq<char>>,
}

/// A result of outside work.
pub enum InstallEvent {
    DirMade(Result<(), Seq<char>>),
    ManifestFound(bool),
    ManifestWritten(Result<(), Seq<char>>),
    NpmRan(Result<(bool, Seq<u8>), Seq<char>>),
}

/// The start of an installation of `version`.
pub open spec fn install_start(version: Seq<char>) -> InstallView {
    InstallView { version, phase: InstallPhase::MakeDir, outcome: Ok(()) }
}

/// The line that the log gets before npm runs.
pub open spec fn install_note(version: Seq<char>) -> Seq<NoteView> {
    seq![NoteView::Log("npm install "@ + npm::package_spec_of(version))]
}

/// What an installation does with a result: where it goes on, and what it says.
pub open spec fn install_step(s: InstallView, event: InstallEvent) -> (
    InstallView,
    Seq<NoteView>,
) {
    let done = |outcome: Result<(), Seq<char>>|
        InstallView { phase: InstallPhase::Done, outcome, ..s };
    let run_npm = (InstallView { phase: InstallPhase::RunNpm, ..s }, install_note(s.version));
    match (s.phase, event) {
        (InstallPhase::MakeDir, InstallEvent::DirMade(Ok(_))) => (
            InstallView { phase: InstallPhase::FindManifest, ..s },
            Seq::empty(),
        ),
        (InstallPhase::MakeDir, InstallEvent::DirMade(Err(e))) => (done(Err(e)), Seq::empty()),
        (InstallPhase::FindManifest, InstallEvent::ManifestFound(found)) => if found {
            run_npm
        } else {
            (InstallView { phase: InstallPhase::WriteManifest, ..s }, Seq::empty())
        },
        (InstallPhase::WriteManifest, InstallEvent::ManifestWritten(Ok(_))) => run_npm,
        (InstallPhase::WriteManifest, InstallEvent::ManifestWritten(Err(e))) => (
            done(Err(e)),
            Seq::empty(),
        ),
        (InstallPhase::RunNpm, InstallEvent::NpmRan(ran)) => (
            done(npm::install_result_of(ran)),
            Seq::empty(),
        ),
        _ => (s, Seq::empty()),
    }
}

impl View for InstallDsh {
    type V = InstallView;

    closed spec fn view(&self) -> InstallView {
        InstallView {
            version: self.version@,
            phase: self.phase,
            outcome: text::unit_result(self.outcome),
        }
    }
}

impl Runtime {
    /// Install the official dsh package at a dist-tag or version.
    pub fn install_dsh(&self, version: &str) -> (r: InstallDsh)
        ensures
            r@ == install_start(version@),
    {
        InstallDsh {
            version: version.to_owned(),
            phase: InstallPhase::MakeDir,
            outcome: Ok(()),
        }
    }
}

impl InstallDsh {
    /// The outside work that comes next.
    pub fn phase(&self) -> (r: InstallPhase)
        ensures
            r == self@.phase,
    {
        self.phase
    }

    /// The arguments that npm is run with.
    pub fn npm_args(&self, rt: &Runtime) -> (r: Vec<String>)
        ensures
            r.deep_view() == npm::install_args_of(
                os::utf8_lossy(runtime::runtime_dir_of(rt.home())),
                self@.version,
            ),
            valid_utf8(runtime::runtime_dir_of(rt.home())) ==> r.deep_view()
                == npm::install_args_of(
                decode_utf8(runtime::runtime_dir_of(rt.home())),
                self@.version,
            ),
    {
        rt.install_args(self.version.as_str())
    }

    /// What the installation came to.
    pub fn outcome(self) -> (r: Result<(), String>)
        requires
            self@.phase == InstallPhase::Done,
        ensures
            text::unit_result(r) == self@.outcome,
    {
        self.outcome
    }

    fn announce(&mut self) -> (r: Vec<Note>)
        ensures
            final(self)@ == (InstallView { phase: InstallPhase::RunNpm, ..old(self)@ }),
            r.deep_view() == install_note(old(self)@.version),
    {
        self.phase = InstallPhase::RunNpm;
        let line = "npm install ".to_owned().concat(
            npm::package_spec(self.version.as_str()).as_str(),
        );
        let r: Vec<Note> = vec![Note::Log(line)];
        assert(r.deep_view() =~= install_note(old(self)@.version));
        r
    }

    /// The runtime directory was created, or not.
    pub fn dir_made(&mut self, made: Result<(), String>)
        requires
            old(self)@.phase == InstallPhase::MakeDir,
        ensures
            (final(self)@, Seq::<NoteView>::empty()) == install_step(
                old(self)@,
                InstallEvent::DirMade(text::unit_result(made)),
            ),
    {
        match made {
            Ok(_) => {
                self.phase = InstallPhase::FindManifest;
            },
            Err(e) => {
                self.phase = InstallPhase::Done;
                self.outcome = Err(e);
            },
        }
    }

    /// The runtime directory has a `package.json`, or not.
    pub fn manifest_found(&mut self, found: bool) -> (r: Vec<Note>)
        requires
            old(self)@.phase == InstallPhase::FindManifest,
        ensures
            (final(self)@, r.deep_view()) == install_step(
                old(self)@,
                InstallEvent::ManifestFound(found),
            ),
    {
        if found {
            self.announce()
        } else {
            self.phase = InstallPhase::WriteManifest;
            let r: Vec<Note> = Vec::new();
            assert(r.deep_view() =~= Seq::<NoteView>::empty());
            r
        }
    }

    /// The `package.json` was written, or not.
    pub fn manifest_written(&mut self, written: Result<(), String>) -> (r: Vec<Note>)
        requires
            old(self)@.phase == InstallPhase::WriteManifest,
        ensures
            (final(self)@, r.deep_view()) == install_step(
                old(self)@,
                InstallEvent::ManifestWritten(text::unit_result(written)),
            ),
    {
        match written {
            Ok(_) => self.announce(),
            Err(e) => {
                self.phase = InstallPhase::Done;
                self.outcome = Err(e);
                let r: Vec<Note> = Vec::new();
                assert(r.deep_view() =~= Seq::<NoteView>::empty());
                r
            },
        }
    }

    /// npm ended, or could not be run.
    pub fn npm_ran(&mut self, ran: Result<Finished, String>)
        requires
            old(self)@.phase == InstallPhase::RunNpm,
        ensures
            (final(self)@, Seq::<NoteView>::empty()) == install_step(
                old(self)@,
                InstallEvent::NpmRan(npm::ran_view(ran)),
            ),
    {
        self.phase = InstallPhase::Done;
        self.outcome = npm::install_result(ran);
    }
}

/// How all the outside work of an installation would turn out.
pub struct InstallWorld {
    pub made: Result<(), Seq<char>>,
    pub found: bool,
    pub written: Result<(), Seq<char>>,
    pub ran: Result<(bool, Seq<u8>), Seq<char>>,
}

/// The result of the outside work that comes next.
pub open spec fn install_answer(phase: InstallPhase, world: InstallWorld) -> InstallEvent {
    match phase {
        InstallPhase::MakeDir => InstallEvent::DirMade(world.made),
        InstallPhase::FindManifest => InstallEvent::ManifestFound(world.found),
        InstallPhase::WriteManifest => InstallEvent::ManifestWritten(world.written),
        _ => InstallEvent::NpmRan(world.ran),
    }
}

/// An installation carried on for `n` results, with all that it says.
pub open spec fn install_run(s: InstallView, world: InstallWorld, n: nat) -> (
    InstallView,
    Seq<NoteView>,
)
    decreases n,
{
    if n == 0 || s.phase == InstallPhase::Done {
        (s, Seq::empty())
    } else {
        let (next, notes) = install_step(s, install_answer(s.phase, world));
        let (last, rest) = install_run(next, world, (n - 1) as nat);
        (last, notes + rest)
    }
}

/// npm runs: there is a directory with a `package.json` in it.
pub open spec fn install_reaches_npm(world: InstallWorld) -> bool {
    world.made is Ok && (world.found || world.written is Ok)
}

/// An installation ends after at most four results. It runs npm only in a
/// directory with a `package.json`, says so once in the log, and then comes to
/// what npm came to; else it gives the first error.
pub proof fn lemma_install_outcome(version: Seq<char>, world: InstallWorld)
    ensures
        ({
            let (last, notes) = install_run(install_start(version), world, 4);
            &&& last.phase == InstallPhase::Done
            &&& last.outcome == if install_reaches_npm(world) {
                npm::install_result_of(world.ran)
            } else if world.made is Err {
                world.made
            } else {
                world.written
            }
            &&& notes == if install_reaches_npm(world) {
                install_note(version)
            } else {
                Seq::empty()
            }
        }),
{
    reveal_with_fuel(install_run, 5);
    let (last, notes) = install_run(install_start(version), world, 4);
    assert(notes =~= if install_reaches_npm(world) {
        install_note(version)
    } else {
        Seq::empty()
    });
}

/// An installation starts with the directory, and keeps its version to the end.
pub proof fn lemma_install_keeps_its_version(
    version: Seq<char>,
    s: InstallView,
    event: InstallEvent,
)
    ensures
        install_start(version).version == version,
        install_start(version).phase == InstallPhase::MakeDir,
        install_step(s, event).0.version == s.version,
{
}

/// A step that succeeds leads to the next: the directory, the manifest where there is
/// none, then npm. npm is announced in the log with the package and its version, and
/// nothing else is said.
pub proof fn lemma_install_goes_on(s: InstallView)
    ensures
        s.phase == InstallPhase::MakeDir ==> install_step(s, InstallEvent::DirMade(Ok(()))) == (
            InstallView { phase: InstallPhase::FindManifest, ..s },
            Seq::<NoteView>::empty(),
        ),
        s.phase == InstallPhase::FindManifest ==> install_step(
            s,
            InstallEvent::ManifestFound(false),
        ) == (InstallView { phase: InstallPhase::WriteManifest, ..s }, Seq::<NoteView>::empty()),
        s.phase == InstallPhase::FindManifest ==> install_step(
            s,
            InstallEvent::ManifestFound(true),
        ) == (
            InstallView { phase: InstallPhase::RunNpm, ..s },
            seq![NoteView::Log("npm install @deepseek-ai/dsh@"@ + s.version)],
        ),
        s.phase == InstallPhase::WriteManifest ==> install_step(
            s,
            InstallEvent::ManifestWritten(Ok(())),
        ) == (
            InstallView { phase: InstallPhase::RunNpm, ..s },
            seq![NoteView::Log("npm install @deepseek-ai/dsh@"@ + s.version)],
        ),
{
    reveal_strlit("npm install ");
    reveal_strlit("@deepseek-ai/dsh@");
    reveal_strlit("npm install @deepseek-ai/dsh@");
    npm::lemma_install_arguments(Seq::empty(), s.version);
    assert("npm install "@ + ("@deepseek-ai/dsh@"@ + s.version)
        =~= "npm install @deepseek-ai/dsh@"@ + s.version);
}

/// A step that fails ends the installation with its error, and npm with what it came
/// to. Nothing is said then.
pub proof fn lemma_install_ends(
    s: InstallView,
    why: Seq<char>,
    stderr: Seq<u8>,
)
    ensures
        s.phase == InstallPhase::MakeDir ==> install_step(s, InstallEvent::DirMade(Err(why))) == (
            InstallView { phase: InstallPhase::Done, outcome: Err(why), ..s },
            Seq::<NoteView>::empty(),
        ),
        s.phase == InstallPhase::WriteManifest ==> install_step(
            s,
            InstallEvent::ManifestWritten(Err(why)),
        ) == (
            InstallView { phase: InstallPhase::Done, outcome: Err(why), ..s },
            Seq::<NoteView>::empty(),
        ),
        s.phase == InstallPhase::RunNpm ==> {
            let (good, good_notes) = install_step(s, InstallEvent::NpmRan(Ok((true, stderr))));
            let (bad, bad_notes) = install_step(s, InstallEvent::NpmRan(Ok((false, stderr))));
            let (none, no_notes) = install_step(s, InstallEvent::NpmRan(Err(why)));
            &&& good.phase == InstallPhase::Done && good.outcome is Ok && good_notes.len() == 0
            &&& bad.phase == InstallPhase::Done && bad.outcome == Err::<(), Seq<char>>(
                npm::install_failure_of(os::utf8_lossy(stderr)),
            ) && bad_notes.len() == 0
            &&& none.phase == InstallPhase::Done && none.outcome == Err::<(), Seq<char>>(why)
                && no_notes.len() == 0
        },
{
    npm::lemma_install_result(stderr, why);
}

} // verus!
