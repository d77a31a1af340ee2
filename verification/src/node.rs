//! The search for a working Node binary. The phase tells which outside work comes
//! next; its result is handed back by the method named after it.
use vstd::prelude::*;
use vstd::string::*;

use crate::os::OsText;
use crate::runtime::Runtime;
use crate::{os, runtime, text};

verus! {

/// The paths at which a program may lie, in the order of the search path.
pub open spec fn candidates_of(path_var: Option<Seq<u8>>, bin: Seq<char>) -> Seq<Seq<u8>> {
    match path_var {
        Some(dirs) => Seq::new(
            os::split_dirs(dirs).len(),
            |i: int| runtime::below(os::split_dirs(dirs)[i], bin),
        ),
        None => Seq::empty(),
    }
}

/// The lookup of a program in the search path.
#[derive(Debug)]
pub struct Which {
    candidates: Vec<OsText>,
    next: usize,
}

/// A lookup, with its candidates as sequences.
#[verifier::ext_equal]
pub struct WhichView {
    pub candidates: Seq<Seq<u8>>,
    pub next: int,
}

impl View for Which {
    type V = WhichView;

    closed spec fn view(&self) -> WhichView {
        WhichView { candidates: self.candidates.deep_view(), next: self.next as int }
    }
}

/// The candidate that is to be looked at.
pub open spec fn which_candidate(s: WhichView) -> Option<Seq<u8>> {
    if 0 <= s.next < s.candidates.len() {
        Some(s.candidates[s.next])
    } else {
        None
    }
}

impl Which {
    /// The lookup of `bin` in the directories of `path_var`.
    pub fn new(path_var: Option<OsText>, bin: &str) -> (r: Which)
        ensures
            r@ == (WhichView { candidates: candidates_of(path_var.deep_view(), bin@), next: 0 }),
    {
        let mut candidates: Vec<OsText> = Vec::new();
        if let Some(value) = path_var {
            let dirs: Vec<OsText> = os::split_search_path(&value);
            let ghost split = dirs.deep_view();
            let mut i: usize = 0;
            while i < dirs.len()
                invariant
                    i <= dirs@.len(),
                    split == dirs.deep_view(),
                    candidates.deep_view() == Seq::new(
                        i as nat,
                        |j: int| runtime::below(split[j], bin@),
                    ),
                decreases dirs@.len() - i,
            {
                let ghost before = candidates.deep_view();
                let candidate = dirs[i].join_str(bin);
                candidates.push(candidate);
                assert(candidates.deep_view() =~= before.push(candidate@));
                assert(split[i as int] == dirs@[i as int]@);
                i += 1;
            }
        }
        assert(candidates.deep_view() =~= candidates_of(path_var.deep_view(), bin@));
        Which { candidates, next: 0 }
    }

    /// The candidate that is to be looked at; `None` where none is left.
    pub fn candidate(&self) -> (r: Option<OsText>)
        ensures
            r.deep_view() == which_candidate(self@),
    {
        if self.next < self.candidates.len() {
            Some(self.candidates[self.next].clone())
        } else {
            None
        }
    }

    /// The candidate is a file, and so the one looked for, or it is not.
    pub fn probed(&mut self, is_file: bool) -> (r: Option<OsText>)
        requires
            which_candidate(old(self)@) is Some,
        ensures
            r.deep_view() == if is_file {
                which_candidate(old(self)@)
            } else {
                None
            },
            final(self)@ == if is_file {
                old(self)@
            } else {
                WhichView { next: old(self)@.next + 1, ..old(self)@ }
            },
    {
        if is_file {
            self.candidate()
        } else {
            let count: usize = self.candidates.len();
            assert(self.next < count);
            self.next += 1;
            None
        }
    }
}

/// What a lookup comes to when it looks at each candidate in turn.
pub open spec fn which_run(s: WhichView, is_file: spec_fn(Seq<u8>) -> bool) -> Option<Seq<u8>>
    decreases s.candidates.len() - s.next,
{
    match which_candidate(s) {
        Some(path) => if is_file(path) {
            Some(path)
        } else {
            which_run(WhichView { next: s.next + 1, ..s }, is_file)
        },
        None => None,
    }
}

/// A lookup gives the first candidate that is a file, and none only where no
/// candidate is one.
pub proof fn lemma_which_finds_first(s: WhichView, is_file: spec_fn(Seq<u8>) -> bool)
    requires
        0 <= s.next,
    ensures
        match which_run(s, is_file) {
            Some(path) => exists|i: int|
                #![trigger s.candidates[i]]
                s.next <= i < s.candidates.len() && s.candidates[i] == path && is_file(path)
                    && forall|j: int| s.next <= j < i ==> !is_file(#[trigger] s.candidates[j]),
            None => forall|j: int|
                s.next <= j < s.candidates.len() ==> !is_file(#[trigger] s.candidates[j]),
        },
    decreases s.candidates.len() - s.next,
{
    if let Some(path) = which_candidate(s) {
        if is_file(path) {
            assert(s.candidates[s.next] == path);
        } else {
            let rest = WhichView { next: s.next + 1, ..s };
            lemma_which_finds_first(rest, is_file);
            if let Some(found) = which_run(rest, is_file) {
                let i = choose|i: int|
                    #![trigger rest.candidates[i]]
                    rest.next <= i < rest.candidates.len() && rest.candidates[i] == found
                        && is_file(found) && forall|j: int|
                        rest.next <= j < i ==> !is_file(#[trigger] rest.candidates[j]);
                assert(s.candidates[i] == found);
                assert forall|j: int| s.next <= j < i implies !is_file(
                    #[trigger] s.candidates[j],
                ) by {
                    if j > s.next {
                        assert(!is_file(rest.candidates[j]));
                    }
                }
            } else {
                assert forall|j: int| s.next <= j < s.candidates.len() implies !is_file(
                    #[trigger] s.candidates[j],
                ) by {
                    if j > s.next {
                        assert(!is_file(rest.candidates[j]));
                    }
                }
            }
        }
    }
}

/// The outside work that the search for Node waits for.
#[derive(Debug, Clone, Copy, PartialEq, Eq, Structural)]
pub enum NodePhase {
    /// See whether the chosen path is a file.
    ProbeChosen,
    /// See whether the bundled copy is a file.
    ProbeBundled,
    /// Look `node` up in the search path.
    LookUp,
    /// Download Node.
    Download,
    /// See whether the bundled copy is a file now.
    ProbeDownloaded,
    /// None: the outcome is known.
    Done,
}

/// The search for Node under way.
#[derive(Debug)]
pub struct NodeSearch {
    chosen: Option<OsText>,
    bundled: OsText,
    phase: NodePhase,
    outcome: Result<(OsText, bool), String>,
}

/// The search for Node under way, with its texts as sequences.
#[verifier::ext_equal]
pub struct NodeSearchView {
    pub chosen: Option<Seq<u8>>,
    pub bundled: Seq<u8>,
    pub phase: NodePhase,
    pub outcome: Result<(Seq<u8>, bool), Seq<char>>,
}

/// A Node binary, with whether its npm is the bundled one, or an error text; with
/// the texts as sequences.
pub open spec fn node_result(r: Result<(OsText, bool), String>) -> Result<
    (Seq<u8>, bool),
    Seq<char>,
> {
    match r {
        Ok((path, bundled)) => Ok((path@, bundled)),
        Err(e) => Err(e@),
    }
}

/// A result of outside work.
pub enum NodeEvent {
    Probed(bool),
    LookedUp(Option<Seq<u8>>),
    Downloaded(Result<(), Seq<char>>),
}

/// The start of a search: with the chosen path, if there is one.
pub open spec fn node_start(home: Seq<u8>, chosen: Option<Seq<u8>>) -> NodeSearchView {
    NodeSearchView {
        chosen,
        bundled: runtime::bundled_node_of(home),
        phase: if chosen is Some {
            NodePhase::ProbeChosen
        } else {
            NodePhase::ProbeBundled
        },
        outcome: Err(Seq::empty()),
    }
}

/// The path that is to be probed.
pub open spec fn node_probe_path(s: NodeSearchView) -> Seq<u8> {
    match (s.phase, s.chosen) {
        (NodePhase::ProbeChosen, Some(path)) => path,
        _ => s.bundled,
    }
}

/// What the search says before Node is downloaded.
pub open spec fn download_status() -> Seq<char> {
    "未找到 Node.js，正在下载官方 Node 发行版…"@
}

/// What the search does with a result: where it goes on, and what it says.
pub open spec fn node_step(s: NodeSearchView, event: NodeEvent) -> (
    NodeSearchView,
    Option<Seq<char>>,
) {
    let go_on = |phase: NodePhase| NodeSearchView { phase, ..s };
    let done = |outcome: Result<(Seq<u8>, bool), Seq<char>>|
        NodeSearchView { phase: NodePhase::Done, outcome, ..s };
    match (s.phase, event) {
        (NodePhase::ProbeChosen, NodeEvent::Probed(is_file)) => if is_file {
            (done(Ok((node_probe_path(s), false))), None)
        } else {
            (go_on(NodePhase::ProbeBundled), None)
        },
        (NodePhase::ProbeBundled, NodeEvent::Probed(is_file)) => if is_file {
            (done(Ok((s.bundled, true))), None)
        } else {
            (go_on(NodePhase::LookUp), None)
        },
        (NodePhase::LookUp, NodeEvent::LookedUp(Some(path))) => (done(Ok((path, false))), None),
        (NodePhase::LookUp, NodeEvent::LookedUp(None)) => (
            go_on(NodePhase::Download),
            Some(download_status()),
        ),
        (NodePhase::Download, NodeEvent::Downloaded(Ok(_))) => (
            go_on(NodePhase::ProbeDownloaded),
            None,
        ),
        (NodePhase::Download, NodeEvent::Downloaded(Err(e))) => (done(Err(e)), None),
        (NodePhase::ProbeDownloaded, NodeEvent::Probed(is_file)) => if is_file {
            (done(Ok((s.bundled, true))), None)
        } else {
            (done(Err("Node 下载完成但二进制缺失"@)), None)
        },
        _ => (s, None),
    }
}

/// The search waits for a path to be probed.
pub open spec fn node_probes(phase: NodePhase) -> bool {
    phase == NodePhase::ProbeChosen || phase == NodePhase::ProbeBundled || phase
        == NodePhase::ProbeDownloaded
}

impl View for NodeSearch {
    type V = NodeSearchView;

    closed spec fn view(&self) -> NodeSearchView {
        NodeSearchView {
            chosen: self.chosen.deep_view(),
            bundled: self.bundled@,
            phase: self.phase,
            outcome: node_result(self.outcome),
        }
    }
}

impl Runtime {
    /// Resolve a working Node binary: `chosen` (the value of `DSHCLIENT_NODE`), the
    /// bundled copy, the search path, or a fresh download.
    pub fn ensure_node(&self, chosen: Option<OsText>) -> (r: NodeSearch)
        ensures
            r@ == node_start(self.home(), chosen.deep_view()),
    {
        let phase = if chosen.is_some() {
            NodePhase::ProbeChosen
        } else {
            NodePhase::ProbeBundled
        };
        NodeSearch { chosen, bundled: self.bundled_node(), phase, outcome: Err(String::new()) }
    }
}

impl NodeSearch {
    /// The outside work that comes next.
    pub fn phase(&self) -> (r: NodePhase)
        ensures
            r == self@.phase,
    {
        self.phase
    }

    /// The path that is to be probed.
    pub fn probe_path(&self) -> (r: OsText)
        requires
            node_probes(self@.phase),
        ensures
            r@ == node_probe_path(self@),
    {
        match self.phase {
            NodePhase::ProbeChosen => match &self.chosen {
                Some(path) => path.clone(),
                None => self.bundled.clone(),
            },
            _ => self.bundled.clone(),
        }
    }

    /// The Node binary, and whether its npm comes from the bundle.
    pub fn outcome(self) -> (r: Result<(OsText, bool), String>)
        requires
            self@.phase == NodePhase::Done,
        ensures
            node_result(r) == self@.outcome,
    {
        self.outcome
    }

    /// The path is a file, or not.
    pub fn probed(&mut self, is_file: bool)
        requires
            node_probes(old(self)@.phase),
        ensures
            (final(self)@, None::<Seq<char>>) == node_step(old(self)@, NodeEvent::Probed(is_file)),
    {
        if is_file {
            let bundled = match self.phase {
                NodePhase::ProbeChosen => false,
                _ => true,
            };
            self.outcome = Ok((self.probe_path(), bundled));
            self.phase = NodePhase::Done;
        } else {
            match self.phase {
                NodePhase::ProbeChosen => {
                    self.phase = NodePhase::ProbeBundled;
                },
                NodePhase::ProbeBundled => {
                    self.phase = NodePhase::LookUp;
                },
                _ => {
                    self.outcome = Err("Node 下载完成但二进制缺失".to_owned());
                    self.phase = NodePhase::Done;
                },
            }
        }
    }

    /// `node` was found in the search path, or not. Returns the status to show.
    pub fn looked_up(&mut self, found: Option<OsText>) -> (r: Option<String>)
        requires
            old(self)@.phase == NodePhase::LookUp,
        ensures
            (final(self)@, r.deep_view()) == node_step(
                old(self)@,
                NodeEvent::LookedUp(found.deep_view()),
            ),
    {
        match found {
            Some(path) => {
                self.outcome = Ok((path, false));
                self.phase = NodePhase::Done;
                None
            },
            None => {
                self.phase = NodePhase::Download;
                Some("未找到 Node.js，正在下载官方 Node 发行版…".to_owned())
            },
        }
    }

    /// Node was downloaded, or not.
    pub fn downloaded(&mut self, result: Result<(), String>)
        requires
            old(self)@.phase == NodePhase::Download,
        ensures
            (final(self)@, None::<Seq<char>>) == node_step(
                old(self)@,
                NodeEvent::Downloaded(text::unit_result(result)),
            ),
    {
        match result {
            Ok(_) => {
                self.phase = NodePhase::ProbeDownloaded;
            },
            Err(e) => {
                self.outcome = Err(e);
                self.phase = NodePhase::Done;
            },
        }
    }
}

/// How all the outside work of a search would turn out.
pub struct NodeWorld {
    pub is_file: spec_fn(Seq<u8>) -> bool,
    pub on_path: Option<Seq<u8>>,
    pub downloaded: Result<(), Seq<char>>,
    pub is_file_then: bool,
}

/// The result of the outside work that comes next.
pub open spec fn node_answer(s: NodeSearchView, world: NodeWorld) -> NodeEvent {
    match s.phase {
        NodePhase::LookUp => NodeEvent::LookedUp(world.on_path),
        NodePhase::Download => NodeEvent::Downloaded(world.downloaded),
        NodePhase::ProbeDownloaded => NodeEvent::Probed(world.is_file_then),
        _ => NodeEvent::Probed((world.is_file)(node_probe_path(s))),
    }
}

/// A search carried on for `n` results, with all that it says.
pub open spec fn node_run(s: NodeSearchView, world: NodeWorld, n: nat) -> (
    NodeSearchView,
    Seq<Seq<char>>,
)
    decreases n,
{
    if n == 0 || s.phase == NodePhase::Done {
        (s, Seq::empty())
    } else {
        let (next, status) = node_step(s, node_answer(s, world));
        let (last, rest) = node_run(next, world, (n - 1) as nat);
        (
            last,
            match status {
                Some(said) => seq![said] + rest,
                None => rest,
            },
        )
    }
}

/// The search finds no Node and has to download one.
pub open spec fn node_downloads(
    home: Seq<u8>,
    chosen: Option<Seq<u8>>,
    world: NodeWorld,
) -> bool {
    &&& chosen matches Some(path) ==> !(world.is_file)(path)
    &&& !(world.is_file)(runtime::bundled_node_of(home))
    &&& world.on_path is None
}

/// A search ends after at most five results. The chosen path comes first, if it is
/// a file; then the bundled copy; then the search path; and only where all three
/// fail is Node downloaded, which must leave a bundled copy. It says something only
/// before a download.
pub proof fn lemma_node_outcome(home: Seq<u8>, chosen: Option<Seq<u8>>, world: NodeWorld)
    ensures
        ({
            let (last, said) = node_run(node_start(home, chosen), world, 5);
            let bundled = runtime::bundled_node_of(home);
            &&& last.phase == NodePhase::Done
            &&& last.outcome == if chosen is Some && (world.is_file)(chosen->0) {
                Ok((chosen->0, false))
            } else if (world.is_file)(bundled) {
                Ok((bundled, true))
            } else if world.on_path is Some {
                Ok((world.on_path->0, false))
            } else if world.downloaded is Err {
                Err(world.downloaded->Err_0)
            } else if world.is_file_then {
                Ok((bundled, true))
            } else {
                Err("Node 下载完成但二进制缺失"@)
            }
            &&& said == if node_downloads(home, chosen, world) {
                seq![download_status()]
            } else {
                Seq::empty()
            }
        }),
{
    reveal_with_fuel(node_run, 6);
    let (last, said) = node_run(node_start(home, chosen), world, 5);
    if node_downloads(home, chosen, world) {
        assert(said =~= seq![download_status()]);
    }
}

/// The first file of the name `node` in the directories of a search path.
pub open spec fn node_on_path(
    path_var: Option<Seq<u8>>,
    is_file: spec_fn(Seq<u8>) -> bool,
) -> Option<Seq<u8>> {
    which_run(WhichView { candidates: candidates_of(path_var, "node"@), next: 0 }, is_file)
}

/// Which files there are has not changed since a search in `world`. Where that
/// search downloaded Node, the bundled copy is as the download left it, and the
/// download has not made a file of the chosen path.
pub open spec fn files_stay(
    home: Seq<u8>,
    chosen: Option<Seq<u8>>,
    world: NodeWorld,
    later: NodeWorld,
) -> bool {
    if node_downloads(home, chosen, world) {
        &&& (later.is_file)(runtime::bundled_node_of(home)) == world.is_file_then
        &&& chosen matches Some(path) ==> !(later.is_file)(path)
    } else {
        forall|path: Seq<u8>| #[trigger] (later.is_file)(path) == (world.is_file)(path)
    }
}

/// Where a search found Node, and neither the environment nor the files have changed
/// since, another search gives the same binary, which is a file, and says nothing.
pub proof fn lemma_node_search_repeats(
    home: Seq<u8>,
    chosen: Option<Seq<u8>>,
    path_var: Option<Seq<u8>>,
    world: NodeWorld,
    later: NodeWorld,
)
    requires
        world.on_path == node_on_path(path_var, world.is_file),
        later.on_path == node_on_path(path_var, later.is_file),
        node_run(node_start(home, chosen), world, 5).0.outcome is Ok,
        files_stay(home, chosen, world, later),
    ensures
        ({
            let first = node_run(node_start(home, chosen), world, 5).0;
            let (second, said) = node_run(node_start(home, chosen), later, 5);
            &&& second.phase == NodePhase::Done
            &&& second.outcome == first.outcome
            &&& said == Seq::<Seq<char>>::empty()
            &&& (later.is_file)(first.outcome->Ok_0.0)
            &&& first.outcome->Ok_0.1 ==> first.outcome->Ok_0.0 == runtime::bundled_node_of(home)
        }),
{
    lemma_node_outcome(home, chosen, world);
    lemma_node_outcome(home, chosen, later);
    if !node_downloads(home, chosen, world) {
        assert(later.is_file =~= world.is_file);
        lemma_which_finds_first(
            WhichView { candidates: candidates_of(path_var, "node"@), next: 0 },
            world.is_file,
        );
    }
}

/// The npm of the bundle is used with the bundled Node and with no other.
pub proof fn lemma_bundled_npm_goes_with_bundled_node(
    home: Seq<u8>,
    chosen: Option<Seq<u8>>,
    world: NodeWorld,
)
    ensures
        node_run(node_start(home, chosen), world, 5).0.outcome matches Ok(found) ==> (found.1
            ==> found.0 == runtime::bundled_node_of(home)),
{
    lemma_node_outcome(home, chosen, world);
}

/// A program is looked for in every directory of the search path, in order, and
/// nowhere where there is no search path.
pub proof fn lemma_candidates_in_order(dirs: Seq<u8>, bin: Seq<char>, i: int)
    ensures
        candidates_of(None, bin).len() == 0,
        candidates_of(Some(dirs), bin).len() == os::split_dirs(dirs).len(),
        0 <= i < os::split_dirs(dirs).len() ==> candidates_of(Some(dirs), bin)[i]
            == runtime::below(os::split_dirs(dirs)[i], bin),
{
}

/// A lookup offers the candidate that is next, and none when all have been looked at.
pub proof fn lemma_candidate_that_is_next(s: WhichView)
    ensures
        0 <= s.next < s.candidates.len() ==> which_candidate(s) == Some(s.candidates[s.next]),
        s.next >= s.candidates.len() ==> which_candidate(s) is None,
{
}

/// A search starts with the chosen path, where one is chosen, and else with the bundled
/// copy. That is also what it probes first.
pub proof fn lemma_search_starts_with_the_choice(
    home: Seq<u8>,
    path: Seq<u8>,
    chosen: Option<Seq<u8>>,
)
    ensures
        node_start(home, Some(path)).phase == NodePhase::ProbeChosen,
        node_probe_path(node_start(home, Some(path))) == path,
        node_start(home, None).phase == NodePhase::ProbeBundled,
        node_probe_path(node_start(home, None)) == runtime::below(home, "runtime/node/bin/node"@),
        node_start(home, chosen).chosen == chosen,
        node_start(home, chosen).bundled == runtime::below(home, "runtime/node/bin/node"@),
{
    assert(runtime::bundled_node_of(home) == runtime::below(home, "runtime/node/bin/node"@)) by {
        runtime::lemma_layout(home);
    }
}

/// The chosen path is probed in its own phase; in every other phase it is the bundled
/// copy.
pub proof fn lemma_what_is_probed(s: NodeSearchView)
    ensures
        s.phase == NodePhase::ProbeChosen && s.chosen is Some ==> node_probe_path(s)
            == s.chosen->0,
        s.phase != NodePhase::ProbeChosen ==> node_probe_path(s) == s.bundled,
        node_probes(s.phase) <==> (s.phase == NodePhase::ProbeChosen || s.phase
            == NodePhase::ProbeBundled || s.phase == NodePhase::ProbeDownloaded),
{
}

/// A path that is a file ends the search: the chosen one with the npm of the search
/// path, the bundled copy with its own npm. A search says nothing then.
pub proof fn lemma_file_ends_the_search(s: NodeSearchView)
    requires
        s.phase == NodePhase::ProbeChosen || s.phase == NodePhase::ProbeBundled || s.phase
            == NodePhase::ProbeDownloaded,
        s.phase == NodePhase::ProbeChosen ==> s.chosen is Some,
    ensures
        ({
            let (next, said) = node_step(s, NodeEvent::Probed(true));
            &&& next.phase == NodePhase::Done
            &&& said is None
            &&& s.phase == NodePhase::ProbeChosen ==> next.outcome == Ok::<
                (Seq<u8>, bool),
                Seq<char>,
            >((s.chosen->0, false))
            &&& s.phase != NodePhase::ProbeChosen ==> next.outcome == Ok::<
                (Seq<u8>, bool),
                Seq<char>,
            >((s.bundled, true))
        }),
{
}

/// Where a path is no file the search goes on to the next place, quietly: from the
/// chosen path to the bundled copy, and from that to the search path. After a download
/// there is no other place.
pub proof fn lemma_missing_file_goes_on(s: NodeSearchView)
    ensures
        s.phase == NodePhase::ProbeChosen ==> node_step(s, NodeEvent::Probed(false)) == (
            NodeSearchView { phase: NodePhase::ProbeBundled, ..s },
            None::<Seq<char>>,
        ),
        s.phase == NodePhase::ProbeBundled ==> node_step(s, NodeEvent::Probed(false)) == (
            NodeSearchView { phase: NodePhase::LookUp, ..s },
            None::<Seq<char>>,
        ),
        s.phase == NodePhase::ProbeDownloaded ==> node_step(s, NodeEvent::Probed(false)) == (
            NodeSearchView {
                phase: NodePhase::Done,
                outcome: Err("Node 下载完成但二进制缺失"@),
                ..s
            },
            None::<Seq<char>>,
        ),
{
}

/// A Node of the search path ends the search quietly. Only where there is none is the
/// user told and Node downloaded; the download is then probed, or gives its error.
pub proof fn lemma_download_only_when_missing(s: NodeSearchView, path: Seq<u8>, why: Seq<char>)
    ensures
        s.phase == NodePhase::LookUp ==> node_step(s, NodeEvent::LookedUp(Some(path))) == (
            NodeSearchView { phase: NodePhase::Done, outcome: Ok((path, false)), ..s },
            None::<Seq<char>>,
        ),
        s.phase == NodePhase::LookUp ==> node_step(s, NodeEvent::LookedUp(None)) == (
            NodeSearchView { phase: NodePhase::Download, ..s },
            Some("未找到 Node.js，正在下载官方 Node 发行版…"@),
        ),
        s.phase == NodePhase::Download ==> node_step(s, NodeEvent::Downloaded(Ok(()))) == (
            NodeSearchView { phase: NodePhase::ProbeDownloaded, ..s },
            None::<Seq<char>>,
        ),
        s.phase == NodePhase::Download ==> node_step(s, NodeEvent::Downloaded(Err(why))) == (
            NodeSearchView { phase: NodePhase::Done, outcome: Err(why), ..s },
            None::<Seq<char>>,
        ),
{
}

/// A result keeps the binary, whether its npm is the bundled one, and the error.
pub proof fn lemma_node_result_is_kept(path: OsText, bundled: bool, why: String)
    ensures
        node_result(Ok((path, bundled))) == Ok::<(Seq<u8>, bool), Seq<char>>(
            (path.bytes@, bundled),
        ),
        node_result(Err(why)) == Err::<(Seq<u8>, bool), Seq<char>>(why@),
{
}

} // verus!
