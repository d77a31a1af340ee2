//! The pid file of `dsh web`, by which a child that outlived a force-quit is found
//! and killed at the next start.
use vstd::prelude::*;
use vstd::string::*;

use crate::command::CommandLine;
use crate::os::OsText;
use crate::{command, os, text};

verus! {

/// What the pid file of a child holds.
pub open spec fn pid_line_of(pid: u32) -> Seq<char> {
    text::decimal(pid as nat) + "\n"@
}

/// What the pid file of a child holds.
pub fn pid_line(pid: u32) -> (r: String)
    ensures
        r@ == pid_line_of(pid),
{
    text::decimal_text(pid as u64).concat("\n")
}

/// The process that a pid file names: a number with white space round it, other
/// than the number of this process.
pub open spec fn stale_pid_of(contents: Option<Seq<char>>, own: u32) -> Option<u32> {
    match contents {
        Some(written) => match text::parsed_u32(text::trim(written)) {
            Some(pid) => if pid == own {
                None
            } else {
                Some(pid)
            },
            None => None,
        },
        None => None,
    }
}

/// The process that a pid file names, if it can be read and names one other than
/// this one.
pub fn stale_pid(contents: Option<String>, own: u32) -> (r: Option<u32>)
    ensures
        r == stale_pid_of(contents.deep_view(), own),
        r != Some(own),
{
    match contents {
        Some(written) => match text::parse_u32(text::trim_text(written.as_str()).as_str()) {
            Some(pid) => if pid == own {
                None
            } else {
                Some(pid)
            },
            None => None,
        },
        None => None,
    }
}

/// The command that sends a signal to a process.
pub open spec fn kill_command_of(signal: Seq<char>, pid: u32) -> command::CommandView {
    command::plain_command(
        os::utf8("kill"@),
        seq![os::utf8(signal), os::utf8(text::decimal(pid as nat))],
    )
}

fn kill_command(signal: &str, pid: u32) -> (r: CommandLine)
    ensures
        r@ == kill_command_of(signal@, pid),
{
    let number = text::decimal_text(pid as u64);
    let args: Vec<OsText> = vec![OsText::of(signal), OsText::of(number.as_str())];
    assert(args.deep_view() =~= seq![os::utf8(signal@), os::utf8(text::decimal(pid as nat))]);
    CommandLine::plain(OsText::of("kill"), args)
}

/// The command that succeeds where the process is still alive.
pub fn alive_command(pid: u32) -> (r: CommandLine)
    ensures
        r@ == kill_command_of("-0"@, pid),
{
    kill_command("-0", pid)
}

/// Something that is done about the process that a pid file names.
#[derive(Debug)]
pub enum ReapAct {
    /// Write a line to the log.
    Log(String),
    /// Run a command, whatever it comes to.
    Run(CommandLine),
    /// Remove the pid file.
    RemovePidFile,
}

/// Something that is done about a process, with its texts as sequences.
#[verifier::ext_equal]
pub enum ReapActView {
    Log(Seq<char>),
    Run(command::CommandView),
    RemovePidFile,
}

impl DeepView for ReapAct {
    type V = ReapActView;

    open spec fn deep_view(&self) -> ReapActView {
        match self {
            ReapAct::Log(line) => ReapActView::Log(line@),
            ReapAct::Run(cmd) => ReapActView::Run(cmd@),
            ReapAct::RemovePidFile => ReapActView::RemovePidFile,
        }
    }
}

/// What is done about the process that a pid file names: it is killed where it is
/// still alive, and the pid file is removed in any case.
pub open spec fn reaping_of(pid: u32, alive: bool) -> Seq<ReapActView> {
    if alive {
        seq![
            ReapActView::Log("reaping stale dsh pid "@ + text::decimal(pid as nat)),
            ReapActView::Run(kill_command_of("-9"@, pid)),
            ReapActView::RemovePidFile,
        ]
    } else {
        seq![ReapActView::RemovePidFile]
    }
}

/// What is done about the process that a pid file names.
pub fn reaping(pid: u32, alive: bool) -> (r: Vec<ReapAct>)
    ensures
        r.deep_view() == reaping_of(pid, alive),
{
    let mut acts: Vec<ReapAct> = Vec::new();
    if alive {
        let line = "reaping stale dsh pid ".to_owned().concat(
            text::decimal_text(pid as u64).as_str(),
        );
        acts.push(ReapAct::Log(line));
        acts.push(ReapAct::Run(kill_command("-9", pid)));
    }
    acts.push(ReapAct::RemovePidFile);
    assert(acts.deep_view() =~= reaping_of(pid, alive));
    acts
}

/// The pid file that one process leaves behind names its child to every other
/// process.
pub proof fn lemma_pid_file_names_child(child: u32, reader: u32)
    requires
        child != reader,
    ensures
        stale_pid_of(Some(pid_line_of(child)), reader) == Some(child),
{
    reveal_strlit("\n");
    assert("\n"@ =~= seq!['\n']);
    text::lemma_number_line_reads_back(child);
}

/// The pid file holds the number of the child on a line of its own.
pub proof fn lemma_pid_line(pid: u32)
    ensures
        pid_line_of(pid) == text::decimal(pid as nat) + "\n"@,
{
}

/// A pid file names a process exactly where it holds a number, with or without white
/// space round it, that is not the number of this process.
pub proof fn lemma_what_a_pid_file_names(
    left: Seq<char>,
    number: Seq<char>,
    right: Seq<char>,
    own: u32,
)
    requires
        text::blank(left),
        text::blank(right),
        text::trimmed(number),
    ensures
        stale_pid_of(None, own) is None,
        stale_pid_of(Some(left), own) is None,
        number.len() > 0 ==> stale_pid_of(Some(left + number + right), own) == (
        match text::parsed_u32(number) {
            Some(pid) => if pid != own {
                Some(pid)
            } else {
                None
            },
            None => None,
        }),
{
    text::lemma_trim_of_blank(left);
    text::lemma_numbers_that_are_read(Seq::empty());
    assert(text::all_digits(Seq::<char>::empty()));
    if number.len() > 0 {
        text::lemma_trim_of_padded(left, number, right);
    }
}

/// A signal is sent to exactly the process of that number.
pub proof fn lemma_kill_command(signal: Seq<char>, pid: u32)
    ensures
        kill_command_of(signal, pid).program == os::utf8("kill"@),
        kill_command_of(signal, pid).args.len() == 2,
        kill_command_of(signal, pid).args[0] == os::utf8(signal),
        kill_command_of(signal, pid).args[1] == os::utf8(text::decimal(pid as nat)),
        kill_command_of(signal, pid).env.len() == 0,
        kill_command_of(signal, pid).cwd is None,
{
}

/// A process that is alive is named in the log and killed; whether it was alive or not,
/// the pid file goes last.
pub proof fn lemma_reaping(pid: u32)
    ensures
        reaping_of(pid, true).len() == 3,
        reaping_of(pid, true)[0] == ReapActView::Log(
            "reaping stale dsh pid "@ + text::decimal(pid as nat),
        ),
        reaping_of(pid, true)[1] == ReapActView::Run(kill_command_of("-9"@, pid)),
        reaping_of(pid, true)[2] is RemovePidFile,
        reaping_of(pid, false).len() == 1,
        reaping_of(pid, false)[0] is RemovePidFile,
{
}

/// The view of an act holds all that the act holds.
pub proof fn lemma_reap_act_view(line: String, cmd: CommandLine)
    ensures
        ReapAct::Log(line).deep_view() == ReapActView::Log(line@),
        ReapAct::Run(cmd).deep_view() == ReapActView::Run(cmd@),
        ReapAct::RemovePidFile.deep_view() is RemovePidFile,
{
}

} // verus!
