//! Child processes, described before they are started.
use vstd::prelude::*;

use crate::os::OsText;

verus! {

/// What a standard stream of a child process is connected to.
#[derive(Debug, Clone, Copy, PartialEq, Eq, Structural)]
pub enum Stream {
    /// Whatever the way of starting the child gives it.
    Unset,
    /// Nothing.
    Null,
    /// A pipe to this process.
    Piped,
}

/// An environment variable that a child process is given.
#[derive(Debug)]
pub struct EnvVar {
    pub name: String,
    pub value: OsText,
}

impl DeepView for EnvVar {
    type V = (Seq<char>, Seq<u8>);

    open spec fn deep_view(&self) -> (Seq<char>, Seq<u8>) {
        (self.name@, self.value@)
    }
}

/// A program with its arguments, the variables that it is given besides those of
/// this process, its working directory where it is not that of this process, and
/// its streams.
#[derive(Debug)]
pub struct CommandLine {
    pub program: OsText,
    pub args: Vec<OsText>,
    pub env: Vec<EnvVar>,
    pub cwd: Option<OsText>,
    pub stdin: Stream,
    pub stdout: Stream,
    pub stderr: Stream,
}

/// A command line, with its texts as sequences.
#[verifier::ext_equal]
pub struct CommandView {
    pub program: Seq<u8>,
    pub args: Seq<Seq<u8>>,
    pub env: Seq<(Seq<char>, Seq<u8>)>,
    pub cwd: Option<Seq<u8>>,
    pub stdin: Stream,
    pub stdout: Stream,
    pub stderr: Stream,
}

impl View for CommandLine {
    type V = CommandView;

    open spec fn view(&self) -> CommandView {
        CommandView {
            program: self.program@,
            args: self.args.deep_view(),
            env: self.env.deep_view(),
            cwd: self.cwd.deep_view(),
            stdin: self.stdin,
            stdout: self.stdout,
            stderr: self.stderr,
        }
    }
}

/// A program with its arguments and nothing else set.
pub open spec fn plain_command(program: Seq<u8>, args: Seq<Seq<u8>>) -> CommandView {
    CommandView {
        program,
        args,
        env: Seq::empty(),
        cwd: None,
        stdin: Stream::Unset,
        stdout: Stream::Unset,
        stderr: Stream::Unset,
    }
}

impl CommandLine {
    /// A program with its arguments and nothing else set.
    pub fn plain(program: OsText, args: Vec<OsText>) -> (r: CommandLine)
        ensures
            r@ == plain_command(program@, args.deep_view()),
    {
        let env: Vec<EnvVar> = Vec::new();
        assert(env.deep_view() =~= Seq::<(Seq<char>, Seq<u8>)>::empty());
        CommandLine {
            program,
            args,
            env,
            cwd: None,
            stdin: Stream::Unset,
            stdout: Stream::Unset,
            stderr: Stream::Unset,
        }
    }
}

/// The view of a command line holds all that the command line holds.
pub proof fn lemma_command_view(cmd: CommandLine, i: int)
    ensures
        cmd@.program == cmd.program.bytes@,
        cmd@.args.len() == cmd.args@.len(),
        0 <= i < cmd.args@.len() ==> cmd@.args[i] == cmd.args@[i].bytes@,
        cmd@.env.len() == cmd.env@.len(),
        0 <= i < cmd.env@.len() ==> cmd@.env[i].0 == cmd.env@[i].name@ && cmd@.env[i].1
            == cmd.env@[i].value.bytes@,
        cmd.cwd is None ==> cmd@.cwd is None,
        cmd.cwd matches Some(dir) ==> cmd@.cwd == Some(dir.bytes@),
        cmd@.stdin == cmd.stdin,
        cmd@.stdout == cmd.stdout,
        cmd@.stderr == cmd.stderr,
{
}

/// A plain command is its program and its arguments, and changes nothing else.
pub proof fn lemma_plain_command(program: Seq<u8>, args: Seq<Seq<u8>>)
    ensures
        plain_command(program, args).program == program,
        plain_command(program, args).args == args,
        plain_command(program, args).env.len() == 0,
        plain_command(program, args).cwd is None,
        plain_command(program, args).stdin == Stream::Unset,
        plain_command(program, args).stdout == Stream::Unset,
        plain_command(program, args).stderr == Stream::Unset,
{
}

} // verus!
