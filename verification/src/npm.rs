//! npm: the commands that are run, and what their results mean.
use vstd::prelude::*;
use vstd::string::*;
use vstd::utf8::*;

use crate::command::{CommandLine, CommandView, EnvVar, Stream};
use crate::os::OsText;
use crate::runtime::{Runtime, DSH_PKG};
use crate::{node, os, runtime, text};

verus! {

/// How long the npm registry may take to tell the latest version, in nanoseconds.
pub const LATEST_VERSION_TIMEOUT_NANOS: u128 = 25_000_000_000;

/// How long to wait before a running npm is looked at again, in milliseconds.
pub const NPM_POLL_MILLIS: u64 = 100;

/// A child process that has ended, with what it wrote.
#[derive(Debug)]
pub struct Finished {
    pub success: bool,
    pub stdout: Vec<u8>,
    pub stderr: Vec<u8>,
}

/// The search path that npm is given: the directory of the Node binary before the
/// directories of `path_var`. There is none where the binary has no directory or
/// its directory holds a colon.
pub open spec fn path_env(node: Seq<u8>, path_var: Option<Seq<u8>>) -> Seq<(Seq<char>, Seq<u8>)> {
    let current = match path_var {
        Some(dirs) => dirs,
        None => Seq::empty(),
    };
    match os::parent_of(node) {
        Some(dir) => match os::join_dirs(seq![dir] + os::split_dirs(current)) {
            Some(dirs) => seq![("PATH"@, dirs)],
            None => Seq::empty(),
        },
        None => Seq::empty(),
    }
}

/// The settings that keep npm quiet and within the home.
pub open spec fn npm_settings(home: Seq<u8>) -> Seq<(Seq<char>, Seq<u8>)> {
    seq![
        ("npm_config_loglevel"@, os::utf8("error"@)),
        ("npm_config_update_notifier"@, os::utf8("false"@)),
        ("npm_config_audit"@, os::utf8("false"@)),
        ("npm_config_fund"@, os::utf8("false"@)),
        ("npm_config_cache"@, runtime::cache_of(home)),
    ]
}

/// The npm command without its own arguments: the JS entry of the bundled npm run
/// by the bundled Node, or else the npm of the search path.
pub open spec fn npm_command_of(
    home: Seq<u8>,
    node: Seq<u8>,
    bundled: bool,
    npm_on_path: Option<Seq<u8>>,
    path_var: Option<Seq<u8>>,
) -> Result<CommandView, Seq<char>> {
    if !bundled && npm_on_path is None {
        Err("PATH 中找不到 npm"@)
    } else {
        Ok(
            CommandView {
                program: if bundled {
                    node
                } else {
                    npm_on_path->0
                },
                args: if bundled {
                    seq![runtime::npm_cli_of(home)]
                } else {
                    Seq::empty()
                },
                env: path_env(node, path_var) + npm_settings(home),
                cwd: None,
                stdin: Stream::Null,
                stdout: Stream::Piped,
                stderr: Stream::Piped,
            },
        )
    }
}

/// A command with more arguments.
pub open spec fn with_args(cmd: CommandView, args: Seq<Seq<char>>) -> CommandView {
    CommandView {
        args: cmd.args + Seq::new(args.len(), |i: int| os::utf8(args[i])),
        ..cmd
    }
}

/// A result that is a command or an error text, with its texts as sequences.
pub open spec fn command_result(r: Result<CommandLine, String>) -> Result<CommandView, Seq<char>> {
    match r {
        Ok(cmd) => Ok(cmd@),
        Err(e) => Err(e@),
    }
}

fn env_var(name: &str, value: OsText) -> (r: EnvVar)
    ensures
        r.deep_view() == (name@, value@),
{
    EnvVar { name: name.to_owned(), value }
}

/// The `PATH` that npm is given, if it is given one.
fn path_env_vars(node: &OsText, path_var: Option<OsText>) -> (r: Vec<EnvVar>)
    ensures
        r.deep_view() == path_env(node@, path_var.deep_view()),
{
    let mut env: Vec<EnvVar> = Vec::new();
    assert(env.deep_view() =~= Seq::<(Seq<char>, Seq<u8>)>::empty());
    if let Some(dir) = node.parent() {
        let current = match path_var {
            Some(dirs) => dirs,
            None => OsText { bytes: Vec::new() },
        };
        assert(path_var is None ==> current@ =~= Seq::<u8>::empty());
        let ghost first = dir@;
        let mut dirs: Vec<OsText> = vec![dir];
        let mut rest: Vec<OsText> = os::split_search_path(&current);
        let ghost tail = rest.deep_view();
        dirs.append(&mut rest);
        assert(dirs.deep_view() =~= seq![first] + tail);
        if let Some(joined) = os::join_search_path(&dirs) {
            env.push(env_var("PATH", joined));
            assert(env.deep_view() =~= seq![("PATH"@, joined@)]);
        }
    }
    env
}

impl Runtime {
    /// Build the base npm command with a hermetic environment. The directory of
    /// the Node binary is prepended to `PATH` so that lifecycle scripts of
    /// dependencies, which run a bare `node`, find it.
    pub fn npm_command(
        &self,
        node: &OsText,
        bundled: bool,
        npm_on_path: Option<OsText>,
        path_var: Option<OsText>,
    ) -> (r: Result<CommandLine, String>)
        ensures
            command_result(r) == npm_command_of(
                self.home(),
                node@,
                bundled,
                npm_on_path.deep_view(),
                path_var.deep_view(),
            ),
    {
        let mut args: Vec<OsText> = Vec::new();
        let program = if bundled {
            args.push(self.npm_cli());
            node.clone()
        } else {
            match npm_on_path {
                Some(npm) => npm,
                None => {
                    return Err("PATH 中找不到 npm".to_owned());
                },
            }
        };
        let mut env: Vec<EnvVar> = path_env_vars(node, path_var);
        let ghost before = env.deep_view();
        env.push(env_var("npm_config_loglevel", OsText::of("error")));
        env.push(env_var("npm_config_update_notifier", OsText::of("false")));
        env.push(env_var("npm_config_audit", OsText::of("false")));
        env.push(env_var("npm_config_fund", OsText::of("false")));
        env.push(env_var("npm_config_cache", self.cache_dir()));
        assert(env.deep_view() =~= before + npm_settings(self.home()));
        assert(args.deep_view() =~= if bundled {
            seq![runtime::npm_cli_of(self.home())]
        } else {
            Seq::empty()
        });
        Ok(
            CommandLine {
                program,
                args,
                env,
                cwd: None,
                stdin: Stream::Null,
                stdout: Stream::Piped,
                stderr: Stream::Piped,
            },
        )
    }

    /// The command that runs npm with `args`. When Node is bundled this drives
    /// npm's JS entry directly and never depends on an `npm` of the search path.
    pub fn npm(
        &self,
        node: &OsText,
        bundled: bool,
        args: &Vec<String>,
        npm_on_path: Option<OsText>,
        path_var: Option<OsText>,
    ) -> (r: Result<CommandLine, String>)
        ensures
            command_result(r) == match npm_command_of(
                self.home(),
                node@,
                bundled,
                npm_on_path.deep_view(),
                path_var.deep_view(),
            ) {
                Ok(cmd) => Ok(with_args(cmd, args.deep_view())),
                Err(e) => Err(e),
            },
    {
        match self.npm_command(node, bundled, npm_on_path, path_var) {
            Ok(mut cmd) => {
                let ghost base = cmd@;
                let mut all: Vec<OsText> = cmd.args;
                let ghost before = all.deep_view();
                let ghost given = args.deep_view();
                let mut i: usize = 0;
                while i < args.len()
                    invariant
                        i <= args@.len(),
                        given == args.deep_view(),
                        all.deep_view() == before + Seq::new(i as nat, |j: int| os::utf8(given[j])),
                    decreases args@.len() - i,
                {
                    let ghost so_far = all.deep_view();
                    let arg = OsText::of(args[i].as_str());
                    all.push(arg);
                    assert(all.deep_view() =~= so_far.push(arg@));
                    assert(so_far.push(os::utf8(given[i as int])) =~= before + Seq::new(
                        (i + 1) as nat,
                        |j: int| os::utf8(given[j]),
                    ));
                    i += 1;
                }
                cmd.args = all;
                Ok(cmd)
            },
            Err(e) => Err(e),
        }
    }
}

/// The version that npm printed, if it printed one.
pub open spec fn published_version_of(printed: Seq<char>) -> Option<Seq<char>> {
    if text::trim(printed).len() == 0 {
        None
    } else {
        Some(text::trim(printed))
    }
}

/// The version that npm printed, if it printed one.
pub fn published_version(printed: &str) -> (r: Option<String>)
    ensures
        r.deep_view() == published_version_of(printed@),
{
    let version = text::trim_text(printed);
    if version.as_str().is_empty() {
        None
    } else {
        Some(version)
    }
}

/// The arguments that ask npm for the latest published version.
pub fn latest_version_args() -> (r: Vec<String>)
    ensures
        r.deep_view() == seq!["view"@, DSH_PKG@, "version"@],
{
    let r: Vec<String> = vec!["view".to_owned(), DSH_PKG.to_owned(), "version".to_owned()];
    assert(r.deep_view() =~= seq!["view"@, DSH_PKG@, "version"@]);
    r
}

/// The package in a version or dist-tag, as npm takes it.
pub open spec fn package_spec_of(version: Seq<char>) -> Seq<char> {
    DSH_PKG@ + "@"@ + version
}

/// The package in a version or dist-tag, as npm takes it.
pub fn package_spec(version: &str) -> (r: String)
    ensures
        r@ == package_spec_of(version@),
{
    DSH_PKG.to_owned().concat("@").concat(version)
}

/// The arguments that install a version under `prefix`, pinned exactly.
pub open spec fn install_args_of(prefix: Seq<char>, version: Seq<char>) -> Seq<Seq<char>> {
    seq![
        "install"@,
        "--prefix"@,
        prefix,
        "--save-exact"@,
        "--no-audit"@,
        "--no-fund"@,
        package_spec_of(version),
    ]
}

/// The arguments that install a version under `prefix`, pinned exactly.
pub fn install_args_under(prefix: &str, version: &str) -> (r: Vec<String>)
    ensures
        r.deep_view() == install_args_of(prefix@, version@),
{
    let r: Vec<String> = vec![
        "install".to_owned(),
        "--prefix".to_owned(),
        prefix.to_owned(),
        "--save-exact".to_owned(),
        "--no-audit".to_owned(),
        "--no-fund".to_owned(),
        package_spec(version),
    ];
    assert(r.deep_view() =~= install_args_of(prefix@, version@));
    r
}

/// Why an install failed: the last eight lines that npm wrote to its error stream.
pub open spec fn install_failure_of(stderr: Seq<char>) -> Seq<char> {
    "npm install 失败: "@ + text::join_with(text::last_of(text::lines(stderr), 8), " | "@)
}

/// Why an install failed: the last eight lines that npm wrote to its error stream.
pub fn install_failure(stderr: &str) -> (r: String)
    ensures
        r@ == install_failure_of(stderr@),
{
    let lines: Vec<String> = text::lines_of(stderr);
    "npm install 失败: ".to_owned().concat(text::join_last(&lines, 8, " | ").as_str())
}

/// What an install comes to, by how npm ended.
pub open spec fn install_result_of(
    ran: Result<(bool, Seq<u8>), Seq<char>>,
) -> Result<(), Seq<char>> {
    match ran {
        Ok((success, stderr)) => if success {
            Ok(())
        } else {
            Err(install_failure_of(os::utf8_lossy(stderr)))
        },
        Err(e) => Err(e),
    }
}

/// How npm ended: whether it succeeded and what it wrote to its error stream, or
/// why it could not be run.
pub open spec fn ran_view(ran: Result<Finished, String>) -> Result<(bool, Seq<u8>), Seq<char>> {
    match ran {
        Ok(out) => Ok((out.success, out.stderr@)),
        Err(e) => Err(e@),
    }
}

/// What an install comes to, by how npm ended.
pub fn install_result(ran: Result<Finished, String>) -> (r: Result<(), String>)
    ensures
        text::unit_result(r) == install_result_of(ran_view(ran)),
        ran matches Ok(out) ==> (!out.success && valid_utf8(out.stderr@) ==> text::unit_result(r)
            == Err::<(), Seq<char>>(install_failure_of(decode_utf8(out.stderr@)))),
{
    match ran {
        Ok(out) => if out.success {
            Ok(())
        } else {
            Err(install_failure(os::text_lossy(&out.stderr).as_str()))
        },
        Err(e) => Err(e),
    }
}

/// Why npm could not be started.
pub fn launch_failure(e: &str) -> (r: String)
    ensures
        r@ == "npm 启动失败: "@ + e@,
{
    "npm 启动失败: ".to_owned().concat(e)
}

impl Runtime {
    /// The latest published dsh version, by how npm ended when it was asked.
    pub fn latest_version(&self, ran: Result<Finished, String>) -> (r: Option<String>)
        ensures
            r.deep_view() == match ran {
                Ok(out) => if out.success {
                    published_version_of(os::utf8_lossy(out.stdout@))
                } else {
                    None
                },
                Err(_) => None,
            },
            ran matches Ok(out) ==> (out.success && valid_utf8(out.stdout@) ==> r.deep_view()
                == published_version_of(decode_utf8(out.stdout@))),
    {
        match ran {
            Ok(out) => if out.success {
                published_version(os::text_lossy(&out.stdout).as_str())
            } else {
                None
            },
            Err(_) => None,
        }
    }

    /// The arguments that install a version in the runtime directory.
    pub fn install_args(&self, version: &str) -> (r: Vec<String>)
        ensures
            r.deep_view() == install_args_of(
                os::utf8_lossy(runtime::runtime_dir_of(self.home())),
                version@,
            ),
            valid_utf8(runtime::runtime_dir_of(self.home())) ==> r.deep_view() == install_args_of(
                decode_utf8(runtime::runtime_dir_of(self.home())),
                version@,
            ),
    {
        let prefix = os::text_lossy(&self.runtime_dir().bytes);
        install_args_under(prefix.as_str(), version)
    }
}

/// What is seen of an npm that runs under a time limit.
#[derive(Debug)]
pub enum NpmSeen {
    /// It has ended.
    Exited,
    /// It still runs.
    Running { elapsed_nanos: u128, limit_nanos: u128 },
    /// It cannot be looked at.
    Failed(String),
}

/// What to do with an npm that runs under a time limit.
#[derive(Debug)]
pub enum NpmNext {
    /// Read what it wrote.
    Collect,
    /// Look again after this many milliseconds.
    LookAgain { millis: u64 },
    /// Kill it, wait for its end and give this error.
    KillAndFail(String),
    /// Give this error.
    Fail(String),
}

/// What to do with an npm that runs under a time limit: it is killed when it runs
/// beyond the limit, and not before.
pub fn npm_next(seen: NpmSeen) -> (r: NpmNext)
    ensures
        match seen {
            NpmSeen::Exited => r is Collect,
            NpmSeen::Running { elapsed_nanos, limit_nanos } => if elapsed_nanos > limit_nanos {
                r matches NpmNext::KillAndFail(e) && e@ == "npm 超时"@
            } else {
                r matches NpmNext::LookAgain { millis } && millis == NPM_POLL_MILLIS
            },
            NpmSeen::Failed(why) => r matches NpmNext::Fail(e) && e@ == why@,
        },
{
    match seen {
        NpmSeen::Exited => NpmNext::Collect,
        NpmSeen::Running { elapsed_nanos, limit_nanos } => if elapsed_nanos > limit_nanos {
            NpmNext::KillAndFail("npm 超时".to_owned())
        } else {
            NpmNext::LookAgain { millis: NPM_POLL_MILLIS }
        },
        NpmSeen::Failed(why) => NpmNext::Fail(why),
    }
}

/// The search path that npm is given is the directory of the Node binary, a colon,
/// and the search path of this process.
pub proof fn lemma_path_env(node: Seq<u8>, path_var: Option<Seq<u8>>)
    ensures
        path_env(node, path_var) == match os::parent_of(node) {
            Some(dir) => if dir.contains(os::COLON) {
                Seq::empty()
            } else {
                seq![
                    (
                        "PATH"@,
                        dir + seq![os::COLON] + match path_var {
                            Some(dirs) => dirs,
                            None => Seq::empty(),
                        },
                    ),
                ]
            },
            None => Seq::empty(),
        },
{
    let current = match path_var {
        Some(dirs) => dirs,
        None => Seq::empty(),
    };
    if let Some(dir) = os::parent_of(node) {
        os::lemma_prepend_dir(dir, current);
    }
}

/// With the search path that npm is given, a bare `node` is first looked for where
/// the bundled Node lies. npm is given one unless a colon stands in the path of
/// its directory.
pub proof fn lemma_scripts_find_bundled_node(home: Seq<u8>, path_var: Option<Seq<u8>>)
    requires
        !runtime::below(runtime::node_dir_of(home), "bin"@).contains(os::COLON),
    ensures
        ({
            let env = path_env(runtime::bundled_node_of(home), path_var);
            &&& env.len() == 1
            &&& env[0].0 == "PATH"@
            &&& node::candidates_of(Some(env[0].1), "node"@).len() > 0
            &&& node::candidates_of(Some(env[0].1), "node"@)[0] == runtime::bundled_node_of(home)
        }),
{
    let bin = runtime::below(runtime::node_dir_of(home), "bin"@);
    let current = match path_var {
        Some(dirs) => dirs,
        None => Seq::empty(),
    };
    runtime::lemma_bundled_node_parent(home);
    lemma_path_env(runtime::bundled_node_of(home), path_var);
    os::lemma_split_of_prepended(bin, current);
}

/// With the bundled Node, npm never depends on an `npm` of the search path.
pub proof fn lemma_bundled_npm_needs_no_path(
    home: Seq<u8>,
    node: Seq<u8>,
    one: Option<Seq<u8>>,
    other: Option<Seq<u8>>,
    path_var: Option<Seq<u8>>,
)
    ensures
        npm_command_of(home, node, true, one, path_var) is Ok,
        npm_command_of(home, node, true, one, path_var) == npm_command_of(
            home,
            node,
            true,
            other,
            path_var,
        ),
{
}

/// A version that npm prints on a line of its own is the version that is read.
pub proof fn lemma_published_version_reads_back(version: Seq<char>)
    requires
        version.len() > 0,
        text::trimmed(version),
    ensures
        published_version_of(version + seq!['\n']) == Some(version),
{
    let none = Seq::<char>::empty();
    assert(text::blank(none) && text::blank(seq!['\n']));
    text::lemma_trim_of_padded(none, version, seq!['\n']);
    assert(none + version + seq!['\n'] =~= version + seq!['\n']);
}

/// The arguments that npm is run with come after those of the command, all of them and
/// in order, each as its UTF-8 bytes; nothing else of the command changes.
pub proof fn lemma_npm_takes_all_arguments(cmd: CommandView, args: Seq<Seq<char>>)
    ensures
        ({
            let full = with_args(cmd, args);
            &&& full.args.len() == cmd.args.len() + args.len()
            &&& forall|i: int| 0 <= i < cmd.args.len() ==> #[trigger] full.args[i] == cmd.args[i]
            &&& forall|i: int|
                0 <= i < args.len() ==> #[trigger] full.args[cmd.args.len() + i] == encode_utf8(
                    args[i],
                )
            &&& full.program == cmd.program
            &&& full.env == cmd.env
            &&& full.cwd == cmd.cwd
            &&& full.stdin == cmd.stdin
            &&& full.stdout == cmd.stdout
            &&& full.stderr == cmd.stderr
        }),
{
}

/// npm is run by the bundled Node through the JS entry of the bundled npm, or as the
/// npm of the search path; without either there is an error.
pub proof fn lemma_npm_program(
    home: Seq<u8>,
    node: Seq<u8>,
    npm: Seq<u8>,
    npm_on_path: Option<Seq<u8>>,
    path_var: Option<Seq<u8>>,
)
    ensures
        npm_command_of(home, node, true, npm_on_path, path_var) matches Ok(cmd) && cmd.program
            == node && cmd.args.len() == 1 && cmd.args[0] == runtime::below(
            home,
            "runtime/node/lib/node_modules/npm/bin/npm-cli.js"@,
        ),
        npm_command_of(home, node, false, Some(npm), path_var) matches Ok(cmd) && cmd.program == npm
            && cmd.args.len() == 0,
        npm_command_of(home, node, false, None, path_var) == Err::<CommandView, Seq<char>>(
            "PATH 中找不到 npm"@,
        ),
{
    assert(runtime::npm_cli_of(home) == runtime::below(
        home,
        "runtime/node/lib/node_modules/npm/bin/npm-cli.js"@,
    )) by {
        runtime::lemma_layout(home);
    }
}

/// npm is kept quiet and within the home, after the search path that it is given, and
/// its output is read by the shell.
pub proof fn lemma_npm_is_hermetic(
    home: Seq<u8>,
    node: Seq<u8>,
    bundled: bool,
    npm_on_path: Option<Seq<u8>>,
    path_var: Option<Seq<u8>>,
)
    ensures
        npm_command_of(home, node, bundled, npm_on_path, path_var) matches Ok(cmd) ==> {
            let n = path_env(node, path_var).len() as int;
            &&& cmd.env.len() == n + 5
            &&& forall|i: int|
                0 <= i < n ==> #[trigger] cmd.env[i] == path_env(node, path_var)[i]
            &&& cmd.env[n] == ("npm_config_loglevel"@, os::utf8("error"@))
            &&& cmd.env[n + 1] == ("npm_config_update_notifier"@, os::utf8("false"@))
            &&& cmd.env[n + 2] == ("npm_config_audit"@, os::utf8("false"@))
            &&& cmd.env[n + 3] == ("npm_config_fund"@, os::utf8("false"@))
            &&& cmd.env[n + 4] == ("npm_config_cache"@, runtime::below(home, "cache"@))
            &&& cmd.cwd is None
            &&& cmd.stdin == Stream::Null
            &&& cmd.stdout == Stream::Piped
            &&& cmd.stderr == Stream::Piped
        },
{
}

/// The version that npm printed is what stands between the white space round it; where
/// npm printed only white space there is none.
pub proof fn lemma_published_version_is_what_was_printed(
    left: Seq<char>,
    version: Seq<char>,
    right: Seq<char>,
)
    requires
        text::blank(left),
        text::blank(right),
    ensures
        version.len() > 0 && text::trimmed(version) ==> published_version_of(left + version + right)
            == Some(version),
        published_version_of(left) is None,
{
    text::lemma_trim_of_blank(left);
    if version.len() > 0 && text::trimmed(version) {
        text::lemma_trim_of_padded(left, version, right);
    }
}

/// An install asks npm for exactly one package, in the version that is wanted, pinned
/// exactly, under the prefix.
pub proof fn lemma_install_arguments(prefix: Seq<char>, version: Seq<char>)
    ensures
        install_args_of(prefix, version).len() == 7,
        install_args_of(prefix, version)[0] == "install"@,
        install_args_of(prefix, version)[1] == "--prefix"@,
        install_args_of(prefix, version)[2] == prefix,
        install_args_of(prefix, version)[3] == "--save-exact"@,
        install_args_of(prefix, version)[4] == "--no-audit"@,
        install_args_of(prefix, version)[5] == "--no-fund"@,
        install_args_of(prefix, version)[6] == "@deepseek-ai/dsh@"@ + version,
        package_spec_of(version) == "@deepseek-ai/dsh@"@ + version,
{
    reveal_strlit("@deepseek-ai/dsh");
    reveal_strlit("@");
    reveal_strlit("@deepseek-ai/dsh@");
    assert("@deepseek-ai/dsh@"@ + version =~= "@deepseek-ai/dsh"@ + "@"@ + version);
}

/// An install command ends with the package: whatever the base command of npm is, its
/// arguments are followed by the seven of the install.
pub proof fn lemma_install_names_its_package(
    cmd: CommandView,
    prefix: Seq<char>,
    version: Seq<char>,
)
    ensures
        with_args(cmd, install_args_of(prefix, version)).args.len() == cmd.args.len() + 7,
        with_args(cmd, install_args_of(prefix, version)).args.last() == encode_utf8(
            "@deepseek-ai/dsh@"@ + version,
        ),
{
    let args = install_args_of(prefix, version);
    let full = with_args(cmd, args);
    lemma_install_arguments(prefix, version);
    lemma_npm_takes_all_arguments(cmd, args);
    assert(full.args[cmd.args.len() as int + 6] == encode_utf8(args[6]));
}

/// A failed install is explained by the last eight lines that npm wrote to its error
/// stream, or by all of them where there are fewer.
pub proof fn lemma_install_failure_shows_last_lines(ls: Seq<Seq<char>>)
    requires
        forall|i: int|
            0 <= i < ls.len() ==> !(#[trigger] ls[i]).contains('\n') && !ls[i].contains('\r'),
    ensures
        install_failure_of(text::written_lines(ls)) == "npm install 失败: "@ + text::join_with(
            if ls.len() <= 8 {
                ls
            } else {
                ls.skip(ls.len() - 8)
            },
            " | "@,
        ),
{
    text::lemma_lines_read_back(ls);
    text::lemma_last_parts(ls, 8);
    assert(text::last_of(ls, 8) =~= if ls.len() <= 8 {
        ls
    } else {
        ls.skip(ls.len() - 8)
    });
}

/// The failure depends on the lines of the error stream alone.
pub proof fn lemma_install_failure_is_of_lines(a: Seq<char>, b: Seq<char>)
    requires
        text::lines(a) == text::lines(b),
    ensures
        install_failure_of(a) == install_failure_of(b),
{
}

/// An install comes to what npm came to: success, the error stream of a failure, or
/// the reason why npm could not be run.
pub proof fn lemma_install_result(stderr: Seq<u8>, why: Seq<char>)
    ensures
        install_result_of(Ok((true, stderr))) is Ok,
        install_result_of(Ok((false, stderr))) == Err::<(), Seq<char>>(
            install_failure_of(os::utf8_lossy(stderr)),
        ),
        install_result_of(Err(why)) == Err::<(), Seq<char>>(why),
{
}

/// A result keeps what matters of it.
pub proof fn lemma_npm_results_are_kept(out: Finished, cmd: CommandLine, why: String)
    ensures
        ran_view(Ok(out)) == Ok::<(bool, Seq<u8>), Seq<char>>((out.success, out.stderr@)),
        ran_view(Err(why)) == Err::<(bool, Seq<u8>), Seq<char>>(why@),
        command_result(Ok(cmd)) == Ok::<CommandView, Seq<char>>(cmd@),
        command_result(Err(why)) == Err::<CommandView, Seq<char>>(why@),
{
}

} // verus!
