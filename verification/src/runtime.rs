//! The runtime directory: where everything lives, which version is installed, and
//! the line that each message gets in the log.
//!
//! ```text
//! <home>/
//!   runtime/
//!     node/                    (bundled Node.js, downloaded on demand)
//!     node_modules/@deepseek-ai/dsh/
//!     package.json             (pins the exact dsh version)
//!     dsh-web.pid
//!   cache/                     (npm cache)
//!   logs/dsh-client.log
//! ```
use vstd::prelude::*;
use vstd::string::*;
use vstd::utf8::*;

use crate::os::OsText;
use crate::{os, scan, text};

verus! {

/// The npm package that the shell runs.
pub const DSH_PKG: &'static str = "@deepseek-ai/dsh";

/// The application's home, under which everything lives.
#[derive(Debug)]
pub struct Runtime {
    home: OsText,
}

/// The path of the name `part` below `base`.
pub open spec fn below(base: Seq<u8>, part: Seq<char>) -> Seq<u8> {
    os::joined(base, os::utf8(part))
}

/// The home: what the environment sets, else the place under the user's home
/// directory where macOS keeps such things, else the current directory.
pub open spec fn home_of(chosen: Option<Seq<u8>>, user_home: Option<Seq<u8>>) -> Seq<u8> {
    match chosen {
        Some(home) => home,
        None => match user_home {
            Some(user) => below(user, "Library/Application Support/DSH Client"@),
            None => os::utf8("."@),
        },
    }
}

pub open spec fn runtime_dir_of(home: Seq<u8>) -> Seq<u8> {
    below(home, "runtime"@)
}

/// The directory of the installed dsh package.
pub open spec fn dsh_package_of(home: Seq<u8>) -> Seq<u8> {
    below(below(runtime_dir_of(home), "node_modules"@), DSH_PKG@)
}

pub open spec fn dsh_bin_of(home: Seq<u8>) -> Seq<u8> {
    below(below(dsh_package_of(home), "lib"@), "bin.js"@)
}

pub open spec fn dsh_manifest_of(home: Seq<u8>) -> Seq<u8> {
    below(dsh_package_of(home), "package.json"@)
}

pub open spec fn pid_file_of(home: Seq<u8>) -> Seq<u8> {
    below(runtime_dir_of(home), "dsh-web.pid"@)
}

pub open spec fn package_json_of(home: Seq<u8>) -> Seq<u8> {
    below(runtime_dir_of(home), "package.json"@)
}

/// The directory of the bundled Node.js.
pub open spec fn node_dir_of(home: Seq<u8>) -> Seq<u8> {
    below(runtime_dir_of(home), "node"@)
}

pub open spec fn bundled_node_of(home: Seq<u8>) -> Seq<u8> {
    below(below(node_dir_of(home), "bin"@), "node"@)
}

pub open spec fn npm_cli_of(home: Seq<u8>) -> Seq<u8> {
    below(runtime_dir_of(home), "node/lib/node_modules/npm/bin/npm-cli.js"@)
}

pub open spec fn cache_of(home: Seq<u8>) -> Seq<u8> {
    below(home, "cache"@)
}

pub open spec fn logs_of(home: Seq<u8>) -> Seq<u8> {
    below(home, "logs"@)
}

pub open spec fn log_file_of(home: Seq<u8>) -> Seq<u8> {
    below(logs_of(home), "dsh-client.log"@)
}

/// A line of the log: the seconds since 1970, and the message.
pub open spec fn log_line_of(secs: u64, msg: Seq<char>) -> Seq<char> {
    "["@ + text::decimal(secs as nat) + "] "@ + msg + "\n"@
}

/// A line for the log, and the file that it is appended to.
#[derive(Debug)]
pub struct LogEntry {
    pub file: OsText,
    pub line: String,
}

impl Clone for Runtime {
    fn clone(&self) -> (r: Self)
        ensures
            r.home() == self.home(),
    {
        Runtime { home: self.home.clone() }
    }
}

impl Runtime {
    /// The path of the home.
    pub closed spec fn home(&self) -> Seq<u8> {
        self.home@
    }

    /// Resolve the app home: `chosen` (the value of `DSHCLIENT_HOME`), else the
    /// macOS `~/Library/Application Support/DSH Client` convention.
    pub fn new(chosen: Option<OsText>) -> (r: Runtime)
        ensures
            chosen matches Some(home) ==> r.home() == home@,
            chosen is None ==> exists|user_home: Option<Seq<u8>>|
                (user_home matches Some(user) ==> user.len() > 0) && r.home() == #[trigger] home_of(
                    None,
                    user_home,
                ),
    {
        match chosen {
            Some(home) => Runtime { home },
            None => {
                let user_home = os::home_dir();
                let ghost found = user_home.deep_view();
                let r = Runtime::at(None, user_home);
                assert(r.home() == home_of(None, found));
                r
            },
        }
    }

    /// The app home for a given home directory of the user.
    pub fn at(chosen: Option<OsText>, user_home: Option<OsText>) -> (r: Runtime)
        ensures
            r.home() == home_of(chosen.deep_view(), user_home.deep_view()),
    {
        match chosen {
            Some(home) => Runtime { home },
            None => match user_home {
                Some(user) => Runtime {
                    home: user.join_str("Library/Application Support/DSH Client"),
                },
                None => Runtime { home: OsText::of(".") },
            },
        }
    }

    pub fn runtime_dir(&self) -> (r: OsText)
        ensures
            r@ == runtime_dir_of(self.home()),
    {
        self.home.join_str("runtime")
    }

    fn dsh_package(&self) -> (r: OsText)
        ensures
            r@ == dsh_package_of(self.home()),
    {
        self.runtime_dir().join_str("node_modules").join_str(DSH_PKG)
    }

    pub fn dsh_bin(&self) -> (r: OsText)
        ensures
            r@ == dsh_bin_of(self.home()),
    {
        self.dsh_package().join_str("lib").join_str("bin.js")
    }

    /// The manifest of the installed dsh package.
    pub fn dsh_manifest(&self) -> (r: OsText)
        ensures
            r@ == dsh_manifest_of(self.home()),
    {
        self.dsh_package().join_str("package.json")
    }

    pub fn pid_file(&self) -> (r: OsText)
        ensures
            r@ == pid_file_of(self.home()),
    {
        self.runtime_dir().join_str("dsh-web.pid")
    }

    /// The manifest that pins the dsh version.
    pub fn package_json(&self) -> (r: OsText)
        ensures
            r@ == package_json_of(self.home()),
    {
        self.runtime_dir().join_str("package.json")
    }

    /// The directory of the bundled Node.js.
    pub fn node_dir(&self) -> (r: OsText)
        ensures
            r@ == node_dir_of(self.home()),
    {
        self.runtime_dir().join_str("node")
    }

    /// The binary of the bundled Node.js.
    pub fn bundled_node(&self) -> (r: OsText)
        ensures
            r@ == bundled_node_of(self.home()),
    {
        self.node_dir().join_str("bin").join_str("node")
    }

    /// The entry of the npm that comes with the bundled Node.js.
    pub fn npm_cli(&self) -> (r: OsText)
        ensures
            r@ == npm_cli_of(self.home()),
    {
        self.runtime_dir().join_str("node/lib/node_modules/npm/bin/npm-cli.js")
    }

    /// The cache that npm is told to use.
    pub fn cache_dir(&self) -> (r: OsText)
        ensures
            r@ == cache_of(self.home()),
    {
        self.home.join_str("cache")
    }

    /// The directory of the log.
    pub fn logs_dir(&self) -> (r: OsText)
        ensures
            r@ == logs_of(self.home()),
    {
        self.home.join_str("logs")
    }

    /// The log.
    pub fn log_file(&self) -> (r: OsText)
        ensures
            r@ == log_file_of(self.home()),
    {
        self.logs_dir().join_str("dsh-client.log")
    }

    /// The timestamped line that the log gets for `msg`.
    pub fn log(&self, secs: u64, msg: &str) -> (r: LogEntry)
        ensures
            r.file@ == log_file_of(self.home()),
            r.line@ == log_line_of(secs, msg@),
    {
        let line = "[".to_owned().concat(text::decimal_text(secs).as_str()).concat("] ").concat(
            msg,
        ).concat("\n");
        LogEntry { file: self.log_file(), line }
    }

    /// Version of the dsh package currently installed in the runtime, by the
    /// contents of its manifest; `None` where the manifest cannot be read.
    pub fn installed_version(&self, manifest: Option<String>) -> (r: Option<String>)
        ensures
            r.deep_view() == match manifest {
                Some(contents) => scan::json_field(contents@, "version"@),
                None => None,
            },
    {
        match manifest {
            Some(contents) => scan::extract_json_field(contents.as_str(), "version"),
            None => None,
        }
    }
}

proof fn lemma_below_twice(home: Seq<u8>, dir: Seq<char>, part: Seq<char>)
    requires
        is_ascii_chars(dir),
        is_ascii_chars(part),
        dir.len() > 0,
        dir.last() != '/',
        part.len() > 0,
        part[0] != '/',
    ensures
        below(below(home, dir), part) == below(home, dir + "/"@ + part),
{
    let whole = dir + "/"@ + part;
    reveal_strlit("/");
    is_ascii_chars_encode_utf8(dir);
    is_ascii_chars_encode_utf8(part);
    assert(is_ascii_chars(whole)) by {
        assert forall|i: int| 0 <= i < whole.len() implies #[trigger] whole[i] as u32 <= 127 by {
            if i < dir.len() {
                assert(whole[i] == dir[i]);
            } else if i > dir.len() {
                assert(whole[i] == part[i - dir.len() - 1]);
            }
        }
    }
    is_ascii_chars_encode_utf8(whole);
    os::lemma_joined_assoc(home, os::utf8(dir), os::utf8(part));
    assert(os::joined(os::utf8(dir), os::utf8(part)) =~= os::utf8(whole)) by {
        assert(dir.last() as u8 == os::utf8(dir).last());
        assert(part[0] as u8 == os::utf8(part)[0]);
        assert forall|i: int| 0 <= i < whole.len() implies #[trigger] os::utf8(whole)[i]
            == os::joined(os::utf8(dir), os::utf8(part))[i] by {
            assert(whole[i] as u8 == os::utf8(whole)[i]);
            if i < dir.len() {
                assert(whole[i] == dir[i]);
            } else if i > dir.len() {
                assert(whole[i] == part[i - dir.len() - 1]);
            }
        }
    }
}

/// Everything lies below the home, at the places that the tree above shows. The
/// bundled npm lies in the directory of the bundled Node.
pub proof fn lemma_layout(home: Seq<u8>)
    ensures
        node_dir_of(home) == below(home, "runtime/node"@),
        bundled_node_of(home) == below(home, "runtime/node/bin/node"@),
        npm_cli_of(home) == below(node_dir_of(home), "lib/node_modules/npm/bin/npm-cli.js"@),
        npm_cli_of(home) == below(home, "runtime/node/lib/node_modules/npm/bin/npm-cli.js"@),
        dsh_package_of(home) == below(home, "runtime/node_modules/@deepseek-ai/dsh"@),
        dsh_bin_of(home) == below(home, "runtime/node_modules/@deepseek-ai/dsh/lib/bin.js"@),
        dsh_manifest_of(home) == below(
            home,
            "runtime/node_modules/@deepseek-ai/dsh/package.json"@,
        ),
        package_json_of(home) == below(home, "runtime/package.json"@),
        pid_file_of(home) == below(home, "runtime/dsh-web.pid"@),
        log_file_of(home) == below(home, "logs/dsh-client.log"@),
{
    let package = "runtime/node_modules/@deepseek-ai/dsh"@;
    reveal_strlit("/");
    reveal_strlit("runtime");
    reveal_strlit("node");
    reveal_strlit("bin");
    reveal_strlit("node_modules");
    reveal_strlit("@deepseek-ai/dsh");
    reveal_strlit("lib");
    reveal_strlit("bin.js");
    reveal_strlit("package.json");
    reveal_strlit("dsh-web.pid");
    reveal_strlit("logs");
    reveal_strlit("dsh-client.log");
    reveal_strlit("runtime/node");
    reveal_strlit("runtime/node/bin");
    reveal_strlit("runtime/node/bin/node");
    reveal_strlit("lib/node_modules/npm/bin/npm-cli.js");
    reveal_strlit("node/lib/node_modules/npm/bin/npm-cli.js");
    reveal_strlit("runtime/node/lib/node_modules/npm/bin/npm-cli.js");
    reveal_strlit("runtime/node_modules");
    reveal_strlit("runtime/node_modules/@deepseek-ai/dsh");
    reveal_strlit("runtime/node_modules/@deepseek-ai/dsh/lib");
    reveal_strlit("runtime/node_modules/@deepseek-ai/dsh/lib/bin.js");
    reveal_strlit("runtime/node_modules/@deepseek-ai/dsh/package.json");
    reveal_strlit("runtime/package.json");
    reveal_strlit("runtime/dsh-web.pid");
    reveal_strlit("logs/dsh-client.log");
    lemma_below_twice(home, "runtime"@, "node"@);
    assert("runtime"@ + "/"@ + "node"@ =~= "runtime/node"@);
    lemma_below_twice(home, "runtime/node"@, "bin"@);
    assert("runtime/node"@ + "/"@ + "bin"@ =~= "runtime/node/bin"@);
    lemma_below_twice(home, "runtime/node/bin"@, "node"@);
    assert("runtime/node/bin"@ + "/"@ + "node"@ =~= "runtime/node/bin/node"@);
    lemma_below_twice(home, "runtime"@, "node/lib/node_modules/npm/bin/npm-cli.js"@);
    lemma_below_twice(home, "runtime/node"@, "lib/node_modules/npm/bin/npm-cli.js"@);
    assert("runtime"@ + "/"@ + "node/lib/node_modules/npm/bin/npm-cli.js"@ =~= "runtime/node"@ + "/"@
        + "lib/node_modules/npm/bin/npm-cli.js"@);
    assert("runtime"@ + "/"@ + "node/lib/node_modules/npm/bin/npm-cli.js"@
        =~= "runtime/node/lib/node_modules/npm/bin/npm-cli.js"@);
    lemma_below_twice(home, "runtime"@, "node_modules"@);
    assert("runtime"@ + "/"@ + "node_modules"@ =~= "runtime/node_modules"@);
    lemma_below_twice(home, "runtime/node_modules"@, DSH_PKG@);
    assert("runtime/node_modules"@ + "/"@ + DSH_PKG@ =~= package);
    lemma_below_twice(home, package, "lib"@);
    assert(package + "/"@ + "lib"@ =~= "runtime/node_modules/@deepseek-ai/dsh/lib"@);
    lemma_below_twice(home, "runtime/node_modules/@deepseek-ai/dsh/lib"@, "bin.js"@);
    assert("runtime/node_modules/@deepseek-ai/dsh/lib"@ + "/"@ + "bin.js"@
        =~= "runtime/node_modules/@deepseek-ai/dsh/lib/bin.js"@);
    lemma_below_twice(home, package, "package.json"@);
    assert(package + "/"@ + "package.json"@
        =~= "runtime/node_modules/@deepseek-ai/dsh/package.json"@);
    lemma_below_twice(home, "runtime"@, "package.json"@);
    assert("runtime"@ + "/"@ + "package.json"@ =~= "runtime/package.json"@);
    lemma_below_twice(home, "runtime"@, "dsh-web.pid"@);
    assert("runtime"@ + "/"@ + "dsh-web.pid"@ =~= "runtime/dsh-web.pid"@);
    lemma_below_twice(home, "logs"@, "dsh-client.log"@);
    assert("logs"@ + "/"@ + "dsh-client.log"@ =~= "logs/dsh-client.log"@);
}

/// The directory of the bundled Node binary is its `bin` directory.
pub proof fn lemma_bundled_node_parent(home: Seq<u8>)
    ensures
        os::parent_of(bundled_node_of(home)) == Some(below(node_dir_of(home), "bin"@)),
{
    reveal_strlit("node");
    reveal_strlit("bin");
    is_ascii_chars_encode_utf8("node"@);
    is_ascii_chars_encode_utf8("bin"@);
    let node = os::utf8("node"@);
    let bin = os::utf8("bin"@);
    assert(node.len() == 4 && bin.len() == 3);
    assert forall|i: int| 0 <= i < 4 implies #[trigger] node[i] != os::SLASH by {
        assert("node"@[i] as u8 == node[i]);
    }
    assert forall|i: int| 0 <= i < 3 implies #[trigger] bin[i] != os::SLASH by {
        assert("bin"@[i] as u8 == bin[i]);
    }
    let dir = node_dir_of(home);
    assert(node[0] != os::SLASH);
    assert(dir.last() == node.last());
    os::lemma_parent_of_joined(dir, bin, node);
}

/// The home is the chosen one, else a directory below the user's home, else the
/// current directory.
pub proof fn lemma_home_by_cases(
    chosen: Seq<u8>,
    user: Seq<u8>,
    user_home: Option<Seq<u8>>,
)
    ensures
        home_of(Some(chosen), user_home) == chosen,
        user.len() > 0 && user.last() != 0x2F ==> home_of(None, Some(user)) == user + seq![0x2Fu8]
            + encode_utf8("Library/Application Support/DSH Client"@),
        user.len() > 0 && user.last() == 0x2F ==> home_of(None, Some(user)) == user + encode_utf8(
            "Library/Application Support/DSH Client"@,
        ),
        home_of(None, None) == encode_utf8("."@),
{
    let part = "Library/Application Support/DSH Client"@;
    reveal_strlit("Library/Application Support/DSH Client");
    is_ascii_chars_encode_utf8(part);
    assert(part[0] as u8 == os::utf8(part)[0]);
    os::lemma_joined_by_cases(user, os::utf8(part));
}

/// What lies below a directory has the directory's path, a slash and its own name.
pub proof fn lemma_below_by_bytes(base: Seq<u8>, part: Seq<char>)
    requires
        is_ascii_chars(part),
        part.len() > 0,
        part[0] != '/',
    ensures
        base.len() == 0 ==> below(base, part) == encode_utf8(part),
        base.len() > 0 && base.last() == 0x2F ==> below(base, part) == base + encode_utf8(part),
        base.len() > 0 && base.last() != 0x2F ==> below(base, part) == base + seq![0x2Fu8]
            + encode_utf8(part),
{
    is_ascii_chars_encode_utf8(part);
    assert(part[0] as u8 == os::utf8(part)[0]);
    os::lemma_joined_by_cases(base, os::utf8(part));
}

/// A path below a directory is the name's bytes joined to it, whatever the name.
pub proof fn lemma_below_is_joined(base: Seq<u8>, part: Seq<char>)
    ensures
        below(base, part) == os::joined(base, encode_utf8(part)),
{
}

/// A line of the log holds its time between brackets, and then the message.
pub proof fn lemma_log_line(secs: u64, msg: Seq<char>)
    ensures
        log_line_of(secs, msg) == "["@ + text::decimal(secs as nat) + "] "@ + msg + "\n"@,
        log_line_of(secs, msg).len() == text::decimal(secs as nat).len() + msg.len() + 4,
        log_line_of(secs, msg).last() == '\n',
{
    reveal_strlit("[");
    reveal_strlit("] ");
    reveal_strlit("\n");
}

/// The directories at the top of the home, by their bytes.
pub proof fn lemma_directories_of_the_home(home: Seq<u8>)
    ensures
        home.len() > 0 && home.last() != 0x2F ==> {
            &&& runtime_dir_of(home) == home + seq![0x2Fu8] + encode_utf8("runtime"@)
            &&& cache_of(home) == home + seq![0x2Fu8] + encode_utf8("cache"@)
            &&& logs_of(home) == home + seq![0x2Fu8] + encode_utf8("logs"@)
        },
        home.len() > 0 && home.last() == 0x2F ==> {
            &&& runtime_dir_of(home) == home + encode_utf8("runtime"@)
            &&& cache_of(home) == home + encode_utf8("cache"@)
            &&& logs_of(home) == home + encode_utf8("logs"@)
        },
        home.len() == 0 ==> {
            &&& runtime_dir_of(home) == encode_utf8("runtime"@)
            &&& cache_of(home) == encode_utf8("cache"@)
            &&& logs_of(home) == encode_utf8("logs"@)
        },
{
    reveal_strlit("runtime");
    reveal_strlit("cache");
    reveal_strlit("logs");
    lemma_below_by_bytes(home, "runtime"@);
    lemma_below_by_bytes(home, "cache"@);
    lemma_below_by_bytes(home, "logs"@);
}

} // verus!
