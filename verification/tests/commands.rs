//! The runtime directory, the commands of npm, curl and kill, and their results.
use dsh_client::command::{CommandLine, Stream};
use dsh_client::fetch::{http_download, http_download_command, http_get, http_get_command};
use dsh_client::npm::{
    install_args_under, install_failure, install_result, latest_version_args, launch_failure, npm_next,
    package_spec, published_version, Finished, NpmNext, NpmSeen, LATEST_VERSION_TIMEOUT_NANOS,
};
use dsh_client::os::OsText;
use dsh_client::reap::{alive_command, pid_line, reaping, stale_pid, ReapAct};
use dsh_client::runtime::{Runtime, DSH_PKG};

fn runtime() -> Runtime {
    Runtime::new(Some(OsText::of("/home/me/app")))
}

fn finished(success: bool, stdout: &[u8], stderr: &[u8]) -> Result<Finished, String> {
    Ok(Finished { success, stdout: stdout.to_vec(), stderr: stderr.to_vec() })
}

fn args(cmd: &CommandLine) -> Vec<String> {
    cmd.args.iter().map(|a| String::from_utf8(a.bytes.clone()).unwrap()).collect()
}

fn env(cmd: &CommandLine, name: &str) -> Option<String> {
    cmd.env
        .iter()
        .find(|var| var.name == name)
        .map(|var| String::from_utf8(var.value.bytes.clone()).unwrap())
}

#[test]
fn home_by_convention() {
    let rt = Runtime::at(None, Some(OsText::of("/Users/me")));
    assert_eq!(
        rt.runtime_dir(),
        OsText::of("/Users/me/Library/Application Support/DSH Client/runtime")
    );
    let chosen = Runtime::at(Some(OsText::of("/x")), Some(OsText::of("/Users/me")));
    assert_eq!(chosen.runtime_dir(), OsText::of("/x/runtime"));
    assert_eq!(Runtime::at(None, None).runtime_dir(), OsText::of("./runtime"));
}

#[test]
fn home_of_this_user() {
    let rt = Runtime::new(None);
    let want = match dirs::home_dir() {
        Some(home) => home.join("Library/Application Support/DSH Client/runtime"),
        None => std::path::PathBuf::from("./runtime"),
    };
    assert_eq!(String::from_utf8(rt.runtime_dir().bytes).unwrap(), want.to_str().unwrap());
}

#[test]
fn layout_below_the_home() {
    let rt = runtime();
    assert_eq!(DSH_PKG, "@deepseek-ai/dsh");
    assert_eq!(rt.runtime_dir(), OsText::of("/home/me/app/runtime"));
    assert_eq!(
        rt.dsh_bin(),
        OsText::of("/home/me/app/runtime/node_modules/@deepseek-ai/dsh/lib/bin.js")
    );
    assert_eq!(
        rt.dsh_manifest(),
        OsText::of("/home/me/app/runtime/node_modules/@deepseek-ai/dsh/package.json")
    );
    assert_eq!(rt.pid_file(), OsText::of("/home/me/app/runtime/dsh-web.pid"));
    assert_eq!(rt.package_json(), OsText::of("/home/me/app/runtime/package.json"));
    assert_eq!(rt.node_dir(), OsText::of("/home/me/app/runtime/node"));
    assert_eq!(rt.bundled_node(), OsText::of("/home/me/app/runtime/node/bin/node"));
    assert_eq!(
        rt.npm_cli(),
        OsText::of("/home/me/app/runtime/node/lib/node_modules/npm/bin/npm-cli.js")
    );
    assert_eq!(rt.cache_dir(), OsText::of("/home/me/app/cache"));
    assert_eq!(rt.logs_dir(), OsText::of("/home/me/app/logs"));
    assert_eq!(rt.log_file(), OsText::of("/home/me/app/logs/dsh-client.log"));
    assert_eq!(rt.clone().runtime_dir(), rt.runtime_dir());
}

#[test]
fn layout_below_an_empty_home() {
    let rt = Runtime::new(Some(OsText::of("")));
    assert_eq!(rt.bundled_node(), OsText::of("runtime/node/bin/node"));
    let root = Runtime::new(Some(OsText::of("/")));
    assert_eq!(root.bundled_node(), OsText::of("/runtime/node/bin/node"));
    assert_eq!(root.bundled_node().parent(), Some(OsText::of("/runtime/node/bin")));
}

#[test]
fn log_line_with_a_time() {
    let entry = runtime().log(1700000000, "dsh web started pid=7");
    assert_eq!(entry.line, "[1700000000] dsh web started pid=7\n");
    assert_eq!(entry.file, OsText::of("/home/me/app/logs/dsh-client.log"));
    assert_eq!(runtime().log(0, "").line, "[0] \n");
}

#[test]
fn version_of_a_manifest() {
    let rt = runtime();
    let manifest = "{\"name\":\"@deepseek-ai/dsh\",\"version\":\"0.4.0\"}".to_string();
    assert_eq!(rt.installed_version(Some(manifest)), Some("0.4.0".to_string()));
    assert_eq!(rt.installed_version(Some("{}".to_string())), None);
    assert_eq!(rt.installed_version(None), None);
}

#[test]
fn bundled_npm_command() {
    let rt = runtime();
    let node = rt.bundled_node();
    let cmd = rt.npm_command(&node, true, None, Some(OsText::of("/usr/bin:/bin"))).unwrap();
    assert_eq!(cmd.program, node);
    assert_eq!(
        args(&cmd),
        vec!["/home/me/app/runtime/node/lib/node_modules/npm/bin/npm-cli.js".to_string()]
    );
    assert_eq!(
        env(&cmd, "PATH"),
        Some("/home/me/app/runtime/node/bin:/usr/bin:/bin".to_string())
    );
    assert_eq!(env(&cmd, "npm_config_loglevel"), Some("error".to_string()));
    assert_eq!(env(&cmd, "npm_config_update_notifier"), Some("false".to_string()));
    assert_eq!(env(&cmd, "npm_config_audit"), Some("false".to_string()));
    assert_eq!(env(&cmd, "npm_config_fund"), Some("false".to_string()));
    assert_eq!(env(&cmd, "npm_config_cache"), Some("/home/me/app/cache".to_string()));
    assert_eq!(cmd.env.len(), 6);
    assert_eq!(cmd.cwd, None);
    assert_eq!((cmd.stdin, cmd.stdout, cmd.stderr), (Stream::Null, Stream::Piped, Stream::Piped));
}

#[test]
fn bundled_npm_ignores_the_search_path() {
    let rt = runtime();
    let node = rt.bundled_node();
    let with = rt.npm_command(&node, true, Some(OsText::of("/usr/bin/npm")), None).unwrap();
    let without = rt.npm_command(&node, true, None, None).unwrap();
    assert_eq!(with.program, without.program);
    assert_eq!(with.args, without.args);
    assert_eq!(env(&without, "PATH"), Some("/home/me/app/runtime/node/bin:".to_string()));
}

#[test]
fn npm_of_the_search_path() {
    let rt = runtime();
    let node = OsText::of("/usr/bin/node");
    let cmd = rt
        .npm_command(&node, false, Some(OsText::of("/usr/local/bin/npm")), Some(OsText::of("/bin")))
        .unwrap();
    assert_eq!(cmd.program, OsText::of("/usr/local/bin/npm"));
    assert!(cmd.args.is_empty());
    assert_eq!(env(&cmd, "PATH"), Some("/usr/bin:/bin".to_string()));
}

#[test]
fn npm_not_found() {
    let rt = runtime();
    let node = OsText::of("/usr/bin/node");
    assert_eq!(
        rt.npm_command(&node, false, None, Some(OsText::of("/bin"))).unwrap_err(),
        "PATH 中找不到 npm"
    );
    assert_eq!(
        rt.npm(&node, false, &vec!["view".to_string()], None, None).unwrap_err(),
        "PATH 中找不到 npm"
    );
}

#[test]
fn search_path_with_a_colon_in_a_directory() {
    let rt = Runtime::new(Some(OsText::of("/a:b")));
    let cmd = rt.npm_command(&rt.bundled_node(), true, None, Some(OsText::of("/bin"))).unwrap();
    assert_eq!(env(&cmd, "PATH"), None);
    assert_eq!(cmd.env.len(), 5);
    let rootless = runtime().npm_command(&OsText::of("/"), true, None, None).unwrap();
    assert_eq!(env(&rootless, "PATH"), None);
}

#[test]
fn npm_with_arguments() {
    let rt = runtime();
    let cmd = rt.npm(&rt.bundled_node(), true, &latest_version_args(), None, None).unwrap();
    assert_eq!(
        args(&cmd),
        vec![
            "/home/me/app/runtime/node/lib/node_modules/npm/bin/npm-cli.js",
            "view",
            "@deepseek-ai/dsh",
            "version",
        ]
    );
}

#[test]
fn install_arguments() {
    assert_eq!(package_spec("latest"), "@deepseek-ai/dsh@latest");
    let want = vec![
        "install",
        "--prefix",
        "/home/me/app/runtime",
        "--save-exact",
        "--no-audit",
        "--no-fund",
        "@deepseek-ai/dsh@0.4.0",
    ];
    assert_eq!(runtime().install_args("0.4.0"), want);
    assert_eq!(install_args_under("/home/me/app/runtime", "0.4.0"), want);
}

#[test]
fn install_prefix_of_bytes_that_are_no_text() {
    let rt = Runtime::new(Some(OsText { bytes: vec![b'/', 0xFF] }));
    assert_eq!(rt.install_args("1")[2], "/\u{FFFD}/runtime");
}

#[test]
fn latest_version_is_trimmed() {
    let rt = runtime();
    assert_eq!(rt.latest_version(finished(true, b" 0.4.1\n", b"")), Some("0.4.1".to_string()));
    assert_eq!(rt.latest_version(finished(true, b" \n", b"")), None);
    assert_eq!(rt.latest_version(finished(true, b"", b"")), None);
    assert_eq!(rt.latest_version(finished(false, b"0.4.1\n", b"")), None);
    assert_eq!(rt.latest_version(Err("npm".to_string())), None);
    assert_eq!(
        rt.latest_version(finished(true, &[b'1', 0xFF], b"")),
        Some("1\u{FFFD}".to_string())
    );
    assert_eq!(published_version("0.4.1\n"), Some("0.4.1".to_string()));
}

#[test]
fn install_comes_to_what_npm_came_to() {
    assert_eq!(install_result(finished(true, b"", b"warn")), Ok(()));
    assert_eq!(install_result(Err("x".to_string())), Err("x".to_string()));
    assert_eq!(
        install_result(finished(false, b"out", b"one\r\ntwo\n")),
        Err("npm install 失败: one | two".to_string())
    );
    assert_eq!(
        install_result(finished(false, b"", &[0xFF, b'\n', b'x'])),
        Err("npm install 失败: \u{FFFD} | x".to_string())
    );
}

#[test]
fn install_failure_keeps_eight_lines() {
    assert_eq!(
        install_failure("1\n2\n3\n4\n5\n6\n7\n8\n9\n10\n"),
        "npm install 失败: 3 | 4 | 5 | 6 | 7 | 8 | 9 | 10"
    );
    assert_eq!(install_failure(""), "npm install 失败: ");
    assert_eq!(launch_failure("no such file"), "npm 启动失败: no such file");
}

#[test]
fn npm_under_a_time_limit() {
    let limit_nanos = LATEST_VERSION_TIMEOUT_NANOS;
    assert_eq!(limit_nanos, 25_000_000_000);
    assert!(matches!(npm_next(NpmSeen::Exited), NpmNext::Collect));
    assert!(matches!(
        npm_next(NpmSeen::Running { elapsed_nanos: limit_nanos, limit_nanos }),
        NpmNext::LookAgain { millis: 100 }
    ));
    assert!(matches!(
        npm_next(NpmSeen::Running { elapsed_nanos: limit_nanos + 1, limit_nanos }),
        NpmNext::KillAndFail(e) if e == "npm 超时"
    ));
    assert!(matches!(
        npm_next(NpmSeen::Failed("gone".to_string())),
        NpmNext::Fail(e) if e == "gone"
    ));
}

#[test]
fn curl_fetches_a_page() {
    let cmd = http_get_command("https://nodejs.org/dist/index.json");
    assert_eq!(cmd.program, OsText::of("curl"));
    assert_eq!(args(&cmd), vec!["-fsSL", "--max-time", "60", "https://nodejs.org/dist/index.json"]);
    assert_eq!(cmd.stdout, Stream::Unset);
    assert_eq!(http_get("u", finished(true, "版本".as_bytes(), b"")), Ok("版本".to_string()));
    assert_eq!(
        http_get("u", finished(true, &[b'a', 0xC3, 0x28], b"")),
        Ok("a\u{FFFD}(".to_string())
    );
    assert_eq!(http_get("u", finished(false, b"x", b"")), Err("请求 u 失败".to_string()));
    assert_eq!(http_get("u", Err("e".to_string())), Err("curl 失败: e".to_string()));
}

#[test]
fn curl_fetches_a_file() {
    let cmd = http_download_command("u", &OsText::of("/d/f"));
    assert_eq!(
        args(&cmd),
        vec!["-fL", "--retry", "2", "--max-time", "600", "-o", "/d/f", "u"]
    );
    assert_eq!(http_download("u", Ok(true)), Ok(()));
    assert_eq!(http_download("u", Ok(false)), Err("下载失败: u".to_string()));
    assert_eq!(http_download("u", Err("e".to_string())), Err("curl 失败: e".to_string()));
}

#[test]
fn pid_file_names_a_stale_process() {
    assert_eq!(pid_line(4242), "4242\n");
    assert_eq!(stale_pid(Some(pid_line(4242)), 7), Some(4242));
    assert_eq!(stale_pid(Some(" 12 \n".to_string()), 7), Some(12));
    assert_eq!(stale_pid(Some(pid_line(7)), 7), None);
    assert_eq!(stale_pid(Some("dsh".to_string()), 7), None);
    assert_eq!(stale_pid(Some(String::new()), 7), None);
    assert_eq!(stale_pid(Some("-3".to_string()), 7), None);
    assert_eq!(stale_pid(None, 7), None);
}

#[test]
fn stale_process_is_reaped_while_alive() {
    let alive = alive_command(4242);
    assert_eq!(alive.program, OsText::of("kill"));
    assert_eq!(args(&alive), vec!["-0", "4242"]);
    let acts = reaping(4242, true);
    assert_eq!(acts.len(), 3);
    assert!(matches!(&acts[0], ReapAct::Log(line) if line == "reaping stale dsh pid 4242"));
    assert!(matches!(&acts[1], ReapAct::Run(kill) if args(kill) == ["-9", "4242"]));
    assert!(matches!(&acts[2], ReapAct::RemovePidFile));
    let acts = reaping(4242, false);
    assert_eq!(acts.len(), 1);
    assert!(matches!(&acts[0], ReapAct::RemovePidFile));
}
