//! The search for Node, its download, the installation of dsh and the update check.
use dsh_client::download::{node_arch, DownloadPhase, NodeDownload, NODE_INDEX_URL};
use dsh_client::install::{InstallPhase, FRESH_MANIFEST};
use dsh_client::messages::{Note, UiMsg};
use dsh_client::node::{NodePhase, Which};
use dsh_client::npm::Finished;
use dsh_client::os::OsText;
use dsh_client::runtime::Runtime;
use dsh_client::update::{UpdateCheck, UpdatePhase};
use dsh_client::worker::UpdateMode;

const INDEX: &str = "[{\"version\":\"v24.1.0\",\"lts\":false},{\"version\":\"v22.16.0\",\"lts\":\"Jod\"}]";

fn runtime() -> Runtime {
    Runtime::new(Some(OsText::of("/app")))
}

fn shown(notes: &[Note]) -> Vec<String> {
    notes
        .iter()
        .map(|note| match note {
            Note::Log(line) => format!("log {line}"),
            Note::Ui(UiMsg::Status(text)) => format!("status {text}"),
            Note::Ui(UiMsg::UpdateInfo(text)) => format!("info {text}"),
            Note::Ui(other) => format!("{other:?}"),
        })
        .collect()
}

fn looked_up(path_var: Option<&str>, files: &[&str]) -> Option<OsText> {
    let mut which = Which::new(path_var.map(OsText::of), "node");
    while let Some(path) = which.candidate() {
        let is_file = files.iter().any(|file| OsText::of(file) == path);
        if let Some(found) = which.probed(is_file) {
            return Some(found);
        }
    }
    None
}

#[test]
fn lookup_finds_the_first() {
    let files = ["/b/node", "/c/node", "node"];
    assert_eq!(looked_up(Some("/a:/b:/c"), &files), Some(OsText::of("/b/node")));
    assert_eq!(looked_up(Some("/c:/b"), &files), Some(OsText::of("/c/node")));
    assert_eq!(looked_up(Some("/a:"), &files), Some(OsText::of("node")));
    assert_eq!(looked_up(Some("/a"), &files), None);
    assert_eq!(looked_up(None, &files), None);
}

#[test]
fn scripts_find_the_bundled_node() {
    let rt = runtime();
    let cmd = rt.npm_command(&rt.bundled_node(), true, None, Some(OsText::of("/usr/bin"))).unwrap();
    let path = cmd.env.iter().find(|var| var.name == "PATH").unwrap().value.clone();
    assert_eq!(Which::new(Some(path), "node").candidate(), Some(rt.bundled_node()));
}

#[test]
fn chosen_node_comes_first() {
    let mut search = runtime().ensure_node(Some(OsText::of("/my/node")));
    assert_eq!(search.phase(), NodePhase::ProbeChosen);
    assert_eq!(search.probe_path(), OsText::of("/my/node"));
    search.probed(true);
    assert_eq!(search.phase(), NodePhase::Done);
    assert_eq!(search.outcome(), Ok((OsText::of("/my/node"), false)));
}

#[test]
fn bundled_node_comes_second() {
    let mut search = runtime().ensure_node(Some(OsText::of("/my/node")));
    search.probed(false);
    assert_eq!(search.phase(), NodePhase::ProbeBundled);
    assert_eq!(search.probe_path(), OsText::of("/app/runtime/node/bin/node"));
    search.probed(true);
    assert_eq!(search.outcome(), Ok((OsText::of("/app/runtime/node/bin/node"), true)));
}

#[test]
fn search_path_comes_third() {
    let mut search = runtime().ensure_node(None);
    assert_eq!(search.phase(), NodePhase::ProbeBundled);
    search.probed(false);
    assert_eq!(search.phase(), NodePhase::LookUp);
    assert_eq!(search.looked_up(Some(OsText::of("/usr/bin/node"))), None);
    assert_eq!(search.outcome(), Ok((OsText::of("/usr/bin/node"), false)));
}

#[test]
fn download_comes_last() {
    let mut search = runtime().ensure_node(None);
    search.probed(false);
    assert_eq!(
        search.looked_up(None),
        Some("未找到 Node.js，正在下载官方 Node 发行版…".to_string())
    );
    assert_eq!(search.phase(), NodePhase::Download);
    search.downloaded(Ok(()));
    assert_eq!(search.phase(), NodePhase::ProbeDownloaded);
    assert_eq!(search.probe_path(), OsText::of("/app/runtime/node/bin/node"));
    search.probed(true);
    assert_eq!(search.outcome(), Ok((OsText::of("/app/runtime/node/bin/node"), true)));
}

#[test]
fn download_may_leave_nothing() {
    let mut search = runtime().ensure_node(None);
    search.probed(false);
    search.looked_up(None);
    search.downloaded(Ok(()));
    search.probed(false);
    assert_eq!(search.outcome(), Err("Node 下载完成但二进制缺失".to_string()));
}

#[test]
fn download_may_fail() {
    let mut search = runtime().ensure_node(None);
    search.probed(false);
    search.looked_up(None);
    search.downloaded(Err("offline".to_string()));
    assert_eq!(search.phase(), NodePhase::Done);
    assert_eq!(search.outcome(), Err("offline".to_string()));
}

fn download_up_to_unpack() -> NodeDownload {
    let mut download = runtime().download_node("aarch64");
    assert_eq!(download.phase(), DownloadPhase::Probe);
    download.probed(false);
    assert_eq!(download.phase(), DownloadPhase::FetchIndex);
    let notes = download.index_fetched(Ok(INDEX.to_string()));
    assert_eq!(shown(&notes), vec!["log download node v22.16.0 darwin-arm64"]);
    assert_eq!(download.phase(), DownloadPhase::MakeDir);
    download.dir_made(Ok(()));
    assert_eq!(download.phase(), DownloadPhase::FetchArchive);
    download.archive_fetched(Ok(()));
    assert_eq!(download.phase(), DownloadPhase::Unpack);
    download
}

#[test]
fn node_is_downloaded() {
    let rt = runtime();
    assert_eq!(NODE_INDEX_URL, "https://nodejs.org/dist/index.json");
    let mut download = download_up_to_unpack();
    assert_eq!(
        download.archive_url(),
        "https://nodejs.org/dist/v22.16.0/node-v22.16.0-darwin-arm64.tar.gz"
    );
    assert_eq!(
        download.archive_path(&rt),
        OsText::of("/app/runtime/node-v22.16.0-darwin-arm64.tar.gz")
    );
    assert_eq!(
        download.unpacked_dir(&rt),
        OsText::of("/app/runtime/node-v22.16.0-darwin-arm64")
    );
    let unpack = download.unpack_command(&rt);
    assert_eq!(unpack.program, OsText::of("tar"));
    assert_eq!(
        unpack.args,
        vec![
            OsText::of("-xzf"),
            OsText::of("/app/runtime/node-v22.16.0-darwin-arm64.tar.gz"),
            OsText::of("-C"),
            OsText::of("/app/runtime"),
        ]
    );
    download.unpacked(Ok(true));
    assert_eq!(download.phase(), DownloadPhase::Rename);
    download.renamed(Ok(()));
    assert_eq!(download.phase(), DownloadPhase::Clean);
    download.cleaned();
    assert_eq!(download.outcome(), Ok(()));
}

#[test]
fn node_is_there_already() {
    let mut download = runtime().download_node("riscv64");
    download.probed(true);
    assert_eq!(download.phase(), DownloadPhase::Done);
    assert_eq!(download.outcome(), Ok(()));
}

#[test]
fn machines_of_the_releases() {
    assert_eq!(node_arch("aarch64"), Some("arm64".to_string()));
    assert_eq!(node_arch("x86_64"), Some("x64".to_string()));
    assert_eq!(node_arch("riscv64"), None);
    let mut download = runtime().download_node("riscv64");
    download.probed(false);
    assert_eq!(download.outcome(), Err("不支持的 CPU 架构: riscv64".to_string()));
}

#[test]
fn download_errors() {
    let mut download = runtime().download_node("x86_64");
    download.probed(false);
    assert!(download.index_fetched(Err("请求 失败".to_string())).is_empty());
    assert_eq!(download.outcome(), Err("请求 失败".to_string()));

    let mut download = runtime().download_node("x86_64");
    download.probed(false);
    assert!(download.index_fetched(Ok("[]".to_string())).is_empty());
    assert_eq!(download.outcome(), Err("无法解析 nodejs.org 版本列表".to_string()));

    let mut download = runtime().download_node("x86_64");
    download.probed(false);
    let notes = download.index_fetched(Ok(INDEX.to_string()));
    assert_eq!(shown(&notes), vec!["log download node v22.16.0 darwin-x64"]);
    download.dir_made(Err("read-only".to_string()));
    assert_eq!(download.outcome(), Err("read-only".to_string()));

    let mut download = runtime().download_node("x86_64");
    download.probed(false);
    download.index_fetched(Ok(INDEX.to_string()));
    download.dir_made(Ok(()));
    download.archive_fetched(Err("下载失败: u".to_string()));
    assert_eq!(download.outcome(), Err("下载失败: u".to_string()));

    let mut download = download_up_to_unpack();
    download.unpacked(Ok(false));
    assert_eq!(download.outcome(), Err("解压 Node 失败".to_string()));

    let mut download = download_up_to_unpack();
    download.unpacked(Err("no tar".to_string()));
    assert_eq!(download.outcome(), Err("no tar".to_string()));

    let mut download = download_up_to_unpack();
    download.unpacked(Ok(true));
    download.renamed(Err("not empty".to_string()));
    assert_eq!(download.outcome(), Err("not empty".to_string()));
}

#[test]
fn dsh_is_installed() {
    assert_eq!(FRESH_MANIFEST, "{\"name\":\"dsh-runtime\",\"private\":true}");
    let mut install = runtime().install_dsh("latest");
    assert_eq!(install.phase(), InstallPhase::MakeDir);
    install.dir_made(Ok(()));
    assert_eq!(install.phase(), InstallPhase::FindManifest);
    assert!(install.manifest_found(false).is_empty());
    assert_eq!(install.phase(), InstallPhase::WriteManifest);
    let notes = install.manifest_written(Ok(()));
    assert_eq!(shown(&notes), vec!["log npm install @deepseek-ai/dsh@latest"]);
    assert_eq!(install.phase(), InstallPhase::RunNpm);
    assert_eq!(
        install.npm_args(&runtime()),
        vec![
            "install",
            "--prefix",
            "/app/runtime",
            "--save-exact",
            "--no-audit",
            "--no-fund",
            "@deepseek-ai/dsh@latest",
        ]
    );
    install.npm_ran(Ok(Finished { success: true, stdout: Vec::new(), stderr: Vec::new() }));
    assert_eq!(install.phase(), InstallPhase::Done);
    assert_eq!(install.outcome(), Ok(()));
}

#[test]
fn manifest_is_kept() {
    let mut install = runtime().install_dsh("0.4.0");
    install.dir_made(Ok(()));
    let notes = install.manifest_found(true);
    assert_eq!(shown(&notes), vec!["log npm install @deepseek-ai/dsh@0.4.0"]);
    assert_eq!(install.phase(), InstallPhase::RunNpm);
    install.npm_ran(Ok(Finished { success: false, stdout: Vec::new(), stderr: b"E404".to_vec() }));
    assert_eq!(install.outcome(), Err("npm install 失败: E404".to_string()));
}

#[test]
fn install_errors() {
    let mut install = runtime().install_dsh("1");
    install.dir_made(Err("denied".to_string()));
    assert_eq!(install.outcome(), Err("denied".to_string()));

    let mut install = runtime().install_dsh("1");
    install.dir_made(Ok(()));
    install.manifest_found(false);
    assert!(install.manifest_written(Err("full".to_string())).is_empty());
    assert_eq!(install.outcome(), Err("full".to_string()));

    let mut install = runtime().install_dsh("1");
    install.dir_made(Ok(()));
    install.manifest_found(true);
    install.npm_ran(Err("npm 启动失败: x".to_string()));
    assert_eq!(install.outcome(), Err("npm 启动失败: x".to_string()));
}

fn check_with_installed(mode: UpdateMode) -> UpdateCheck {
    let (mut check, notes) = UpdateCheck::new(mode);
    assert_eq!(shown(&notes), vec!["status 正在检查更新…"]);
    assert_eq!(check.phase(), UpdatePhase::EnsureNode);
    assert!(check.node_ready(Ok((OsText::of("/n"), true))).is_empty());
    assert_eq!(check.node(), (OsText::of("/n"), true));
    assert_eq!(check.phase(), UpdatePhase::ReadInstalled);
    check.installed_read(Some("0.3.0".to_string()));
    assert_eq!(check.phase(), UpdatePhase::AskLatest);
    check
}

#[test]
fn update_is_installed_on_demand() {
    let mut check = check_with_installed(UpdateMode::Install);
    let notes = check.latest_asked(Some("0.4.0".to_string()));
    assert_eq!(shown(&notes), vec!["status 发现新版本 0.4.0（当前 0.3.0），正在下载…"]);
    assert_eq!(check.phase(), UpdatePhase::Install);
    assert_eq!(check.latest(), "0.4.0");
    let notes = check.installed(Ok(()));
    let text = "已更新到 0.4.0（原 0.3.0）。请从托盘菜单“重启 Harness”使新版本生效。";
    assert_eq!(
        shown(&notes),
        vec![
            "log update installed 0.4.0 (was 0.3.0)".to_string(),
            format!("log update check: {text}"),
            format!("info {text}"),
        ]
    );
    assert_eq!(check.phase(), UpdatePhase::Done);
}

#[test]
fn startup_check_only_informs() {
    let mut check = check_with_installed(UpdateMode::Inform);
    let notes = check.latest_asked(Some("0.4.0".to_string()));
    assert_eq!(check.phase(), UpdatePhase::Done);
    assert_eq!(
        shown(&notes),
        vec![
            "log update check: 发现新版本 0.4.0（当前 0.3.0）",
            "info 发现新版本 0.4.0（当前 0.3.0）",
        ]
    );
}

#[test]
fn update_fails_to_install() {
    let mut check = check_with_installed(UpdateMode::Install);
    check.latest_asked(Some("0.4.0".to_string()));
    let notes = check.installed(Err("npm install 失败: E404".to_string()));
    assert_eq!(
        shown(&notes),
        vec![
            "log update check: 更新到 0.4.0 失败：npm install 失败: E404",
            "info 更新到 0.4.0 失败：npm install 失败: E404",
        ]
    );
}

#[test]
fn nothing_newer() {
    for mode in [UpdateMode::Inform, UpdateMode::Install] {
        let mut check = check_with_installed(mode);
        let notes = check.latest_asked(Some("0.3.0".to_string()));
        assert_eq!(check.phase(), UpdatePhase::Done);
        assert_eq!(
            shown(&notes),
            vec!["log update check: 已是最新版本 0.3.0", "info 已是最新版本 0.3.0"]
        );
    }
}

#[test]
fn older_version_is_never_installed() {
    for mode in [UpdateMode::Inform, UpdateMode::Install] {
        for latest in ["0.2.9", "0.3.0-rc.1", "0.3", "0.3.0"] {
            let mut check = check_with_installed(mode);
            let notes = check.latest_asked(Some(latest.to_string()));
            assert_eq!(check.phase(), UpdatePhase::Done);
            assert_eq!(
                shown(&notes),
                vec!["log update check: 已是最新版本 0.3.0", "info 已是最新版本 0.3.0"]
            );
        }
    }
    let (mut check, _) = UpdateCheck::new(UpdateMode::Install);
    check.node_ready(Ok((OsText::of("/n"), true)));
    check.installed_read(Some("2.0.0".to_string()));
    check.latest_asked(Some("1.9.0".to_string()));
    assert_eq!(check.phase(), UpdatePhase::Done);
}

#[test]
fn answer_that_is_no_version() {
    let mut check = check_with_installed(UpdateMode::Install);
    let notes = check.latest_asked(Some("x".to_string()));
    assert_eq!(shown(&notes), vec!["status 发现新版本 x（当前 0.3.0），正在下载…"]);
    assert_eq!(check.phase(), UpdatePhase::Install);
    let notes = check.installed(Err("npm install 失败: E404".to_string()));
    assert_eq!(shown(&notes)[1], "info 更新到 x 失败：npm install 失败: E404");

    let (mut check, _) = UpdateCheck::new(UpdateMode::Inform);
    check.node_ready(Ok((OsText::of("/n"), true)));
    check.installed_read(Some("x".to_string()));
    let notes = check.latest_asked(Some("x".to_string()));
    assert_eq!(shown(&notes)[1], "info 已是最新版本 x");
}

#[test]
fn latest_version_is_asked_for() {
    let query = check_with_installed(UpdateMode::Inform).latest_query();
    assert_eq!((query.node, query.bundled), (OsText::of("/n"), true));
    assert_eq!(query.args, vec!["view", "@deepseek-ai/dsh", "version"]);
    assert_eq!(query.limit_nanos, 25_000_000_000);
}

#[test]
fn second_search_finds_the_same_node() {
    let rt = runtime();
    let mut first = rt.ensure_node(None);
    first.probed(false);
    first.looked_up(None);
    first.downloaded(Ok(()));
    first.probed(true);
    let mut second = rt.ensure_node(None);
    second.probed(true);
    assert_eq!(second.outcome(), first.outcome());
}

#[test]
fn registry_out_of_reach() {
    let mut check = check_with_installed(UpdateMode::Install);
    let notes = check.latest_asked(None);
    assert_eq!(check.phase(), UpdatePhase::Done);
    assert_eq!(
        shown(&notes),
        vec![
            "log update check: 检查更新失败：无法访问 npm registry",
            "info 检查更新失败：无法访问 npm registry",
        ]
    );
}

#[test]
fn update_check_without_node() {
    let (mut check, _) = UpdateCheck::new(UpdateMode::Install);
    let notes = check.node_ready(Err("offline".to_string()));
    assert_eq!(shown(&notes), vec!["info 检查更新失败：offline"]);
    assert_eq!(check.phase(), UpdatePhase::Done);
}

#[test]
fn nothing_installed_to_check() {
    let (mut check, _) = UpdateCheck::new(UpdateMode::Install);
    check.node_ready(Ok((OsText::of("/n"), false)));
    check.installed_read(None);
    assert_eq!(check.phase(), UpdatePhase::Done);
}
