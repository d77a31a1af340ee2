# DSH Client

The verified core of a macOS desktop shell around the official `@deepseek-ai/dsh`
package: it finds or downloads Node.js, installs dsh from npm, runs `dsh web`, reads
the authenticated URL that it prints, watches it, and checks for updates.

- `src/` holds every decision, proved with Verus. A procedure that depends on files,
  processes or the network is a state machine: `phase()` names the outside work that
  comes next, and one method takes its result and returns what to log and to show.
  Each module ends with the laws of its procedure.
- `app/` does the outside work: environment, files, child processes, threads, and the
  event loop of `tao`.
- `tests/` runs the library on concrete values and compares its text and path rules
  with the standard library.

What is trusted: `dirs::home_dir` for the user's home directory, and
`String::from_utf8_lossy` for the output of child processes (`src/os.rs`).

Environment: `DSHCLIENT_HOME` replaces the application's home
(`~/Library/Application Support/DSH Client`), `DSHCLIENT_NODE` names a Node binary.
