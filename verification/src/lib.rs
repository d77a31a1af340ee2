//! The decisions of a desktop shell around the official `@deepseek-ai/dsh` package.
//!
//! `runtime` says where everything lives. `node`, `download` and `install` bring Node
//! and dsh there. `session` runs `dsh web` once, `update` checks for a newer version,
//! and `worker` answers the commands of the user interface. Each procedure names the
//! outside work that it waits for and takes the result back; `command`, `npm`,
//! `fetch` and `reap` describe the child processes and read what they leave behind;
//! `version` tells which of two versions is newer, and `releases` which release of
//! Node is preferred.
pub mod command;
pub mod download;
pub mod fetch;
pub mod install;
pub mod messages;
pub mod nesting;
pub mod node;
pub mod npm;
pub mod os;
pub mod reap;
pub mod releases;
pub mod runtime;
pub mod scan;
pub mod session;
pub mod text;
pub mod update;
pub mod version;
pub mod worker;
