//! The configuration of the history store and its socket.

use vstd::prelude::*;
use crate::entry::opt_view;
use crate::paths::{path_join, spec_path_join};

verus! {

/// Where the history and the socket live, and the limits the daemon applies.
#[derive(Debug, Clone, PartialEq, Eq)]
pub struct Config {
    /// How many unpinned entries the history keeps.
    pub max_history: usize,
    pub history_path: String,
    pub socket_path: String,
    /// Polling interval in milliseconds for clipboard changes
    pub poll_interval_ms: u64,
    /// Maximum size in bytes for a single clipboard entry (0 = unlimited)
    pub max_entry_bytes: usize,
}

/// Reads the user's data directory from the environment.
///
/// Calls `dirs::data_dir`, whose result depends on the environment
/// (`$XDG_DATA_HOME` or `$HOME` on Linux); nothing is stated of it. The
/// library holds paths as strings, so a directory whose name is not UTF-8
/// comes back with its invalid bytes replaced by U+FFFD.
#[verifier::external_body]
fn user_data_dir() -> Option<String> {
    dirs::data_dir().map(|p| p.to_string_lossy().into_owned())
}

/// Reads the user's runtime directory from the environment.
///
/// Calls `dirs::runtime_dir`, whose result depends on the environment
/// (`$XDG_RUNTIME_DIR` on Linux); nothing is stated of it. A name that is
/// not UTF-8 comes back with its invalid bytes replaced by U+FFFD.
#[verifier::external_body]
fn user_runtime_dir() -> Option<String> {
    dirs::runtime_dir().map(|p| p.to_string_lossy().into_owned())
}

/// The default history file, under the data directory `data_dir` (or
/// `~/.local/share` when there is none).
pub open spec fn default_history_path(data_dir: Option<Seq<char>>) -> Seq<char> {
    let base = match data_dir {
        Some(d) => d,
        None => "~/.local/share"@,
    };
    spec_path_join(spec_path_join(base, "yoinker"@), "history.json"@)
}

/// The default socket, under the runtime directory `runtime_dir` (or `/tmp`
/// when there is none).
pub open spec fn default_socket_path(runtime_dir: Option<Seq<char>>) -> Seq<char> {
    let base = match runtime_dir {
        Some(d) => d,
        None => "/tmp"@,
    };
    spec_path_join(base, "yoinker.sock"@)
}

/// The default limits: fifty unpinned entries, a half-second poll and ten
/// mebibytes per entry.
pub open spec fn has_default_limits(c: Config) -> bool {
    &&& c.max_history == 50
    &&& c.poll_interval_ms == 500
    &&& c.max_entry_bytes == 10 * 1024 * 1024
}

impl Config {
    /// The default configuration, given the user's data and runtime
    /// directories.
    pub fn from_dirs(data_dir: Option<String>, runtime_dir: Option<String>) -> (r: Config)
        ensures
            has_default_limits(r),
            r.history_path@ == default_history_path(opt_view(data_dir)),
            r.socket_path@ == default_socket_path(opt_view(runtime_dir)),
    {
        let data = match data_dir {
            Some(d) => d,
            None => String::from_str("~/.local/share"),
        };
        let dir = path_join(data.as_str(), "yoinker");
        let history_path = path_join(dir.as_str(), "history.json");
        let runtime = match runtime_dir {
            Some(d) => d,
            None => String::from_str("/tmp"),
        };
        let socket_path = path_join(runtime.as_str(), "yoinker.sock");
        Config {
            max_history: 50,
            history_path,
            socket_path,
            poll_interval_ms: 500,
            max_entry_bytes: 10 * 1024 * 1024,
        }
    }

    /// A copy of the configuration.
    pub fn duplicate(&self) -> (r: Config)
        ensures
            r.max_history == self.max_history,
            r.history_path@ == self.history_path@,
            r.socket_path@ == self.socket_path@,
            r.poll_interval_ms == self.poll_interval_ms,
            r.max_entry_bytes == self.max_entry_bytes,
    {
        Config {
            max_history: self.max_history,
            history_path: self.history_path.clone(),
            socket_path: self.socket_path.clone(),
            poll_interval_ms: self.poll_interval_ms,
            max_entry_bytes: self.max_entry_bytes,
        }
    }
}

impl Default for Config {
    /// The default configuration for the user's directories.
    fn default() -> (r: Config)
        ensures
            has_default_limits(r),
            exists|d: Option<Seq<char>>, rt: Option<Seq<char>>|
                r.history_path@ == default_history_path(d) && r.socket_path@
                    == default_socket_path(rt),
    {
        let r = Config::from_dirs(user_data_dir(), user_runtime_dir());
        r
    }
}

/// A configuration for tests, with every file under `tmp_dir`.
pub fn test_config(tmp_dir: &str) -> (r: Config)
    ensures
        r.max_history == 5,
        r.history_path@ == spec_path_join(tmp_dir@, "history.json"@),
        r.socket_path@ == spec_path_join(tmp_dir@, "yoinker-test.sock"@),
        r.poll_interval_ms == 100,
        r.max_entry_bytes == 1024,
{
    Config {
        max_history: 5,
        history_path: path_join(tmp_dir, "history.json"),
        socket_path: path_join(tmp_dir, "yoinker-test.sock"),
        poll_interval_ms: 100,
        max_entry_bytes: 1024,
    }
}

} // verus!
