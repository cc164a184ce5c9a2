//! File locations inside the application data directory.

use vstd::prelude::*;
use std::path::{Path, PathBuf};
use crate::session_names::{session_csv_name, session_csv_name_exec, session_file_name, session_file_name_exec};
use crate::sessions::SessionMeta;

verus! {

#[verifier::external_type_specification]
#[verifier::external_body]
pub struct ExPathBuf(PathBuf);

#[verifier::external_type_specification]
#[verifier::external_body]
pub struct ExPath(Path);

/// The path that `Path::join(dir, name)` produces.
pub uninterp spec fn joined_path(dir: &Path, name: Seq<char>) -> PathBuf;

/// `dir.join(name)` (`Path::join`).
#[verifier::external_body]
fn join_path(dir: &Path, name: &str) -> (p: PathBuf)
    ensures
        p == joined_path(dir, name@),
{
    dir.join(name)
}

/// Location of the debug log inside `dir`.
pub fn debug_log_path(dir: &Path) -> (p: PathBuf)
    ensures
        p == joined_path(dir, "rigstats-debug.log"@),
{
    join_path(dir, "rigstats-debug.log")
}

/// Location of the previous run's debug log, kept across one restart.
pub fn prev_debug_log_path(dir: &Path) -> (p: PathBuf)
    ensures
        p == joined_path(dir, "rigstats-debug-prev.log"@),
{
    join_path(dir, "rigstats-debug-prev.log")
}

/// Location of the session index.
pub fn sessions_index_path(dir: &Path) -> (p: PathBuf)
    ensures
        p == joined_path(dir, "rigstats-sessions.json"@),
{
    join_path(dir, "rigstats-sessions.json")
}

/// Location of the last-known-good copy of the session index.
pub fn backup_index_path(dir: &Path) -> (p: PathBuf)
    ensures
        p == joined_path(dir, "rigstats-sessions.json.bak"@),
{
    join_path(dir, "rigstats-sessions.json.bak")
}

/// Where a session index that failed to parse is set aside for recovery.
pub fn corrupt_index_path(dir: &Path) -> (p: PathBuf)
    ensures
        p == joined_path(dir, "rigstats-sessions.json.corrupt"@),
{
    join_path(dir, "rigstats-sessions.json.corrupt")
}

/// The lock file that serialises changes to the session index between processes.
pub fn sessions_lock_path(dir: &Path) -> (p: PathBuf)
    ensures
        p == joined_path(dir, "rigstats-sessions.lock"@),
{
    join_path(dir, "rigstats-sessions.lock")
}

/// Returns the CSV file path for a (non-legacy) session id.
pub fn session_csv_path(dir: &Path, id: &str) -> (p: PathBuf)
    ensures
        p == joined_path(dir, session_csv_name(id@)),
{
    let name = session_csv_name_exec(id);
    join_path(dir, name.as_str())
}

/// Resolves the CSV file backing `meta` — a `rigstats-session-<id>.csv` for
/// sessions created under the session model, or the pre-session daily log
/// `rigstats-log-YYYY-MM-DD.csv` for imported legacy sessions.
pub fn session_file_path<S>(dir: &Path, meta: &SessionMeta<S>) -> (p: PathBuf)
    ensures
        p == joined_path(dir, session_file_name(meta@)),
{
    let name = session_file_name_exec(meta);
    join_path(dir, name.as_str())
}

} // verus!
