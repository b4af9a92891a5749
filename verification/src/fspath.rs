use vstd::prelude::*;
use crate::SupError;
use crate::codec::ser_config;
use crate::codec::ConfigV;
use crate::codec::config_to_json;
use crate::config::LocalConfig;

verus! {

/// Relies on `std::path::Path::is_dir`: whether the path names an
/// existing directory (following symlinks).  The answer depends on
/// the filesystem, so nothing is promised of it.
#[verifier::external_body]
fn path_is_dir(path: &str) -> bool {
    std::path::Path::new(path).is_dir()
}

/// Relies on `std::path::Path::canonicalize`: the canonical absolute
/// form of the path, with symlinks and relative segments resolved, or
/// the OS error.  The answer depends on the filesystem, so nothing is
/// promised of it.
#[verifier::external_body]
fn path_canonicalize(path: &str) -> Result<String, ()> {
    match std::path::Path::new(path).canonicalize() {
        Ok(p) => Ok(p.to_string_lossy().to_string()),
        Err(_) => Err(()),
    }
}

/// Resolves a folder path to its canonical absolute form; a path that
/// does not name an existing directory is rejected as
/// `NotADirectory`, carrying the path as given.
pub fn normalize_folder(path: &str) -> (r: Result<String, SupError>)
    ensures
        r matches Err(e) ==> e matches SupError::NotADirectory(d) && d@ == path@,
{
    if !path_is_dir(path) {
        return Err(SupError::NotADirectory(path.to_owned()));
    }
    match path_canonicalize(path) {
        Ok(c) => Ok(c),
        Err(_) => Err(SupError::NotADirectory(path.to_owned())),
    }
}

/// Where the configuration document lives under a data directory.
pub fn config_path(data_dir: &str) -> (r: String)
    ensures
        r@ == data_dir@ + "/config.json"@,
{
    data_dir.to_owned().concat("/config.json")
}

/// The sibling the document is written to before the atomic rename.
pub fn config_temp_path(data_dir: &str) -> (r: String)
    ensures
        r@ == data_dir@ + "/config.tmp"@,
{
    data_dir.to_owned().concat("/config.tmp")
}

/// The directory holding the backend log file.
pub fn backend_logs_dir(data_dir: &str) -> (r: String)
    ensures
        r@ == data_dir@ + "/logs"@,
{
    data_dir.to_owned().concat("/logs")
}

/// The append-only backend log file, stable across restarts.
pub fn backend_log_path(data_dir: &str) -> (r: String)
    ensures
        r@ == data_dir@ + "/logs/backend.log"@,
{
    data_dir.to_owned().concat("/logs/backend.log")
}

/// The backend entry script, relative to the application's own
/// directory.
pub fn backend_script_path(app_dir: &str) -> (r: String)
    ensures
        r@ == app_dir@ + "/../../backend/main.py"@,
{
    app_dir.to_owned().concat("/../../backend/main.py")
}

/// Everything an atomic configuration write needs: write `contents`
/// to `temp_path`, remove any file at `final_path`, rename
/// `temp_path` onto `final_path`.  A reader then sees the old
/// complete document or the new complete one, never a torn write.
pub struct WritePlan {
    pub temp_path: String,
    pub final_path: String,
    pub contents: String,
}

/// Lays out the atomic write of one document under a data directory.
pub fn write_config_plan(data_dir: &str, config: &LocalConfig) -> (r: WritePlan)
    ensures
        r.temp_path@ == data_dir@ + "/config.tmp"@,
        r.final_path@ == data_dir@ + "/config.json"@,
        r.contents@ == ser_config(config@),
{
    WritePlan {
        temp_path: config_temp_path(data_dir),
        final_path: config_path(data_dir),
        contents: config_to_json(config),
    }
}

/// The default document's mathematical content: no folders, shell
/// off, history on.
pub open spec fn default_config_v() -> ConfigV {
    ConfigV { folders: Seq::empty(), shell_enabled: false, history_enabled: true }
}

/// First-access behaviour of the store: with the document present
/// nothing is written; without it the default document is written,
/// atomically.
pub fn ensure_config_exists(data_dir: &str, config_file_exists: bool) -> (r: Option<WritePlan>)
    ensures
        config_file_exists ==> r is None,
        !config_file_exists ==> (r matches Some(p) && p.temp_path@ == data_dir@ + "/config.tmp"@
            && p.final_path@ == data_dir@ + "/config.json"@ && p.contents@ == ser_config(
            default_config_v(),
        )),
{
    if config_file_exists {
        return None;
    }
    let def = LocalConfig::default();
    proof {
        assert(def@ == default_config_v());
    }
    Some(write_config_plan(data_dir, &def))
}

} // verus!
