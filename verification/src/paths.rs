//! File-system paths, held as text, and the standard directories that the
//! download manager writes to.
use vstd::prelude::*;

verus! {

/// The text of `Path::new(base).join(child)` on the build target. Joining is
/// decided by the platform's path rules alone, so equal arguments give equal
/// results on one target.
pub uninterp spec fn path_joined(base: Seq<char>, child: Seq<char>) -> Seq<char>;

/// `Path::join`: `child` appended to `base` with the platform separator
/// (or `child` alone when it is absolute). The text is named, not spelled out.
#[verifier::external_body]
pub(crate) fn join_path(base: &str, child: &str) -> (joined: String)
    ensures
        joined@ == path_joined(base@, child@),
{
    std::path::Path::new(base).join(child).to_string_lossy().into_owned()
}

/// The text of `Path::new(path).parent()`: `None` for a root or the empty
/// path, else everything before the last component (possibly empty).
pub uninterp spec fn path_parent(path: Seq<char>) -> Option<Seq<char>>;

/// `Path::parent`, as text; named by `path_parent`.
#[verifier::external_body]
pub(crate) fn parent_text(path: &str) -> (parent: Option<String>)
    ensures
        match parent {
            Some(p) => path_parent(path@) == Some(p@),
            None => path_parent(path@) is None,
        },
{
    std::path::Path::new(path).parent().map(|p| p.to_string_lossy().into_owned())
}

/// `dirs::config_dir`: the user's configuration directory, when the platform
/// defines one and its name is valid UTF-8. It depends on the environment, so
/// nothing is promised of the value.
#[verifier::external_body]
pub(crate) fn user_config_dir() -> (dir: Option<String>) {
    dirs::config_dir().and_then(|p| p.into_os_string().into_string().ok())
}

/// `dirs::download_dir`: the user's download directory, when the platform
/// defines one and its name is valid UTF-8. It depends on the environment, so
/// nothing is promised of the value.
#[verifier::external_body]
pub(crate) fn user_download_dir() -> (dir: Option<String>) {
    dirs::download_dir().and_then(|p| p.into_os_string().into_string().ok())
}

/// `dirs::home_dir`: the user's home directory, when known and valid UTF-8.
/// It depends on the environment, so nothing is promised of the value.
#[verifier::external_body]
pub(crate) fn user_home_dir() -> (dir: Option<String>) {
    dirs::home_dir().and_then(|p| p.into_os_string().into_string().ok())
}

/// `Path::exists`: whether something is at `path` now. It depends on the
/// disk, so nothing is promised of the answer.
#[verifier::external_body]
pub(crate) fn path_exists(path: &str) -> (b: bool) {
    std::path::Path::new(path).exists()
}

/// `Path::is_file`: whether a regular file is at `path` now. It depends on
/// the disk, so nothing is promised of the answer.
#[verifier::external_body]
pub(crate) fn path_is_file(path: &str) -> (b: bool) {
    std::path::Path::new(path).is_file()
}

/// `Path::is_dir`: whether a directory is at `path` now. It depends on the
/// disk, so nothing is promised of the answer.
#[verifier::external_body]
pub(crate) fn path_is_dir(path: &str) -> (b: bool) {
    std::path::Path::new(path).is_dir()
}

/// `dir`, or `.` when there is none.
pub open spec fn or_current(dir: Option<String>) -> Seq<char> {
    match dir {
        Some(d) => d@,
        None => "."@,
    }
}

/// The text of `dir`, or `.` when there is none.
pub fn dir_or_current(dir: Option<String>) -> (out: String)
    ensures
        out@ == or_current(dir),
{
    match dir {
        Some(d) => d,
        None => ".".to_owned(),
    }
}

/// The application's configuration directory: `loki-dm` under the user's
/// configuration directory, or under `.` when that is unknown.
pub fn app_config_dir() -> (dir: String)
    ensures
        exists|base: Option<String>| dir@ == path_joined(or_current(base), "loki-dm"@),
{
    let base = user_config_dir();
    let ghost b = base;
    let root = dir_or_current(base);
    join_path(root.as_str(), "loki-dm")
}

/// The default download directory: the user's download directory, or `.`.
pub fn default_download_dir() -> (dir: String)
    ensures
        exists|base: Option<String>| dir@ == or_current(base),
{
    let base = user_download_dir();
    let ghost b = base;
    dir_or_current(base)
}

} // verus!
