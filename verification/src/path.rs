//! Lexical path resolution against a configuration root.
//!
//! Paths are UTF-8 texts. Joining, absoluteness and extensions follow the
//! rules of the platform the crate is built for, as `camino` applies them;
//! the contracts name those results and never open a file.

use vstd::prelude::*;
use vstd::string::StringExecFns;
use vstd::string::StrSliceExecFns;
use camino::Utf8Path;
use camino::Utf8PathBuf;
use directories::BaseDirs;

verus! {

/// `tail` adjoined to `base` by the platform's path rules.
pub uninterp spec fn joined_path(base: Seq<char>, tail: Seq<char>) -> Seq<char>;

/// Whether `path` is absolute by the platform's path rules.
pub uninterp spec fn path_is_absolute(path: Seq<char>) -> bool;

/// The extension of the file that `path` names, if it has one.
pub uninterp spec fn path_extension(path: Seq<char>) -> Option<Seq<char>>;

/// `camino::Utf8Path::join`: the path that adjoins `tail` to `base`. It depends
/// on the two texts alone; the contract names it and claims nothing more.
#[verifier::external_body]
pub(crate) fn join_path(base: &str, tail: &str) -> (joined: String)
    ensures
        joined@ == joined_path(base@, tail@),
{
    Utf8Path::new(base).join(tail).into_string()
}

/// `camino::Utf8Path::is_absolute`: whether the text is an absolute path. It
/// depends on the text alone; the contract names it and claims nothing more.
#[verifier::external_body]
pub(crate) fn is_absolute(path: &str) -> (absolute: bool)
    ensures
        absolute == path_is_absolute(path@),
{
    Utf8Path::new(path).is_absolute()
}

/// `camino::Utf8Path::extension`: the part of the file name after its last
/// dot. It depends on the text alone; the contract names it and claims
/// nothing more.
#[verifier::external_body]
pub(crate) fn extension_of(path: &str) -> (extension: Option<String>)
    ensures
        extension.deep_view() == path_extension(path@),
{
    Utf8Path::new(path).extension().map(str::to_owned)
}

/// What the operating system says of the user's home directory.
#[derive(Debug, Clone, PartialEq, Eq)]
pub enum HomeDirectory {
    /// The system names no home directory.
    Unavailable,
    /// The home directory's path is not valid UTF-8.
    NotUtf8,
    /// The home directory.
    Found(String),
}

pub enum HomeDirectoryView {
    Unavailable,
    NotUtf8,
    Found(Seq<char>),
}

impl View for HomeDirectory {
    type V = HomeDirectoryView;

    open spec fn view(&self) -> HomeDirectoryView {
        match self {
            HomeDirectory::Unavailable => HomeDirectoryView::Unavailable,
            HomeDirectory::NotUtf8 => HomeDirectoryView::NotUtf8,
            HomeDirectory::Found(path) => HomeDirectoryView::Found(path@),
        }
    }
}

/// `directories::BaseDirs::new` and `home_dir`, with the path converted by
/// `camino::Utf8PathBuf::from_path_buf`. The answer depends on the
/// environment, so the contract promises nothing of it.
#[verifier::external_body]
fn lookup_home() -> HomeDirectory {
    match BaseDirs::new() {
        None => HomeDirectory::Unavailable,
        Some(dirs) => match Utf8PathBuf::from_path_buf(dirs.home_dir().to_path_buf()) {
            Ok(path) => HomeDirectory::Found(path.into_string()),
            Err(_) => HomeDirectory::NotUtf8,
        },
    }
}

impl HomeDirectory {
    /// Asks the operating system for the user's home directory.
    pub fn current() -> HomeDirectory {
        lookup_home()
    }
}

/// Why a path could not be resolved.
#[derive(Debug, Clone, Copy, PartialEq, Eq, Structural)]
pub enum ResolutionError {
    /// The path starts with `~/` and the system names no home directory.
    HomeUnavailable,
    /// The path starts with `~/` and the home directory is not valid UTF-8.
    HomeNotUtf8,
}

impl ResolutionError {
    /// The sentence that reports this error.
    pub open spec fn reason(self) -> Seq<char> {
        match self {
            ResolutionError::HomeUnavailable => "cannot resolve '~' without home directory"@,
            ResolutionError::HomeNotUtf8 => "home directory is not valid UTF-8"@,
        }
    }

    /// The sentence that reports this error.
    pub fn message(&self) -> (text: String)
        ensures
            text@ == self.reason(),
    {
        match self {
            ResolutionError::HomeUnavailable => String::from_str(
                "cannot resolve '~' without home directory",
            ),
            ResolutionError::HomeNotUtf8 => String::from_str("home directory is not valid UTF-8"),
        }
    }
}

/// What follows `~/` in `path`, where `path` starts with it.
pub open spec fn home_relative(path: Seq<char>) -> Option<Seq<char>> {
    if path.len() >= 2 && path[0] == '~' && path[1] == '/' {
        Some(path.skip(2))
    } else {
        None
    }
}

/// The absolute form of `path`: under the home directory where it starts
/// with `~/`, itself where it is absolute, under `root` otherwise.
pub open spec fn resolved_path(root: Seq<char>, path: Seq<char>, home: HomeDirectoryView) -> Result<
    Seq<char>,
    ResolutionError,
> {
    match home_relative(path) {
        Some(rest) => match home {
            HomeDirectoryView::Unavailable => Err(ResolutionError::HomeUnavailable),
            HomeDirectoryView::NotUtf8 => Err(ResolutionError::HomeNotUtf8),
            HomeDirectoryView::Found(directory) => Ok(joined_path(directory, rest)),
        },
        None => if path_is_absolute(path) {
            Ok(path)
        } else {
            Ok(joined_path(root, path))
        },
    }
}

/// The view of a resolution's outcome.
pub open spec fn resolution_view(outcome: Result<String, ResolutionError>) -> Result<
    Seq<char>,
    ResolutionError,
> {
    match outcome {
        Ok(path) => Ok(path@),
        Err(error) => Err(error),
    }
}

/// Resolves `path` against `root` and the user's home directory, without
/// touching the file system.
pub fn resolve_path(root: &str, path: &str, home: &HomeDirectory) -> (outcome: Result<
    String,
    ResolutionError,
>)
    ensures
        resolution_view(outcome) == resolved_path(root@, path@, home@),
{
    let len = path.unicode_len();
    if len >= 2 && path.get_char(0) == '~' && path.get_char(1) == '/' {
        match home {
            HomeDirectory::Unavailable => Err(ResolutionError::HomeUnavailable),
            HomeDirectory::NotUtf8 => Err(ResolutionError::HomeNotUtf8),
            HomeDirectory::Found(directory) => {
                let rest = path.substring_char(2, len);
                assert(rest@ =~= path@.skip(2));
                Ok(join_path(directory.as_str(), rest))
            },
        }
    } else if is_absolute(path) {
        Ok(String::from_str(path))
    } else {
        Ok(join_path(root, path))
    }
}

} // verus!
