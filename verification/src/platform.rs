//! Paths, scheduler definitions, notifications, and the log.
//!
//! The scheduler is the operating system's: launchd on macOS, Task Scheduler on Windows. Which
//! one a machine has is a value here rather than a build setting, so both can be stated and
//! checked on either.

pub mod elements;
pub mod launchd;
pub mod log;
pub mod notify;
pub mod schtasks;

/// The lifecycle vocabulary is Tycho's own, not any one scheduler's: which agent,
/// what it runs, whether it is registered, and how its last invocation ended.
pub use launchd::{Agent, Ended, Job, Loaded};

use crate::config;
use crate::config::rules::Path;
use crate::octets;
use crate::primitives::path;
use crate::primitives::path::{AbsPath, PathError, PathFault, Vars};
use crate::text::cat2;
use vstd::prelude::*;
use vstd::utf8::*;

verus! {

/// The system a machine runs.
#[derive(Clone, Copy, Debug, PartialEq, Eq, Structural)]
pub enum Host {
    MacOs,
    Windows,
    Other,
}

/// Whether a path is what a text names, or the error what is wrong with it.
pub open spec fn names_path(
    named: Result<Path, PathFault>,
    out: Result<AbsPath, PathError>,
) -> bool {
    match out {
        Ok(p) => named == Ok::<Path, PathFault>(p@),
        Err(e) => named == Err::<Path, PathFault>(e@),
    }
}

/// The config file a human is expected to open and edit.
///
/// Built from the home directory plus `.config/tycho`, deliberately rather than from
/// the platform's own config directory. The state, store and log paths do follow the
/// platform's conventions; a hand-edited file does not.
///
/// # Errors
///
/// If there is no home directory.
pub fn config_path(home: Option<&str>, vars: &Vars) -> (out: Result<AbsPath, PathError>)
    ensures
        names_path(
            path::resolved("~/.config/tycho/tycho.toml"@, path::view_str_opt(home), *vars),
            out,
        ),
{
    AbsPath::parse_in("~/.config/tycho/tycho.toml", home, vars)
}

impl Host {
    /// Where the data the platform's conventions do cover lives.
    ///
    /// `~/AppData/Local` on Windows rather than `Roaming`: the store is a git repository
    /// that grows without bound, and Roaming is copied to a domain controller at every
    /// logon.
    pub open spec fn data(self) -> Seq<char> {
        match self {
            Host::Windows => "~/AppData/Local/tycho"@,
            _ => "~/Library/Application Support/tycho"@,
        }
    }

    pub open spec fn logs(self) -> Seq<char> {
        match self {
            Host::Windows => "~/AppData/Local/tycho/logs"@,
            _ => "~/Library/Logs/tycho"@,
        }
    }

    fn data_text(self) -> (out: &'static str)
        ensures
            out@ == self.data(),
    {
        match self {
            Host::Windows => "~/AppData/Local/tycho",
            _ => "~/Library/Application Support/tycho",
        }
    }

    fn log_text(self) -> (out: &'static str)
        ensures
            out@ == self.logs(),
    {
        match self {
            Host::Windows => "~/AppData/Local/tycho/logs",
            _ => "~/Library/Logs/tycho",
        }
    }
}

/// # Errors
///
/// If there is no home directory.
pub fn data_dir(host: Host, home: Option<&str>, vars: &Vars) -> (out: Result<AbsPath, PathError>)
    ensures
        names_path(path::resolved(host.data(), path::view_str_opt(home), *vars), out),
{
    AbsPath::parse_in(host.data_text(), home, vars)
}

/// A name under a directory, written out.
pub open spec fn under_raw(dir: Path, name: Seq<char>) -> Seq<u8> {
    path::written(dir) + seq![path::separator(dir)] + encode_utf8(name)
}

/// A name under a directory.
pub fn under(dir: &AbsPath, name: &str) -> (out: Vec<u8>)
    ensures
        out@ == under_raw(dir@, name@),
{
    let mut raw = dir.as_path();
    raw.push(dir.separator());
    octets::extend(&mut raw, name.as_bytes());
    assert(raw@ =~= under_raw(dir@, name@));
    raw
}

/// Where a profile's store is.
pub open spec fn store_at(
    profile: Seq<char>,
    given: Option<Path>,
    host: Host,
    home: Option<Seq<char>>,
    vars: Vars,
) -> Result<Path, PathFault> {
    let dir = match given {
        Some(dir) => Ok(dir),
        None => path::resolved(host.data() + "/store"@, home, vars),
    };
    match dir {
        Err(e) => Err(e),
        Ok(dir) => {
            let raw = under_raw(dir, profile + ".git"@);
            path::cleaned_on(path::has_drive(dir), raw, octets::lossy(raw))
        },
    }
}

/// `<data>/store/<profile>.git`, unless the profile overrides the directory.
///
/// # Errors
///
/// If there is no home directory.
pub fn store_path(
    profile: &str,
    override_dir: Option<&AbsPath>,
    host: Host,
    home: Option<&str>,
    vars: &Vars,
) -> (out: Result<AbsPath, PathError>)
    ensures
        names_path(
            store_at(
                profile@,
                match override_dir {
                    Some(dir) => Some(dir@),
                    None => None,
                },
                host,
                path::view_str_opt(home),
                *vars,
            ),
            out,
        ),
{
    let dir = match override_dir {
        Some(dir) => dir.clone(),
        None => {
            let store = cat2(host.data_text(), "/store");
            match AbsPath::parse_in(&store, home, vars) {
                Ok(dir) => dir,
                Err(e) => return Err(e),
            }
        },
    };
    let name = cat2(profile, ".git");
    AbsPath::from_absolute_on(dir.on_drive(), &under(&dir, &name))
}

/// # Errors
///
/// If there is no home directory.
pub fn state_path(host: Host, home: Option<&str>, vars: &Vars) -> (out: Result<
    AbsPath,
    PathError,
>)
    ensures
        names_path(
            path::resolved(host.data() + "/state.json"@, path::view_str_opt(home), *vars),
            out,
        ),
{
    let state = cat2(host.data_text(), "/state.json");
    AbsPath::parse_in(&state, home, vars)
}

/// # Errors
///
/// If there is no home directory.
pub fn log_dir(host: Host, home: Option<&str>, vars: &Vars) -> (out: Result<AbsPath, PathError>)
    ensures
        names_path(path::resolved(host.logs(), path::view_str_opt(home), *vars), out),
{
    AbsPath::parse_in(host.log_text(), home, vars)
}

/// A store is kept in its own directory, `<profile>.git`, in the place it was given.
pub proof fn a_store_has_its_own_directory(
    profile: Seq<char>,
    dir: Path,
    host: Host,
    home: Option<Seq<char>>,
    vars: Vars,
)
    requires
        path::absolute_parts(dir),
        path::is_component(encode_utf8(profile + ".git"@)),
        !encode_utf8(profile + ".git"@).contains(path::BACKSLASH),
    ensures
        store_at(profile, Some(dir), host, home, vars) == Ok::<Path, PathFault>(
            dir.push(encode_utf8(profile + ".git"@)),
        ),
{
    lemma_beneath(dir, profile + ".git"@);
}

/// One name beneath a directory is a path one component longer.
pub proof fn lemma_beneath(dir: Path, name: Seq<char>)
    requires
        path::absolute_parts(dir),
        path::is_component(encode_utf8(name)),
        !encode_utf8(name).contains(path::BACKSLASH),
    ensures
        path::cleaned_on(path::has_drive(dir), under_raw(dir, name), octets::lossy(under_raw(dir, name)))
            == Ok::<Path, PathFault>(dir.push(encode_utf8(name))),
{
    let raw = under_raw(dir, name);
    let part = encode_utf8(name);
    path::lemma_components_beneath(dir, part, octets::lossy(raw));
    assert(path::forward(part) =~= part) by {
        assert forall|i: int| 0 <= i < part.len() implies part[i] != path::BACKSLASH by {
            if part[i] == path::BACKSLASH {
                assert(part.contains(path::BACKSLASH));
            }
        }
    }
    path::lemma_split_join(seq![part], path::SLASH);
    assert(crate::text::join(seq![part], seq![path::SLASH]) == part);
    path::lemma_named_keeps(seq![part]);
    assert(path::components(part) =~= seq![part]);
    if seq![part].contains(path::dot_dot()) {
        assert(seq![part][0] == path::dot_dot());
    }
    assert(dir + seq![part] =~= dir.push(part));
}

} // verus!
