//! Layer 3. The TOML schema, its validation, and the rule tree. Pure: no IO, so
//! rule resolution is testable with plain values.

pub mod check;
pub mod findings;
pub mod kept;
pub mod local;
pub mod moment;
pub mod order;
pub mod precedence;
pub mod raw;
pub mod rules;
pub mod schedule;
pub mod validate;

pub use check::{Diagnostic, DiagnosticKind, Severity};
pub use schedule::{
    grace, parse_interval, Duration, Schedule, TimeOfDay, Weekday,
};

use crate::text;
use crate::primitives::names;
use crate::primitives::encode;
use crate::config::precedence::default_junk;
use crate::config::raw::{RawConfig, VersionProbe, VERSION};
use crate::config::rules::{Path, RuleSet};
use crate::primitives::names::{AliasError, ProfileName, RemoteName, RootAlias};
use crate::primitives::path;
use crate::primitives::path::{AbsPath, Vars};
use crate::text::{cat2, cat3, decimal, same};
use vstd::prelude::*;

verus! {

/// A watched root, and the name it gets inside the store. A sum type rather than a
/// struct with an optional name, so "named" and "defaulted" cannot both be true.
#[derive(Debug, PartialEq, Eq)]
pub enum WatchEntry {
    Bare(AbsPath),
    Named { path: AbsPath, name: RootAlias },
}

/// A watched root as its path and its explicit name, if it has one.
pub struct WatchView {
    pub path: Path,
    pub name: Option<Seq<char>>,
}

impl View for WatchEntry {
    type V = WatchView;

    open spec fn view(&self) -> WatchView {
        match self {
            WatchEntry::Bare(path) => WatchView { path: path@, name: None },
            WatchEntry::Named { path, name } => WatchView { path: path@, name: Some(name@) },
        }
    }
}

impl WatchView {
    /// The alias this root's content is stored under: the explicit name, or the
    /// root's last path component. `None` where that component can be no alias.
    pub open spec fn alias(self) -> Option<Seq<char>> {
        match self.name {
            Some(name) => Some(name),
            None => if self.path.len() > 0 && !path::is_drive(self.path.last())
                && names::encodable_alias(self.path.last()) {
                Some(encode::percent_encoded(self.path.last()))
            } else {
                None
            },
        }
    }

    /// Whether this is what is wrong with the alias.
    pub open spec fn alias_refused(self, e: AliasError) -> bool {
        &&& self.name is None
        &&& if self.path.len() == 0 || path::is_drive(self.path.last()) {
            e is Empty
        } else {
            e.refuses_component(self.path.last())
        }
    }
}

impl WatchEntry {
    #[must_use]
    pub fn path(&self) -> (out: &AbsPath)
        ensures
            out@ == self@.path,
    {
        match self {
            WatchEntry::Bare(path) => path,
            WatchEntry::Named { path, .. } => path,
        }
    }

    /// The alias this root's content is stored under: the explicit name, or the
    /// root's last path component.
    ///
    /// # Errors
    ///
    /// If the last component is not usable as an alias - a leading dot, a `.lock`
    /// suffix, or the reserved `.tycho`.
    pub fn alias(&self) -> (out: Result<RootAlias, AliasError>)
        ensures
            match out {
                Ok(alias) => self@.alias() == Some(alias@),
                Err(e) => self@.alias() is None && self@.alias_refused(e),
            },
    {
        match self {
            WatchEntry::Named { name, .. } => Ok(name.clone()),
            WatchEntry::Bare(path) => {
                let parts = path.parts();
                if parts.len() == 0 || (parts.len() == 1 && path.on_drive()) {
                    return Err(AliasError::Empty);
                }
                let last = &parts[parts.len() - 1];
                assert(crate::octets::byte_views(parts@)[parts@.len() - 1] == last@);
                proof {
                    path::lemma_last_is_no_drive(path@);
                }
                match RootAlias::from_component(last) {
                    Ok(alias) => Ok(alias),
                    Err(e) => {
                        proof {
                            lemma_refused_component(last@, e);
                        }
                        Err(e)
                    },
                }
            },
        }
    }
}

/// A component that is refused is none that could be encoded.
pub proof fn lemma_refused_component(raw: Seq<u8>, e: AliasError)
    requires
        e.refuses_component(raw),
    ensures
        !names::encodable_alias(raw),
{
}

#[derive(Clone, Copy, Debug, PartialEq, Eq, Structural)]
pub enum LogLevel {
    Error,
    Warn,
    Info,
    Debug,
}

impl Default for LogLevel {
    fn default() -> (out: Self)
        ensures
            out == LogLevel::Info,
    {
        LogLevel::Info
    }
}

impl LogLevel {
    /// The word a level is written as.
    pub open spec fn word(self) -> Seq<char> {
        match self {
            LogLevel::Error => "error"@,
            LogLevel::Warn => "warn"@,
            LogLevel::Info => "info"@,
            LogLevel::Debug => "debug"@,
        }
    }

    /// # Errors
    ///
    /// If the text is not one of the four levels.
    pub fn parse(text: &str) -> (out: Result<LogLevel, String>)
        ensures
            match out {
                Ok(level) => text@ == level.word(),
                Err(e) => {
                    &&& forall|level: LogLevel| text@ != #[trigger] level.word()
                    &&& e@ == "'"@ + text@ + "' is not a log level"@
                },
            },
    {
        if same(text, "error") {
            Ok(LogLevel::Error)
        } else if same(text, "warn") {
            Ok(LogLevel::Warn)
        } else if same(text, "info") {
            Ok(LogLevel::Info)
        } else if same(text, "debug") {
            Ok(LogLevel::Debug)
        } else {
            Err(cat3("'", text, "' is not a log level"))
        }
    }
}

/// The four words are four different words.
pub proof fn log_levels_have_distinct_words(a: LogLevel, b: LogLevel)
    requires
        a.word() == b.word(),
    ensures
        a == b,
{
    reveal_strlit("error");
    reveal_strlit("warn");
    reveal_strlit("info");
    reveal_strlit("debug");
    assert(LogLevel::Error.word()[0] == 'e');
    assert(LogLevel::Warn.word()[0] == 'w');
    assert(LogLevel::Info.word()[0] == 'i');
    assert(LogLevel::Debug.word()[0] == 'd');
}

#[derive(Debug, PartialEq, Eq)]
pub struct Remote {
    /// A label, not a location - `path` is what finds the drive, and this never
    /// touches the filesystem. It names the remote in `status`, in `doctor`'s rows,
    /// and in the state file.
    ///
    /// **Renaming one starts its history over.** The state file keys a remote's
    /// last-seen time, head and behind-count by this name, so a rename reads as a
    /// remote that has never been seen.
    pub name: RemoteName,
    pub path: AbsPath,
    pub optional: bool,
    pub behind_tolerance: u32,
    /// Opt in to git operating on this remote despite the filesystem recording no
    /// ownership - exFAT and FAT32, which is what an external drive usually is.
    ///
    /// Off by default and never inferred: the decision is the user's to write down per
    /// remote.
    pub trust_ownership: bool,
}

/// A remote's fields.
pub struct RemoteView {
    pub name: Seq<char>,
    pub path: Path,
    pub optional: bool,
    pub behind_tolerance: u32,
    pub trust_ownership: bool,
}

impl View for Remote {
    type V = RemoteView;

    open spec fn view(&self) -> RemoteView {
        RemoteView {
            name: self.name@,
            path: self.path@,
            optional: self.optional,
            behind_tolerance: self.behind_tolerance,
            trust_ownership: self.trust_ownership,
        }
    }
}

#[derive(Debug, PartialEq, Eq)]
pub struct Profile {
    pub name: ProfileName,
    pub watch: Vec<WatchEntry>,
    pub ignore_paths: Vec<AbsPath>,
    pub ignore_globs: Vec<String>,
    pub reinclude: Vec<AbsPath>,
    pub remotes: Vec<Remote>,
    pub schedule: Option<Schedule>,
    pub use_default_ignores: bool,
    pub store_path: Option<AbsPath>,
    pub local_only: bool,
}

/// A profile's fields.
pub struct ProfileView {
    pub name: Seq<char>,
    pub watch: Seq<WatchView>,
    pub ignore_paths: Seq<Path>,
    pub ignore_globs: Seq<Seq<char>>,
    pub reinclude: Seq<Path>,
    pub remotes: Seq<RemoteView>,
    pub schedule: Option<Schedule>,
    pub use_default_ignores: bool,
    pub store_path: Option<Path>,
    pub local_only: bool,
}

pub open spec fn watch_views(watch: Seq<WatchEntry>) -> Seq<WatchView> {
    watch.map_values(|w: WatchEntry| w@)
}

/// The paths of some watched roots.
pub open spec fn watch_paths(watch: Seq<WatchView>) -> Seq<Path> {
    watch.map_values(|w: WatchView| w.path)
}

pub open spec fn remote_views(remotes: Seq<Remote>) -> Seq<RemoteView> {
    remotes.map_values(|r: Remote| r@)
}

pub open spec fn path_view_opt(p: Option<AbsPath>) -> Option<Path> {
    match p {
        Some(p) => Some(p@),
        None => None,
    }
}

impl View for Profile {
    type V = ProfileView;

    open spec fn view(&self) -> ProfileView {
        ProfileView {
            name: self.name@,
            watch: watch_views(self.watch@),
            ignore_paths: rules::path_views(self.ignore_paths@),
            ignore_globs: text::views(self.ignore_globs@),
            reinclude: rules::path_views(self.reinclude@),
            remotes: remote_views(self.remotes@),
            schedule: self.schedule,
            use_default_ignores: self.use_default_ignores,
            store_path: path_view_opt(self.store_path),
            local_only: self.local_only,
        }
    }
}

/// A copy of a list of paths.
pub fn copy_paths(paths: &Vec<AbsPath>) -> (out: Vec<AbsPath>)
    ensures
        rules::path_views(out@) == rules::path_views(paths@),
{
    let mut out: Vec<AbsPath> = Vec::new();
    let mut i: usize = 0;
    while i < paths.len()
        invariant
            i <= paths@.len(),
            out@.len() == i,
            forall|j: int| 0 <= j < i ==> (#[trigger] out@[j])@ == paths@[j]@,
        decreases paths@.len() - i,
    {
        out.push(paths[i].clone());
        i += 1;
    }
    assert(rules::path_views(out@) =~= rules::path_views(paths@));
    out
}

/// A copy of a list of strings.
pub fn copy_strings(list: &Vec<String>) -> (out: Vec<String>)
    ensures
        text::views(out@) == text::views(list@),
{
    let mut out: Vec<String> = Vec::new();
    let mut i: usize = 0;
    while i < list.len()
        invariant
            i <= list@.len(),
            out@.len() == i,
            forall|j: int| 0 <= j < i ==> (#[trigger] out@[j])@ == list@[j]@,
        decreases list@.len() - i,
    {
        out.push(list[i].clone());
        i += 1;
    }
    assert(text::views(out@) =~= text::views(list@));
    out
}

impl Profile {
    /// The rule inputs for this profile, ready for `RuleTree::build`.
    #[must_use]
    pub fn rule_set(&self) -> (out: RuleSet)
        ensures
            rules::path_views(out.watch@) == watch_paths(self@.watch),
            rules::path_views(out.ignore_paths@) == self@.ignore_paths,
            rules::path_views(out.reinclude@) == self@.reinclude,
            text::views(out.ignore_globs@) == self@.ignore_globs,
            out.junk@ == profile_junk(self.use_default_ignores),
    {
        let mut watch: Vec<AbsPath> = Vec::new();
        let mut i: usize = 0;
        while i < self.watch.len()
            invariant
                i <= self.watch@.len(),
                watch@.len() == i,
                forall|j: int| 0 <= j < i ==> (#[trigger] watch@[j])@ == self.watch@[j]@.path,
            decreases self.watch@.len() - i,
        {
            watch.push(self.watch[i].path().clone());
            i += 1;
        }
        assert(rules::path_views(watch@) =~= watch_paths(self@.watch));
        RuleSet {
            watch,
            ignore_paths: copy_paths(&self.ignore_paths),
            reinclude: copy_paths(&self.reinclude),
            ignore_globs: copy_strings(&self.ignore_globs),
            junk: if self.use_default_ignores {
                default_junk()
            } else {
                Vec::new()
            },
        }
    }
}

/// The junk list a profile applies.
pub open spec fn profile_junk(use_default_ignores: bool) -> Seq<rules::Junk> {
    if use_default_ignores {
        precedence::default_junk_list()
    } else {
        Seq::empty()
    }
}

#[derive(Debug, PartialEq, Eq)]
pub struct Config {
    pub log_level: LogLevel,
    pub profiles: Vec<Profile>,
}

impl Default for Config {
    fn default() -> (out: Self)
        ensures
            out.log_level == LogLevel::Info,
            out.profiles@.len() == 0,
    {
        Config { log_level: LogLevel::default(), profiles: Vec::new() }
    }
}

pub open spec fn profile_views(profiles: Seq<Profile>) -> Seq<ProfileView> {
    profiles.map_values(|p: Profile| p@)
}

/// What a parse produced, and everything wrong with it. A config with errors still
/// yields whatever profiles were readable, so `status` can render in a degraded mode
/// rather than showing nothing.
#[derive(Debug)]
pub struct Parsed {
    pub config: Config,
    pub diagnostics: Vec<Diagnostic>,
}

impl Parsed {
    #[must_use]
    pub fn has_errors(&self) -> (out: bool)
        ensures
            out == any_error(self.diagnostics@),
    {
        let mut i: usize = 0;
        while i < self.diagnostics.len()
            invariant
                i <= self.diagnostics@.len(),
                forall|j: int|
                    0 <= j < i ==> (#[trigger] self.diagnostics@[j]).severity != Severity::Error,
            decreases self.diagnostics@.len() - i,
        {
            if self.diagnostics[i].severity == Severity::Error {
                return true;
            }
            i += 1;
        }
        false
    }
}

pub open spec fn any_error(diagnostics: Seq<Diagnostic>) -> bool {
    exists|i: int|
        0 <= i < diagnostics.len() && (#[trigger] diagnostics[i]).severity == Severity::Error
}

#[derive(Debug, PartialEq, Eq)]
pub enum ConfigError {
    Toml(String),
    Version { found: u32, understood: u32 },
}

impl ConfigError {
    pub open spec fn message(self) -> Seq<char> {
        match self {
            ConfigError::Toml(reason) => "the config file is not valid TOML: "@ + reason@,
            ConfigError::Version { found, understood } => {
                "this config was written by a newer tycho: it declares version "@ + text::decimal_text(
                    found as nat,
                ) + ", and this build understands "@ + text::decimal_text(understood as nat)
            },
        }
    }

    pub fn text(&self) -> (out: String)
        ensures
            out@ == self.message(),
    {
        match self {
            ConfigError::Toml(reason) => cat2("the config file is not valid TOML: ", reason),
            ConfigError::Version { found, understood } => crate::text::cat4(
                "this config was written by a newer tycho: it declares version ",
                &decimal(*found as u64),
                ", and this build understands ",
                &decimal(*understood as u64),
            ),
        }
    }
}

/// Judges what a config file holds against an environment: which version it declares, read on
/// its own first, and then everything else. Either reading may have failed, with a reason.
///
/// # Errors
///
/// If the text is not TOML, or declares a version this build does not understand.
pub fn parse_with(
    probe: Result<VersionProbe, String>,
    raw: Result<RawConfig, String>,
    home: Option<&str>,
    vars: &Vars,
) -> (out: Result<Parsed, ConfigError>)
    ensures
        match probe {
            Err(reason) => out matches Err(ConfigError::Toml(r)) && r@ == reason@,
            Ok(p) => if p.version matches Some(v) && v > VERSION {
                out matches Err(ConfigError::Version { found, understood }) && found
                    == p.version->0 && understood == VERSION
            } else {
                match raw {
                    Err(reason) => out matches Err(ConfigError::Toml(r)) && r@ == reason@,
                    Ok(raw) => out matches Ok(parsed) && validate::is_validation(
                        parsed,
                        raw,
                        crate::primitives::path::view_str_opt(home),
                        *vars,
                    ),
                }
            },
        },
{
    let probe = match probe {
        Ok(probe) => probe,
        Err(reason) => return Err(ConfigError::Toml(reason)),
    };
    if let Some(found) = probe.version {
        if found > VERSION {
            return Err(ConfigError::Version { found, understood: VERSION });
        }
    }
    match raw {
        Ok(raw) => Ok(validate::validate(&raw, home, vars)),
        Err(reason) => Err(ConfigError::Toml(reason)),
    }
}

} // verus!
