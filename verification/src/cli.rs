//! The command line: what it is given, the exit-code contract, what it decides and what it
//! prints.

pub mod doctor;
pub mod moments;
pub mod page;
pub mod profile;
pub mod progress;
pub mod remote;
pub mod render;
pub mod report;
pub mod rules;
pub mod run;
pub mod schedule;
pub mod service;
pub mod words;

use crate::config_edit::List;
use crate::text;
use vstd::prelude::*;

verus! {

/// The whole command line.
#[derive(Debug, PartialEq, Eq)]
pub struct Cli {
    pub command: Command,
    /// Never colour the output. `NO_COLOR` and a non-terminal stdout mean the same
    pub no_color: bool,
}

/// What `tycho run` is given.
#[derive(Debug, PartialEq, Eq)]
pub struct RunArgs {
    /// Which profile to back up
    pub profile: Option<String>,
    /// Every profile. The installed agents run one profile each
    pub all: bool,
    /// Print the plan and stop before touching the store
    pub dry_run: bool,
    /// Omit the repository table, which is the expensive half
    pub quick: bool,
    /// Accept a large drop in a root's entry count
    pub allow_shrink: bool,
    /// Read this config file instead of the default location
    pub config: Option<Vec<u8>>,
}

#[derive(Debug, PartialEq, Eq)]
pub struct PushArgs {
    /// Which profile's store to push
    pub profile: Option<String>,
    /// Every profile, which is what the shared catch-up agent runs
    pub all: bool,
    /// Read this config file instead of the default location
    pub config: Option<Vec<u8>>,
}

#[derive(Debug, PartialEq, Eq)]
pub struct StatusArgs {
    /// Limit the report to one profile
    pub profile: Option<String>,
    /// Exit non-zero on red, for monitoring
    pub check: bool,
    /// With `--check`, make yellow non-zero too
    pub strict: bool,
    /// Read this config file instead of the default location
    pub config: Option<Vec<u8>>,
}

#[derive(Debug, PartialEq, Eq)]
pub struct RestoreArgs {
    /// Which profile's store to read
    pub profile: Option<String>,
    /// Where to put the recovered files. Required, with no default and no fallback
    pub into: Vec<u8>,
    /// Read this store or remote directly, without a config file
    pub store: Option<Vec<u8>>,
    /// The backup to use: "2026-10-19 12:00", "2026-10-19", or "3 days ago"
    pub at: Option<String>,
    /// Write a bundle of the named repository's history instead of a working tree
    pub bundle: bool,
    /// Restore into a destination that already holds things
    pub force: bool,
    /// Read this config file instead of the default location
    pub config: Option<Vec<u8>>,
    /// Paths to recover, after `--`. Omit for the whole backup
    pub paths: Vec<Vec<u8>>,
}

/// Where a restore reads from.
///
/// A sum type rather than two optionals, because `--store` reads **no config file at
/// all** and that is the whole disaster case: on a replacement machine there is no
/// config, no state file and no local store, so a restore that needed a profile from
/// a config would be unusable exactly when it is needed.
#[derive(Debug, PartialEq, Eq)]
pub enum Source {
    Profile(Option<String>),
    Store(Vec<u8>),
}

pub enum SourceView {
    Profile(Option<Seq<char>>),
    Store(Seq<u8>),
}

impl View for Source {
    type V = SourceView;

    open spec fn view(&self) -> SourceView {
        match self {
            Source::Profile(name) => SourceView::Profile(text::view_opt(*name)),
            Source::Store(path) => SourceView::Store(path@),
        }
    }
}

impl RestoreArgs {
    /// `--store` wins: it reads no config, so no profile has a meaning beside it.
    #[must_use]
    pub fn source(&self) -> (out: Source)
        ensures
            out@ == match self.store {
                Some(path) => SourceView::Store(path@),
                None => SourceView::Profile(text::view_opt(self.profile)),
            },
    {
        match &self.store {
            Some(path) => Source::Store(crate::octets::copy_bytes(path)),
            None => Source::Profile(
                match &self.profile {
                    Some(name) => Some(name.clone()),
                    None => None,
                },
            ),
        }
    }
}

#[derive(Debug, PartialEq, Eq)]
pub struct DoctorArgs {
    /// Limit the report to one profile
    pub profile: Option<String>,
    /// Measure what cannot be read: the agent's Full Disk Access grant through
    /// launchd, notification delivery, and a full fsck
    pub deep: bool,
    /// Limit the remote checks to one name
    pub remote: Option<String>,
    /// Read this config file instead of the default location
    pub config: Option<Vec<u8>>,
}

#[derive(Debug, PartialEq, Eq)]
pub struct ProbeArgs {
    /// Where to write what was found
    pub out: Vec<u8>,
    /// Roots to try reading
    pub roots: Vec<Vec<u8>>,
}

#[derive(Debug, PartialEq, Eq)]
pub struct LogArgs {
    /// Which profile's log
    pub profile: Option<String>,
    /// Follow the file as it grows
    pub follow: bool,
    /// How many lines to show
    pub count: usize,
    /// Read this config file instead of the default location
    pub config: Option<Vec<u8>>,
}

#[derive(Debug, PartialEq, Eq)]
pub struct ServiceArgs {
    pub action: ServiceAction,
    /// Which profile's agent. Omit for every profile in the config
    pub profile: Option<String>,
    /// Read this config file instead of the default location
    pub config: Option<Vec<u8>>,
}

#[derive(Clone, Copy, Debug, PartialEq, Eq, Structural)]
pub enum ServiceAction {
    /// Generate the plists and load them
    Install,
    /// Unload and remove the plists. Never touches the store or any backup
    Uninstall,
    /// Whether each agent is loaded, its last exit status, and its next run
    Status,
    /// Unload and reload, for after a config change
    Restart,
}

#[derive(Debug, PartialEq, Eq)]
pub struct HistoryArgs {
    /// Which profile's store to read
    pub profile: Option<String>,
    /// One path's history instead of the backup list
    pub path: Option<Vec<u8>>,
    /// How many backups to list
    pub count: usize,
    /// Read this config file instead of the default location
    pub config: Option<Vec<u8>>,
}

#[derive(Debug, PartialEq, Eq)]
pub struct ConfigArgs {
    pub action: ConfigAction,
    /// Read this config file instead of the default location
    pub config: Option<Vec<u8>>,
}

#[derive(Clone, Copy, Debug, PartialEq, Eq, Structural)]
pub enum ConfigAction {
    /// Report every problem at once, rather than stopping at the first
    Check,
    /// Print where the config file is read from
    Path,
    /// Write a starter file, refusing if one is already there
    Init {
        /// Overwrite, after writing a `.bak` beside it
        force: bool,
    },
}

#[derive(Debug, PartialEq, Eq)]
pub struct RuleArgs {
    pub action: RuleAction,
    /// Which profile. A flag rather than a positional, because `watch add PATH` and
    /// `watch add PROFILE PATH` are otherwise indistinguishable to a parser
    pub profile: Option<String>,
    /// Read this config file instead of the default location
    pub config: Option<Vec<u8>>,
}

#[derive(Debug, PartialEq, Eq)]
#[allow(inconsistent_fields)]
pub enum RuleAction {
    /// Add an entry. A local one goes in a file inside the tree it governs
    Add { value: String, local: bool },
    /// Remove an entry
    Rm { value: String, local: bool },
    /// Print the entries
    List,
}

#[derive(Debug, PartialEq, Eq)]
pub struct ProfileArgs {
    pub action: ProfileAction,
    /// Read this config file instead of the default location
    pub config: Option<Vec<u8>>,
}

#[derive(Debug, PartialEq, Eq)]
pub enum ProfileAction {
    /// Print every profile
    List,
    /// Add a profile
    Add(ProfileAddArgs),
    /// Remove a profile
    Rm(ProfileRmArgs),
}

#[derive(Debug, PartialEq, Eq)]
pub struct ProfileAddArgs {
    pub name: String,
    /// A root to watch, stored exactly as written. Repeatable
    pub watch: Vec<String>,
    /// A destination as NAME=PATH. Repeatable
    pub remote: Vec<String>,
    /// Mark a --remote above optional, by the name before its '='. Repeatable
    pub optional: Vec<String>,
    /// Mark a --remote above trusted despite recording no ownership, by the name
    /// before its '='. Repeatable
    pub trust_ownership: Vec<String>,
    /// When it runs by itself: `daily:HH:MM`, `weekly:<weekday>:HH:MM`, `every:<N>h`
    /// or `every:<N>m`
    pub schedule: Option<String>,
    /// This profile's backups never leave this machine
    pub local_only: bool,
    /// Print the TOML block that would be appended, and write nothing
    pub dry_run: bool,
}

#[derive(Debug, PartialEq, Eq)]
pub struct ProfileRmArgs {
    pub name: String,
    /// Leave the local store on disk
    pub keep_store: bool,
    /// Delete the local store
    pub delete_store: bool,
}

#[derive(Debug, PartialEq, Eq)]
pub struct RemoteArgs {
    pub action: RemoteAction,
    /// Which profile
    pub profile: Option<String>,
    /// Read this config file instead of the default location
    pub config: Option<Vec<u8>>,
}

#[derive(Debug, PartialEq, Eq)]
pub enum RemoteAction {
    /// Print every remote on a profile
    List,
    /// Add a destination
    Add(RemoteAddArgs),
    /// Remove a destination
    Rm(RemoteRmArgs),
}

#[derive(Debug, PartialEq, Eq)]
pub struct RemoteAddArgs {
    pub name: String,
    /// Stored exactly as written
    pub path: String,
    /// Being unplugged is a warning rather than a failure
    pub optional: bool,
    /// Trust this remote's volume despite it recording no ownership
    pub trust_ownership: bool,
    /// How many runs behind before this remote is reported red. Defaults to 4
    pub behind_tolerance: Option<u32>,
}

#[derive(Debug, PartialEq, Eq)]
pub struct RemoteRmArgs {
    pub name: String,
    /// Allow removing the last remote, marking this profile local-only
    pub local_only: bool,
}

#[derive(Debug, PartialEq, Eq)]
pub struct ScheduleArgs {
    pub action: ScheduleAction,
    /// Which profile
    pub profile: Option<String>,
    /// Read this config file instead of the default location
    pub config: Option<Vec<u8>>,
}

#[derive(Debug, PartialEq, Eq)]
pub enum ScheduleAction {
    /// Print the current schedule
    Show,
    /// Replace the schedule
    Replace { spec: String },
    /// Clear the schedule, so the profile only runs by hand
    Off,
}

#[derive(Debug, PartialEq, Eq)]
pub enum Command {
    /// Capture, commit and push
    Run(RunArgs),
    /// Push what the store already holds to any remote that is behind
    Push(PushArgs),
    /// Per-profile schedule, store summary and remote health
    Status(StatusArgs),
    /// The store's commits, rendered
    History(HistoryArgs),
    /// Recover to a destination directory
    Restore(RestoreArgs),
    /// Manage watched roots
    Watch(RuleArgs),
    /// Manage ignore rules
    Ignore(RuleArgs),
    /// Manage re-include rules
    Reinclude(RuleArgs),
    /// Manage profiles
    Profile(ProfileArgs),
    /// Manage a profile's remotes
    Remote(RemoteArgs),
    /// Manage a profile's schedule
    Schedule(ScheduleArgs),
    /// Validate, locate or create the config file
    Config(ConfigArgs),
    /// Scheduler lifecycle for the backup agents
    Service(ServiceArgs),
    /// Environment, service, remote and volume health
    Doctor(DoctorArgs),
    /// Measure the agent's own Full Disk Access grant
    ProbeAccess(ProbeArgs),
    /// Install tycho and wire up shell completions
    Bootstrap(crate::bootstrap::BootstrapArgs),
    /// Tail the log file
    Log(LogArgs),
}

impl Command {
    /// The subcommand as it is typed.
    pub open spec fn typed(self) -> Seq<char> {
        match self {
            Command::Run(_) => "run"@,
            Command::Push(_) => "push"@,
            Command::Status(_) => "status"@,
            Command::History(_) => "history"@,
            Command::Restore(_) => "restore"@,
            Command::Watch(_) => "watch"@,
            Command::Ignore(_) => "ignore"@,
            Command::Reinclude(_) => "reinclude"@,
            Command::Profile(_) => "profile"@,
            Command::Remote(_) => "remote"@,
            Command::Schedule(_) => "schedule"@,
            Command::Config(_) => "config"@,
            Command::Service(_) => "service"@,
            Command::Doctor(_) => "doctor"@,
            Command::ProbeAccess(_) => "probe-access"@,
            Command::Log(_) => "log"@,
            Command::Bootstrap(_) => "__bootstrap"@,
        }
    }

    #[must_use]
    pub fn name(&self) -> (out: &'static str)
        ensures
            out@ == self.typed(),
    {
        match self {
            Command::Run(_) => "run",
            Command::Push(_) => "push",
            Command::Status(_) => "status",
            Command::History(_) => "history",
            Command::Restore(_) => "restore",
            Command::Watch(_) => "watch",
            Command::Ignore(_) => "ignore",
            Command::Reinclude(_) => "reinclude",
            Command::Profile(_) => "profile",
            Command::Remote(_) => "remote",
            Command::Schedule(_) => "schedule",
            Command::Config(_) => "config",
            Command::Service(_) => "service",
            Command::Doctor(_) => "doctor",
            Command::ProbeAccess(_) => "probe-access",
            Command::Log(_) => "log",
            Command::Bootstrap(_) => "__bootstrap",
        }
    }
}

/// Every subcommand as it is typed, which must stay identical to the parser's own
/// kebab-case rename of the variants.
pub fn names() -> (out: Vec<&'static str>)
    ensures
        out@ == seq![
            "run",
            "push",
            "status",
            "history",
            "restore",
            "watch",
            "ignore",
            "reinclude",
            "profile",
            "remote",
            "schedule",
            "config",
            "service",
            "doctor",
            "probe-access",
            "log",
        ],
{
    vec![
        "run",
        "push",
        "status",
        "history",
        "restore",
        "watch",
        "ignore",
        "reinclude",
        "profile",
        "remote",
        "schedule",
        "config",
        "service",
        "doctor",
        "probe-access",
        "log",
    ]
}

/// The one command `--help` does not list, because it is internal.
pub const INTERNAL: &'static str = "probe-access";

/// The process exit contract. A usage error exits 2, which the argument parser emits
/// before any of this is reached.
#[derive(Clone, Copy, Debug, PartialEq, Eq, Structural)]
#[must_use]
pub enum Exit {
    Success,
    Failure,
    Warning,
}

impl Exit {
    #[must_use]
    pub fn code(self) -> (out: u8)
        ensures
            out == match self {
                Exit::Success => 0u8,
                Exit::Failure => 1u8,
                Exit::Warning => 3u8,
            },
    {
        match self {
            Exit::Success => 0,
            Exit::Failure => 1,
            Exit::Warning => 3,
        }
    }
}

/// The handler that takes a command, with what it is given.
#[derive(Debug, PartialEq, Eq)]
pub enum Handler {
    Run(RunArgs),
    Push(PushArgs),
    Status(StatusArgs),
    Config(ConfigArgs),
    History(HistoryArgs),
    Restore(RestoreArgs),
    Service(ServiceArgs),
    Log(LogArgs),
    Doctor(DoctorArgs),
    ProbeAccess(ProbeArgs),
    Bootstrap(crate::bootstrap::BootstrapArgs),
    /// The three rule commands are one handler on three lists.
    Rules(List, RuleArgs),
    Profile(ProfileArgs),
    Remote(RemoteArgs),
    Schedule(ScheduleArgs),
}

/// Which handler a command goes to.
pub fn dispatch(command: Command) -> (out: Handler)
    ensures
        out == match command {
            Command::Run(args) => Handler::Run(args),
            Command::Push(args) => Handler::Push(args),
            Command::Status(args) => Handler::Status(args),
            Command::Config(args) => Handler::Config(args),
            Command::History(args) => Handler::History(args),
            Command::Restore(args) => Handler::Restore(args),
            Command::Service(args) => Handler::Service(args),
            Command::Log(args) => Handler::Log(args),
            Command::Doctor(args) => Handler::Doctor(args),
            Command::ProbeAccess(args) => Handler::ProbeAccess(args),
            Command::Bootstrap(args) => Handler::Bootstrap(args),
            Command::Watch(args) => Handler::Rules(List::Watch, args),
            Command::Ignore(args) => Handler::Rules(List::Ignore, args),
            Command::Reinclude(args) => Handler::Rules(List::Reinclude, args),
            Command::Profile(args) => Handler::Profile(args),
            Command::Remote(args) => Handler::Remote(args),
            Command::Schedule(args) => Handler::Schedule(args),
        },
{
    match command {
        Command::Run(args) => Handler::Run(args),
        Command::Push(args) => Handler::Push(args),
        Command::Status(args) => Handler::Status(args),
        Command::Config(args) => Handler::Config(args),
        Command::History(args) => Handler::History(args),
        Command::Restore(args) => Handler::Restore(args),
        Command::Service(args) => Handler::Service(args),
        Command::Log(args) => Handler::Log(args),
        Command::Doctor(args) => Handler::Doctor(args),
        Command::ProbeAccess(args) => Handler::ProbeAccess(args),
        Command::Bootstrap(args) => Handler::Bootstrap(args),
        Command::Watch(args) => Handler::Rules(List::Watch, args),
        Command::Ignore(args) => Handler::Rules(List::Ignore, args),
        Command::Reinclude(args) => Handler::Rules(List::Reinclude, args),
        Command::Profile(args) => Handler::Profile(args),
        Command::Remote(args) => Handler::Remote(args),
        Command::Schedule(args) => Handler::Schedule(args),
    }
}

} // verus!
