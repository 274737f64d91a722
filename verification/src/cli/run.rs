//! What `run`, `push`, `status`, `restore`, `config` and `log` decide and say.
//!
//! Reading files, running commands and printing stand outside: a function here takes what they
//! came to, and answers with what to print and what to exit with.

use crate::capture::Inspection;
use crate::cli::moments;
use crate::cli::moments::{ahead_of, day, moment, upcoming_of};
use crate::cli::render;
use crate::cli::render::status::{ProfileStatus, RemoteRow};
use crate::cli::report;
use crate::cli::report::{
    at_file, at_profile, at_remote, say, Diagnostic, DiagnosticView, LocationView,
};
use crate::cli::words;
use crate::cli::words::plural;
use crate::cli::Exit;
use crate::config;
use crate::config::check;
use crate::config::moment;
use crate::config::moment::{now_here, Moment};
use crate::config::schedule;
use crate::config::schedule::{Duration, Schedule};
use crate::config::{Config, Parsed, Profile, Remote};
use crate::doctor::Verdict;
use crate::octets;
use crate::plan;
use crate::plan::{Plan, PlanError};
use crate::platform;
use crate::platform::notify::Urgency;
use crate::platform::Host;
use crate::primitives::oid::Oid;
use crate::primitives::path;
use crate::primitives::path::{AbsPath, PathFault, Vars};
use crate::restore::Done;
use crate::store::{Completed, RemoteResult, RemoteSeen, RemoteState, RunRecord, Span};
use crate::text;
use crate::text::{cat2, cat3, cat4, cat5, cat6, cat7, decimal, join_text, left, same};
use vstd::prelude::*;
use vstd::utf8::*;

pub use crate::doctor::overdue;

verus! {

/// The view of what a lookup came to.
pub open spec fn found<T>(out: Result<T, Diagnostic>) -> Result<T, DiagnosticView> {
    match out {
        Ok(value) => Ok(value),
        Err(diagnostic) => Err(diagnostic@),
    }
}

// ---------------------------------------------------------------------------
// Exits
// ---------------------------------------------------------------------------

pub open spec fn worse_of(a: Exit, b: Exit) -> Exit {
    if a == Exit::Failure || b == Exit::Failure {
        Exit::Failure
    } else if a == Exit::Warning || b == Exit::Warning {
        Exit::Warning
    } else {
        Exit::Success
    }
}

/// The worse of two outcomes, so a fan-out over profiles reports the worst thing
/// that happened rather than the last thing.
#[must_use]
pub fn worse(a: Exit, b: Exit) -> (out: Exit)
    ensures
        out == worse_of(a, b),
{
    match (a, b) {
        (Exit::Failure, _) => Exit::Failure,
        (_, Exit::Failure) => Exit::Failure,
        (Exit::Warning, _) => Exit::Warning,
        (_, Exit::Warning) => Exit::Warning,
        (Exit::Success, Exit::Success) => Exit::Success,
    }
}

pub open spec fn worst_of(exits: Seq<Exit>) -> Exit
    decreases exits.len(),
{
    if exits.len() == 0 {
        Exit::Success
    } else {
        worse_of(worst_of(exits.drop_last()), exits.last())
    }
}

/// One profile's failure must not stop the others: the whole point of separate
/// profiles is that they are independent backups. So every one runs, and the worst is what
/// the command exits with.
#[must_use]
pub fn worst(exits: &[Exit]) -> (out: Exit)
    ensures
        out == worst_of(exits@),
{
    let mut out = Exit::Success;
    let mut i: usize = 0;
    while i < exits.len()
        invariant
            i <= exits@.len(),
            out == worst_of(exits@.take(i as int)),
        decreases exits@.len() - i,
    {
        assert(exits@.take(i + 1).drop_last() =~= exits@.take(i as int));
        out = worse(out, exits[i]);
        i += 1;
    }
    assert(exits@.take(i as int) =~= exits@);
    out
}

// ---------------------------------------------------------------------------
// The config
// ---------------------------------------------------------------------------

/// Where the config is read from: the path that was given, or the default one.
///
/// # Errors
///
/// If none was given and there is no home directory.
pub fn config_location(given: Option<&[u8]>, home: Option<&str>, vars: &Vars) -> (out: Result<
    Vec<u8>,
    String,
>)
    ensures
        match given {
            Some(p) => out matches Ok(v) && v@ == p@,
            None => match path::resolved(
                "~/.config/tycho/tycho.toml"@,
                path::view_str_opt(home),
                *vars,
            ) {
                Ok(p) => out matches Ok(v) && v@ == path::written(p),
                Err(fault) => out matches Err(e) && e@ == fault.message(),
            },
        },
{
    match given {
        Some(p) => Ok(octets::copy_bytes(p)),
        None => match platform::config_path(home, vars) {
            Ok(p) => Ok(p.into_path_buf()),
            Err(error) => Err(error.text()),
        },
    }
}

/// Why a file could not be read.
#[derive(Debug, PartialEq, Eq)]
pub struct ReadFault {
    /// There is no such file.
    pub missing: bool,
    pub message: String,
}

/// There is no config file: where it was looked for, what it is for, and what creates it.
pub open spec fn no_file(shown: Seq<char>) -> DiagnosticView {
    DiagnosticView::error("no config file at "@ + shown).at(
        LocationView::File { path: shown, line: None },
    ).note(
        "a config file lists what to watch and where to send it; every command but `config init` needs one"@,
    ).recovery_with(
        "tycho config init"@,
        "writes a starter file, with a comment on each key"@,
    ).recovery_with("tycho config path"@, "says where it would go"@)
}

pub(crate) fn missing(shown: &str) -> (out: Diagnostic)
    ensures
        out@ == no_file(shown@),
{
    Diagnostic::error(&cat2("no config file at ", shown)).location(at_file(shown)).note(
        "a config file lists what to watch and where to send it; every command but `config init` needs one",
    ).recovery_with(
        "tycho config init",
        "writes a starter file, with a comment on each key",
    ).recovery_with("tycho config path", "says where it would go")
}

pub open spec fn unread(shown: Seq<char>, fault: ReadFault) -> DiagnosticView {
    if fault.missing {
        no_file(shown)
    } else {
        DiagnosticView::error(fault.message@).at(LocationView::File { path: shown, line: None })
    }
}

/// The config's text, or what to say where it could not be read.
///
/// A missing file is the first thing anyone hits after installing, and a bare `os error 2`
/// names neither the file's purpose nor the one command that creates it.
///
/// # Errors
///
/// If it could not be read.
pub fn load(shown: &str, read: Result<String, ReadFault>) -> (out: Result<String, Diagnostic>)
    ensures
        found(out) == match read {
            Ok(text) => Ok(text),
            Err(fault) => Err(unread(shown@, fault)),
        },
{
    match read {
        Ok(text) => Ok(text),
        Err(fault) => if fault.missing {
            Err(missing(shown))
        } else {
            Err(Diagnostic::error(&fault.message).location(at_file(shown)))
        },
    }
}

pub open spec fn no_profiles() -> DiagnosticView {
    DiagnosticView::error("the config defines no profiles"@).recovery_with(
        "tycho profile add <name> --local-only"@,
        "or with --remote NAME=PATH"@,
    )
}

pub(crate) fn without_profiles() -> (out: Diagnostic)
    ensures
        out@ == no_profiles(),
{
    Diagnostic::error("the config defines no profiles").recovery_with(
        "tycho profile add <name> --local-only",
        "or with --remote NAME=PATH",
    )
}

pub open spec fn no_profile_named(name: Seq<char>) -> DiagnosticView {
    DiagnosticView::error("no profile named '"@ + name + "'"@).at(
        LocationView::Profile(name),
    ).recovery_with("tycho profile list"@, "names every profile in this file"@)
}

pub(crate) fn unknown_profile(name: &str) -> (out: Diagnostic)
    ensures
        out@ == no_profile_named(name@),
{
    Diagnostic::error(&cat3("no profile named '", name, "'")).location(
        at_profile(name),
    ).recovery_with("tycho profile list", "names every profile in this file")
}

pub open spec fn profile_names(profiles: Seq<Profile>) -> Seq<Seq<char>> {
    profiles.map_values(|p: Profile| p.name@)
}

pub open spec fn which_one(names: Seq<Seq<char>>) -> DiagnosticView {
    DiagnosticView::error("more than one profile matches; say which one"@).note(
        "configured profiles: "@ + text::join(names, ", "@),
    ).help("pass `--profile <name>` to say which one"@)
}

/// Which profile a command is about: the one named, or the only one there is.
pub open spec fn selection(profiles: Seq<Profile>, wanted: Option<Seq<char>>) -> Result<
    Profile,
    DiagnosticView,
> {
    let names = profile_names(profiles);
    match wanted {
        Some(name) => {
            let at = text::position(names, name);
            if 0 <= at < names.len() {
                Ok(profiles[at])
            } else {
                Err(no_profile_named(name))
            }
        },
        None => if profiles.len() == 1 {
            Ok(profiles[0])
        } else if profiles.len() == 0 {
            Err(no_profiles())
        } else {
            Err(which_one(names))
        },
    }
}

/// The index of a profile by its name, or the number of profiles where none has it.
pub(crate) fn position_of(profiles: &[Profile], name: &str) -> (out: usize)
    ensures
        out == text::position(profile_names(profiles@), name@),
        out <= profiles@.len(),
{
    let ghost names = profile_names(profiles@);
    let mut i: usize = 0;
    while i < profiles.len()
        invariant
            i <= profiles@.len(),
            names == profile_names(profiles@),
            forall|k: int| 0 <= k < i ==> names[k] != name@,
        decreases profiles@.len() - i,
    {
        assert(names[i as int] == profiles@[i as int].name@);
        if same(profiles[i].name.as_str(), name) {
            proof {
                text::lemma_position(names, name@, i as int);
            }
            return i;
        }
        i += 1;
    }
    proof {
        text::lemma_position(names, name@, i as int);
    }
    i
}

pub(crate) fn names_of(profiles: &[Profile]) -> (out: Vec<String>)
    ensures
        text::views(out@) == profile_names(profiles@),
{
    let mut out: Vec<String> = Vec::new();
    let mut i: usize = 0;
    while i < profiles.len()
        invariant
            i <= profiles@.len(),
            out@.len() == i,
            forall|k: int| 0 <= k < i ==> (#[trigger] out@[k])@ == profiles@[k].name@,
        decreases profiles@.len() - i,
    {
        out.push(profiles[i].name.as_str().to_owned());
        i += 1;
    }
    assert(text::views(out@) =~= profile_names(profiles@));
    out
}

/// # Errors
///
/// If no profile has the name, or none was named and there is not exactly one.
pub fn select<'a>(config: &'a Config, wanted: Option<&str>) -> (out: Result<&'a Profile, Diagnostic>)
    ensures
        match out {
            Ok(profile) => selection(config.profiles@, path::view_str_opt(wanted)) == Ok::<
                Profile,
                DiagnosticView,
            >(*profile),
            Err(d) => selection(config.profiles@, path::view_str_opt(wanted)) == Err::<
                Profile,
                DiagnosticView,
            >(d@),
        },
{
    let len: usize = config.profiles.len();
    match wanted {
        Some(name) => {
            let at = position_of(&config.profiles, name);
            if at < len {
                Ok(&config.profiles[at])
            } else {
                Err(unknown_profile(name))
            }
        },
        None => {
            if len == 1 {
                return Ok(&config.profiles[0]);
            }
            if len == 0 {
                return Err(without_profiles());
            }
            let names = join_text(&names_of(&config.profiles), ", ");
            Err(
                Diagnostic::error("more than one profile matches; say which one").note(
                    &cat2("configured profiles: ", &names),
                ).help("pass `--profile <name>` to say which one"),
            )
        },
    }
}

pub open spec fn chosen(profiles: Seq<Profile>, wanted: Option<Seq<char>>, all: bool) -> Result<
    Seq<Profile>,
    DiagnosticView,
> {
    if all {
        if profiles.len() == 0 {
            Err(no_profiles())
        } else {
            Ok(profiles)
        }
    } else {
        match selection(profiles, wanted) {
            Ok(profile) => Ok(seq![profile]),
            Err(d) => Err(d),
        }
    }
}

pub open spec fn behind_refs(v: Seq<&Profile>) -> Seq<Profile> {
    v.map_values(|p: &Profile| *p)
}

/// Which profiles a command was aimed at.
///
/// `--all` is the manual and scripted form, and the shared catch-up agent's own form;
/// the installed backup agents run one profile each. Naming a
/// profile and passing `--all` cannot both happen - the command line refuses the combination -
/// which is why this takes a bool rather than an `Option` that means two things.
///
/// # Errors
///
/// If there is none.
pub fn selected<'a>(config: &'a Config, wanted: Option<&str>, all: bool) -> (out: Result<
    Vec<&'a Profile>,
    Diagnostic,
>)
    ensures
        match out {
            Ok(v) => chosen(config.profiles@, path::view_str_opt(wanted), all) == Ok::<
                Seq<Profile>,
                DiagnosticView,
            >(behind_refs(v@)),
            Err(d) => chosen(config.profiles@, path::view_str_opt(wanted), all) == Err::<
                Seq<Profile>,
                DiagnosticView,
            >(d@),
        },
{
    let mut out: Vec<&'a Profile> = Vec::new();
    if all {
        if config.profiles.len() == 0 {
            return Err(without_profiles());
        }
        let mut i: usize = 0;
        while i < config.profiles.len()
            invariant
                i <= config.profiles@.len(),
                out@.len() == i,
                forall|k: int| 0 <= k < i ==> *(#[trigger] out@[k]) == config.profiles@[k],
            decreases config.profiles@.len() - i,
        {
            out.push(&config.profiles[i]);
            i += 1;
        }
        assert(behind_refs(out@) =~= config.profiles@);
        return Ok(out);
    }
    match select(config, wanted) {
        Ok(profile) => {
            out.push(profile);
            assert(behind_refs(out@) =~= seq![*profile]);
            Ok(out)
        },
        Err(d) => Err(d),
    }
}

/// What a config with errors stops a run with: the findings, and what to say.
pub open spec fn broken_config() -> DiagnosticView {
    DiagnosticView::error("the config has errors, so nothing was backed up"@).recovery_with(
        "tycho config check"@,
        "shows every error and warning"@,
    )
}

/// Whether a run may start. Where it may not, what to print and what to say.
pub fn run(parsed: &Parsed, colour: bool) -> (out: Option<(String, Diagnostic)>)
    ensures
        out is Some <==> config::any_error(parsed.diagnostics@),
        out matches Some((page, d)) ==> page@ == render::config_check_page(
            Seq::empty(),
            check::diag_views(parsed.diagnostics@),
        ).shown(colour) && d@ == broken_config(),
{
    if !parsed.has_errors() {
        return None;
    }
    let none: Vec<String> = Vec::new();
    assert(text::views(none@) =~= Seq::empty());
    let page = render::config_check(&none, &parsed.diagnostics, colour);
    Some(
        (
            page,
            Diagnostic::error("the config has errors, so nothing was backed up").recovery_with(
                "tycho config check",
                "shows every error and warning",
            ),
        ),
    )
}

/// Where a profile's three files live.
#[derive(Debug, PartialEq, Eq)]
pub struct Locations {
    pub store: AbsPath,
    pub state: AbsPath,
    pub lock: AbsPath,
}

/// Where a profile's store, the state file and the data directory are.
#[derive(Debug, PartialEq, Eq)]
pub struct Places {
    pub store: AbsPath,
    pub state: AbsPath,
    pub data: AbsPath,
}

/// The three paths, or the first of their faults.
pub open spec fn places_of(
    name: Seq<char>,
    given: Option<config::rules::Path>,
    host: Host,
    home: Option<Seq<char>>,
    vars: Vars,
) -> Result<(config::rules::Path, config::rules::Path, config::rules::Path), PathFault> {
    let store = platform::store_at(name, given, host, home, vars);
    let state = path::resolved(host.data() + "/state.json"@, home, vars);
    let data = path::resolved(host.data(), home, vars);
    match (store, state, data) {
        (Err(e), _, _) => Err(e),
        (_, Err(e), _) => Err(e),
        (_, _, Err(e)) => Err(e),
        (Ok(store), Ok(state), Ok(data)) => Ok((store, state, data)),
    }
}

/// # Errors
///
/// If a path names nothing here: there is no home directory.
pub fn places(profile: &Profile, host: Host, home: Option<&str>, vars: &Vars) -> (out: Result<
    Places,
    Diagnostic,
>)
    ensures
        match places_of(
            profile.name@,
            config::path_view_opt(profile.store_path),
            host,
            path::view_str_opt(home),
            *vars,
        ) {
            Ok((store, state, data)) => out matches Ok(p) && p.store@ == store && p.state@ == state
                && p.data@ == data,
            Err(fault) => out matches Err(d) && d@ == DiagnosticView::error(fault.message()),
        },
{
    let given = match &profile.store_path {
        Some(dir) => Some(dir),
        None => None,
    };
    let store = match platform::store_path(profile.name.as_str(), given, host, home, vars) {
        Ok(p) => p,
        Err(error) => return Err(Diagnostic::error(&error.text())),
    };
    let state = match platform::state_path(host, home, vars) {
        Ok(p) => p,
        Err(error) => return Err(Diagnostic::error(&error.text())),
    };
    let data = match platform::data_dir(host, home, vars) {
        Ok(p) => p,
        Err(error) => return Err(Diagnostic::error(&error.text())),
    };
    Ok(Places { store, state, data })
}

/// A profile's lock stands in the data directory, under the profile's name.
pub open spec fn lock_of(data: config::rules::Path, name: Seq<char>) -> Result<
    config::rules::Path,
    PathFault,
> {
    let raw = platform::under_raw(data, name + ".lock"@);
    path::cleaned_on(path::has_drive(data), raw, octets::lossy(raw))
}

/// The three files of a profile, once the data directory has been made.
///
/// First run on a machine: nothing has made the data directory yet, and
/// the lock file cannot be created inside one that is not there.
///
/// # Errors
///
/// If the directory could not be made.
pub fn locations(profile: &Profile, places: Places, made: Result<(), String>) -> (out: Result<
    Locations,
    Diagnostic,
>)
    ensures
        match made {
            Err(error) => out matches Err(d) && d@ == DiagnosticView::error(error@).at(
                LocationView::File { path: plan::shown(places.data@), line: None },
            ),
            Ok(()) => match lock_of(places.data@, profile.name@) {
                Ok(lock) => out matches Ok(l) && l.store == places.store && l.state == places.state
                    && l.lock@ == lock,
                Err(fault) => out matches Err(d) && d@ == DiagnosticView::error(fault.message()),
            },
        },
{
    match made {
        Ok(()) => {},
        Err(error) => return Err(
            Diagnostic::error(&error).location(at_file(&places.data.text())),
        ),
    }
    let name = cat2(profile.name.as_str(), ".lock");
    match AbsPath::from_absolute_on(places.data.on_drive(), &platform::under(&places.data, &name)) {
        Ok(lock) => Ok(Locations { store: places.store, state: places.state, lock }),
        Err(error) => Err(Diagnostic::error(&error.text())),
    }
}

// ---------------------------------------------------------------------------
// A run
// ---------------------------------------------------------------------------

/// Why a run stopped.
#[derive(Clone, Copy, Debug, PartialEq, Eq, Structural)]
pub enum Cause {
    /// The profile's lock is held.
    InProgress,
    /// A root lost too many of its entries.
    RootShrank,
    Other,
}

/// A run that failed: why, in a word and in a sentence.
#[derive(Debug, PartialEq, Eq)]
pub struct RunError {
    pub cause: Cause,
    pub message: String,
}

/// Why a run fails whose plan was refused.
pub fn plan_failed(error: &PlanError) -> (out: RunError)
    ensures
        out.cause == if error is RootShrank {
            Cause::RootShrank
        } else {
            Cause::Other
        },
        out.message@ == error.message(),
{
    let cause = match error {
        PlanError::RootShrank { .. } => Cause::RootShrank,
        _ => Cause::Other,
    };
    RunError { cause, message: error.text() }
}

pub open spec fn run_fault(error: RunError, name: Seq<char>) -> DiagnosticView {
    let said = DiagnosticView::error(error.message@).at(LocationView::Profile(name));
    match error.cause {
        Cause::InProgress => said.note(
            "another `tycho run` for this profile, or its scheduled agent, holds the lock"@,
        ),
        Cause::RootShrank => said.recovery_with(
            "tycho run --profile "@ + name + " --allow-shrink"@,
            "back it up anyway"@,
        ),
        Cause::Other => said,
    }
}

/// A run's failure, structured. A shrunk root and a held lock are worth a specific
/// recovery; everything else already says what happened in its own message.
#[must_use]
pub fn run_error(error: &RunError, profile: &Profile) -> (out: Diagnostic)
    ensures
        out@ == run_fault(*error, profile.name@),
{
    let name = profile.name.as_str();
    let said = Diagnostic::error(&error.message).location(at_profile(name));
    match error.cause {
        Cause::InProgress => said.note(
            "another `tycho run` for this profile, or its scheduled agent, holds the lock",
        ),
        Cause::RootShrank => said.recovery_with(
            &cat3("tycho run --profile ", name, " --allow-shrink"),
            "back it up anyway",
        ),
        Cause::Other => said,
    }
}

/// What a command has to print, to say, to exit with and to interrupt for.
#[derive(Debug, PartialEq, Eq)]
pub struct Finished {
    pub page: String,
    pub said: Vec<Diagnostic>,
    pub exit: Exit,
    pub banner: Option<(Urgency, String)>,
}

pub open spec fn warnings_said(warnings: Seq<Seq<char>>) -> Seq<DiagnosticView> {
    warnings.map_values(|w: Seq<char>| DiagnosticView::warning(w))
}

fn say_warnings(warnings: &[String]) -> (out: Vec<Diagnostic>)
    ensures
        report::diagnostic_views(out@) == warnings_said(text::views(warnings@)),
{
    let mut said: Vec<Diagnostic> = Vec::new();
    let mut i: usize = 0;
    while i < warnings.len()
        invariant
            i <= warnings@.len(),
            said@.len() == i,
            forall|k: int|
                0 <= k < i ==> (#[trigger] said@[k])@ == DiagnosticView::warning(warnings@[k]@),
        decreases warnings@.len() - i,
    {
        said.push(Diagnostic::warning(&warnings[i]));
        i += 1;
    }
    assert(report::diagnostic_views(said@) =~= warnings_said(text::views(warnings@)));
    said
}

/// A dry run: the plan, what it warns of, and an exit of its own - nothing was backed up, and
/// nothing failed.
pub fn dry(
    plan: &Plan,
    warnings: &[String],
    repos: &[(String, Inspection)],
    quick: bool,
    home: Option<&str>,
    colour: bool,
) -> (out: Finished)
    requires
        plan::total_files(plan.roots@) <= usize::MAX,
        plan::total_bytes(plan.roots@) <= u64::MAX,
        plan::total_repos(plan.roots@) <= usize::MAX,
        render::total_objects(repos@) <= u64::MAX,
    ensures
        out.page@ == render::dry_run_page(*plan, repos@, quick, path::view_str_opt(home)).shown(
            colour,
        ),
        report::diagnostic_views(out.said@) == warnings_said(text::views(warnings@)),
        out.exit == Exit::Success,
        out.banner is None,
{
    let page = render::dry_run(plan, repos, quick, home, colour);
    let said = say_warnings(warnings);
    Finished { page, said, exit: Exit::Success, banner: None }
}

/// What each remote gives to say, for the first `n` results.
pub open spec fn results_said(results: Seq<RemoteResult>, n: int) -> Seq<DiagnosticView>
    decreases n,
{
    if n <= 0 {
        Seq::empty()
    } else {
        let before = results_said(results, n - 1);
        let result = results[n - 1];
        match result.seen.state {
            RemoteState::Failed { reason, .. } => before.push(
                DiagnosticView::error(reason@).at(LocationView::Remote(result.name@)),
            ),
            RemoteState::Behind { runs, .. } => before.push(
                DiagnosticView::warning(
                    "behind "@ + text::decimal_text(runs as nat) + " of "@ + text::decimal_text(
                        result.seen.tolerance as nat,
                    ),
                ).at(LocationView::Remote(result.name@)),
            ),
            _ => before,
        }
    }
}

/// Whether a push to any remote failed.
pub open spec fn any_failed(results: Seq<RemoteResult>) -> bool {
    exists|i: int| 0 <= i < results.len() && (#[trigger] results[i]).seen.state is Failed
}

pub open spec fn results_exit(results: Seq<RemoteResult>) -> Exit {
    if any_failed(results) {
        Exit::Failure
    } else {
        Exit::Success
    }
}

/// What the remotes did, as what to say and an exit code.
///
/// Yellow is said out loud and still exits 0, which is what makes `run` and
/// `status --check` agree: an optional remote merely unplugged is yellow in both. A
/// monitor that cries wolf every time a drive is out is a monitor people turn off.
/// Code 3 belongs to `status --check` and `doctor`, not here.
pub fn report(results: &[RemoteResult]) -> (out: (Vec<Diagnostic>, Exit))
    ensures
        report::diagnostic_views(out.0@) == results_said(results@, results@.len() as int),
        out.1 == results_exit(results@),
{
    let mut said: Vec<Diagnostic> = Vec::new();
    assert(report::diagnostic_views(said@) =~= Seq::empty());
    let mut exit = Exit::Success;
    let mut i: usize = 0;
    while i < results.len()
        invariant
            i <= results@.len(),
            report::diagnostic_views(said@) == results_said(results@, i as int),
            exit == Exit::Success || exit == Exit::Failure,
            exit == Exit::Failure ==> any_failed(results@),
            exit == Exit::Success ==> forall|k: int|
                0 <= k < i ==> !((#[trigger] results@[k]).seen.state is Failed),
        decreases results@.len() - i,
    {
        let result = &results[i];
        match &result.seen.state {
            RemoteState::Failed { reason, .. } => {
                say(&mut said, Diagnostic::error(reason).location(at_remote(&result.name)));
                exit = Exit::Failure;
                assert(results@[i as int].seen.state is Failed);
            },
            RemoteState::Behind { runs, .. } => {
                let title = cat4(
                    "behind ",
                    &decimal(*runs as u64),
                    " of ",
                    &decimal(result.seen.tolerance as u64),
                );
                say(&mut said, Diagnostic::warning(&title).location(at_remote(&result.name)));
            },
            RemoteState::Synced { .. } => {},
            RemoteState::Unseen => {},
        }
        i += 1;
    }
    (said, exit)
}

/// The names of the red remotes among the first `n`.
pub open spec fn red_names(results: Seq<RemoteResult>, n: int) -> Seq<Seq<char>>
    decreases n,
{
    if n <= 0 {
        Seq::empty()
    } else if results[n - 1].seen.red {
        red_names(results, n - 1).push(results[n - 1].name@)
    } else {
        red_names(results, n - 1)
    }
}

/// What a run interrupts for: nothing where it went well.
pub open spec fn announcement(name: Seq<char>, outcome: Exit, red: Seq<Seq<char>>) -> Option<
    (Urgency, Seq<char>),
> {
    match outcome {
        Exit::Success => None,
        Exit::Failure => if red.len() == 0 {
            Some((Urgency::Failure, name + " did not complete"@))
        } else {
            Some((Urgency::Failure, name + " could not reach "@ + text::join(red, ", "@)))
        },
        Exit::Warning => Some((Urgency::Warning, name + " finished with warnings"@)),
    }
}

pub open spec fn banner_view(banner: Option<(Urgency, String)>) -> Option<(Urgency, Seq<char>)> {
    match banner {
        Some((urgency, body)) => Some((urgency, body@)),
        None => None,
    }
}

/// Failure is loud on four channels, and this is the third of them: the exit code and
/// the state-file record carry the contract, `status` carries the red line, and a
/// banner carries the interruption.
///
/// A notification that could not be delivered is **never** a failed run. A machine in
/// a Focus mode suppresses delivery, which is expected - which is exactly why the
/// notification is the convenience and the other three are the contract.
#[must_use]
pub fn announce(profile: &Profile, outcome: Exit, remotes: &[RemoteResult]) -> (out: Option<
    (Urgency, String),
>)
    ensures
        banner_view(out) == announcement(
            profile.name@,
            outcome,
            red_names(remotes@, remotes@.len() as int),
        ),
{
    let mut failed: Vec<String> = Vec::new();
    assert(text::views(failed@) =~= Seq::empty());
    let mut i: usize = 0;
    while i < remotes.len()
        invariant
            i <= remotes@.len(),
            text::views(failed@) == red_names(remotes@, i as int),
        decreases remotes@.len() - i,
    {
        if remotes[i].seen.red {
            let ghost before = text::views(failed@);
            failed.push(remotes[i].name.clone());
            assert(text::views(failed@) =~= before.push(remotes@[i as int].name@));
        }
        i += 1;
    }
    assert(text::views(failed@).len() == failed@.len());
    let name = profile.name.as_str();
    match outcome {
        Exit::Success => None,
        Exit::Failure => if failed.len() == 0 {
            Some((Urgency::Failure, cat2(name, " did not complete")))
        } else {
            Some((Urgency::Failure, cat3(name, " could not reach ", &join_text(&failed, ", "))))
        },
        Exit::Warning => Some((Urgency::Warning, cat2(name, " finished with warnings"))),
    }
}

/// How many repositories a run found and did not take.
pub open spec fn missed(done: Completed) -> nat {
    if done.summary.repos_found > done.summary.repos_captured {
        (done.summary.repos_found - done.summary.repos_captured) as nat
    } else {
        0
    }
}

/// Everything a finished run says, in order: its own warnings, what it missed, its remotes.
pub open spec fn run_said(done: Completed) -> Seq<DiagnosticView> {
    let said = warnings_said(text::views(done.warnings@));
    let said = if missed(done) > 0 {
        said.push(
            DiagnosticView::warning(
                text::decimal_text(missed(done)) + " of "@ + text::decimal_text(
                    done.summary.repos_found as nat,
                ) + " repositories were not captured"@,
            ),
        )
    } else {
        said
    };
    said + results_said(done.remotes@, done.remotes@.len() as int)
}

pub open spec fn run_exit(done: Completed) -> Exit {
    worse_of(
        results_exit(done.remotes@),
        if missed(done) > 0 {
            Exit::Warning
        } else {
            Exit::Success
        },
    )
}

fn say_all(said: &mut Vec<Diagnostic>, more: Vec<Diagnostic>)
    ensures
        report::diagnostic_views(final(said)@) == report::diagnostic_views(old(said)@)
            + report::diagnostic_views(more@),
{
    let ghost before = report::diagnostic_views(said@);
    let ghost behind = report::diagnostic_views(more@);
    let mut more = more;
    said.append(&mut more);
    assert(report::diagnostic_views(said@) =~= before + behind);
}

/// A run that finished: what it prints and says, and what it comes to.
///
/// A quiet green run over an incomplete backup is the exact failure this project
/// exists to correct, so anything the run did not manage to take is said out loud.
pub fn one_run(profile: &Profile, done: &Completed, colour: bool) -> (out: Finished)
    ensures
        out.page@ == render::run_result_page(profile.name@, *done).shown(colour),
        report::diagnostic_views(out.said@) == run_said(*done),
        out.exit == run_exit(*done),
        banner_view(out.banner) == announcement(
            profile.name@,
            run_exit(*done),
            red_names(done.remotes@, done.remotes@.len() as int),
        ),
{
    let page = render::run_result(profile.name.as_str(), done, colour);
    let mut said = say_warnings(&done.warnings);
    let found = done.summary.repos_found;
    let captured = done.summary.repos_captured;
    let mut incomplete = Exit::Success;
    if found > captured {
        let missed: usize = found - captured;
        say(
            &mut said,
            Diagnostic::warning(
                &cat4(
                    &decimal(missed as u64),
                    " of ",
                    &decimal(found as u64),
                    " repositories were not captured",
                ),
            ),
        );
        incomplete = Exit::Warning;
    }
    let (more, pushed) = report(&done.remotes);
    say_all(&mut said, more);
    let exit = worse(pushed, incomplete);
    let banner = announce(profile, exit, &done.remotes);
    Finished { page, said, exit, banner }
}

/// A repository of the plan as the dry run lists it, or what to say where it could not be read.
pub fn inspected(key: &str, outcome: Result<Inspection, String>) -> (out: Result<
    (String, Inspection),
    Diagnostic,
>)
    ensures
        match outcome {
            Ok(inspection) => out matches Ok((k, i)) && k@ == key@ && i == inspection,
            Err(error) => out matches Err(d) && d@ == DiagnosticView::warning(
                key@ + ": "@ + error@,
            ),
        },
{
    match outcome {
        Ok(inspection) => Ok((key.to_owned(), inspection)),
        Err(error) => Err(Diagnostic::warning(&cat3(key, ": ", &error))),
    }
}

// ---------------------------------------------------------------------------
// Push
// ---------------------------------------------------------------------------

pub open spec fn nowhere_to_push(name: Seq<char>) -> DiagnosticView {
    DiagnosticView::warning(name + " has no remotes to push to"@).recovery_with(
        "tycho remote add <name> <path> -p "@ + name,
        "gives it somewhere to push"@,
    )
}

/// `tycho push`: the catch-up. No capture at all, so what
/// is in a backup never depends on when a drive was plugged in. A profile with no remotes has
/// nothing to push, which is said and is no failure.
pub fn push_wanted(profile: &Profile) -> (out: Option<Diagnostic>)
    ensures
        out is Some <==> profile.remotes@.len() == 0,
        out matches Some(d) ==> d@ == nowhere_to_push(profile.name@),
{
    if profile.remotes.len() > 0 {
        return None;
    }
    let name = profile.name.as_str();
    Some(
        Diagnostic::warning(&cat2(name, " has no remotes to push to")).recovery_with(
            &cat2("tycho remote add <name> <path> -p ", name),
            "gives it somewhere to push",
        ),
    )
}

/// What a push came to. A run in progress is about to push anyway, so that is a success, not a
/// contention error to retry.
pub fn one_push(
    profile: &Profile,
    outcome: Result<Option<Vec<RemoteResult>>, RunError>,
    status: ProfileStatus,
    colour: bool,
) -> (out: Finished)
    ensures
        out.banner is None,
        match outcome {
            Ok(None) => out.page@ == ""@ && out.said@.len() == 0 && out.exit
                == Exit::Success,
            Ok(Some(results)) => out.page@ == render::status::status_page(seq![status], None).shown(
                colour,
            ) && report::diagnostic_views(out.said@) == results_said(
                results@,
                results@.len() as int,
            ) && out.exit == results_exit(results@),
            Err(error) => out.page@ == ""@ && report::diagnostic_views(out.said@)
                == seq![run_fault(error, profile.name@)] && out.exit == Exit::Failure,
        },
{
    match outcome {
        Ok(None) => {
            let said: Vec<Diagnostic> = Vec::new();
            Finished { page: "".to_owned(), said, exit: Exit::Success, banner: None }
        },
        Ok(Some(results)) => {
            let one: Vec<ProfileStatus> = vec![status];
            assert(one@ =~= seq![status]);
            let page = render::status::status(&one, None, colour);
            let (said, exit) = report(&results);
            Finished { page, said, exit, banner: None }
        },
        Err(error) => {
            let mut said: Vec<Diagnostic> = Vec::new();
            assert(report::diagnostic_views(said@) =~= Seq::empty());
            say(&mut said, run_error(&error, profile));
            assert(report::diagnostic_views(said@) =~= seq![run_fault(error, profile.name@)]);
            Finished { page: "".to_owned(), said, exit: Exit::Failure, banner: None }
        },
    }
}

// ---------------------------------------------------------------------------
// Status
// ---------------------------------------------------------------------------

/// The line above a status that a broken config left without its profiles.
#[must_use]
pub fn banner(parsed: &Parsed) -> (out: Option<&'static str>)
    ensures
        path::view_str_opt(out) == if config::any_error(parsed.diagnostics@) {
            Some("config unreadable, showing the last run instead"@)
        } else {
            None
        },
{
    if parsed.has_errors() {
        Some("config unreadable, showing the last run instead")
    } else {
        None
    }
}

/// What a state file that could not be read is answered with.
#[must_use]
pub fn state_unread(error: &str) -> (out: Diagnostic)
    ensures
        out@ == DiagnosticView::warning(error@).note(
            "showing status with no run history because the state file could not be read"@,
        ),
{
    Diagnostic::warning(error).note(
        "showing status with no run history because the state file could not be read",
    )
}

/// The profiles a status is about: the one named, or all of them.
pub open spec fn shown_profiles(profiles: Seq<Profile>, wanted: Option<Seq<char>>) -> Seq<Profile>
    decreases profiles.len(),
{
    if profiles.len() == 0 {
        Seq::empty()
    } else {
        let before = shown_profiles(profiles.drop_last(), wanted);
        if wanted is None || wanted->0 == profiles.last().name@ {
            before.push(profiles.last())
        } else {
            before
        }
    }
}

/// # Errors
///
/// If there is none to show.
pub fn status_profiles<'a>(config: &'a Config, wanted: Option<&str>) -> (out: Result<
    Vec<&'a Profile>,
    Diagnostic,
>)
    ensures
        ({
            let name = path::view_str_opt(wanted);
            let shown = shown_profiles(config.profiles@, name);
            match out {
                Ok(v) => behind_refs(v@) == shown && shown.len() > 0,
                Err(d) => shown.len() == 0 && d@ == match name {
                    None => DiagnosticView::error("the config defines no profiles"@),
                    Some(name) => no_profile_named(name),
                },
            }
        }),
{
    let ghost name = path::view_str_opt(wanted);
    let mut out: Vec<&'a Profile> = Vec::new();
    assert(behind_refs(out@) =~= Seq::empty());
    assert(config.profiles@.take(0) =~= Seq::empty());
    let mut i: usize = 0;
    while i < config.profiles.len()
        invariant
            i <= config.profiles@.len(),
            name == path::view_str_opt(wanted),
            behind_refs(out@) == shown_profiles(config.profiles@.take(i as int), name),
        decreases config.profiles@.len() - i,
    {
        let profile = &config.profiles[i];
        assert(config.profiles@.take(i + 1).drop_last() =~= config.profiles@.take(i as int));
        let keep = match wanted {
            None => true,
            Some(name) => same(profile.name.as_str(), name),
        };
        if keep {
            let ghost before = behind_refs(out@);
            out.push(profile);
            assert(behind_refs(out@) =~= before.push(*profile));
        }
        i += 1;
    }
    assert(config.profiles@.take(i as int) =~= config.profiles@);
    assert(behind_refs(out@).len() == out@.len());
    if out.len() > 0 {
        return Ok(out);
    }
    match wanted {
        None => Err(Diagnostic::error("the config defines no profiles")),
        Some(name) => Err(unknown_profile(name)),
    }
}

/// What `status --check` weighs of one profile.
#[derive(Debug, PartialEq, Eq)]
pub struct Weighed {
    pub overdue: bool,
    pub remotes: Vec<RemoteSeen>,
}

impl Weighed {
    pub open spec fn red(self) -> bool {
        self.overdue || exists|i: int|
            0 <= i < self.remotes@.len() && (#[trigger] self.remotes@[i]).red
    }

    pub open spec fn yellow(self) -> bool {
        exists|i: int| 0 <= i < self.remotes@.len() && (#[trigger] self.remotes@[i]).yellow
    }

    /// Whether anything is red, and whether anything is yellow.
    fn weigh(&self) -> (out: (bool, bool))
        ensures
            out.0 == self.red(),
            out.1 == self.yellow(),
    {
        let mut red = self.overdue;
        let mut yellow = false;
        let mut i: usize = 0;
        while i < self.remotes.len()
            invariant
                i <= self.remotes@.len(),
                red ==> self.red(),
                !red ==> !self.overdue && forall|k: int|
                    0 <= k < i ==> !(#[trigger] self.remotes@[k]).red,
                yellow ==> self.yellow(),
                !yellow ==> forall|k: int| 0 <= k < i ==> !(#[trigger] self.remotes@[k]).yellow,
            decreases self.remotes@.len() - i,
        {
            let seen = &self.remotes[i];
            if seen.red {
                red = true;
                assert(self.remotes@[i as int].red);
            }
            if seen.yellow {
                yellow = true;
                assert(self.remotes@[i as int].yellow);
            }
            i += 1;
        }
        (red, yellow)
    }
}

pub open spec fn any_red(profiles: Seq<Weighed>) -> bool {
    exists|i: int| 0 <= i < profiles.len() && (#[trigger] profiles[i]).red()
}

pub open spec fn any_yellow(profiles: Seq<Weighed>) -> bool {
    exists|i: int| 0 <= i < profiles.len() && (#[trigger] profiles[i]).yellow()
}

/// What `status` exits with. Without `--check` it always succeeds.
pub open spec fn status_code(profiles: Seq<Weighed>, check: bool, strict: bool) -> Exit {
    if check && any_red(profiles) {
        Exit::Failure
    } else if check && strict && any_yellow(profiles) {
        Exit::Warning
    } else {
        Exit::Success
    }
}

/// Overdue is red on its own, whatever the remotes say: a backup that did not
/// happen is worse than one that happened and could not be pushed.
#[must_use]
pub fn status_exit(profiles: &[Weighed], check: bool, strict: bool) -> (out: Exit)
    ensures
        out == status_code(profiles@, check, strict),
{
    if !check {
        return Exit::Success;
    }
    let mut red = false;
    let mut yellow = false;
    let mut i: usize = 0;
    while i < profiles.len()
        invariant
            i <= profiles@.len(),
            red ==> any_red(profiles@),
            !red ==> forall|k: int| 0 <= k < i ==> !(#[trigger] profiles@[k]).red(),
            yellow ==> any_yellow(profiles@),
            !yellow ==> forall|k: int| 0 <= k < i ==> !(#[trigger] profiles@[k]).yellow(),
        decreases profiles@.len() - i,
    {
        let (r, y) = profiles[i].weigh();
        if r {
            red = true;
            assert(profiles@[i as int].red());
        }
        if y {
            yellow = true;
            assert(profiles@[i as int].yellow());
        }
        i += 1;
    }
    if red {
        return Exit::Failure;
    }
    if yellow && strict {
        return Exit::Warning;
    }
    Exit::Success
}

/// What stands in a remote's row, where the moment of its state reads as `shown`.
pub open spec fn row_detail(state: RemoteState, shown: Seq<char>) -> Seq<char> {
    match state {
        RemoteState::Unseen => "never pushed"@,
        RemoteState::Synced { .. } => "pushed "@ + shown,
        RemoteState::Behind { last_seen, .. } => if last_seen@.len() == 0 {
            "never seen"@
        } else {
            "last seen "@ + shown
        },
        RemoteState::Failed { reason, .. } => reason@,
    }
}

pub open spec fn row_note(state: RemoteState, optional: bool, shown: Seq<char>) -> Seq<char> {
    match state {
        RemoteState::Unseen => if optional {
            "optional"@
        } else {
            ""@
        },
        RemoteState::Synced { .. } => "verified"@,
        RemoteState::Behind { .. } => if optional {
            "optional, on next mount"@
        } else {
            "required"@
        },
        RemoteState::Failed { .. } => shown,
    }
}

pub open spec fn row_severity(seen: RemoteSeen) -> Verdict {
    if seen.red {
        Verdict::Fail
    } else if seen.yellow {
        Verdict::Warn
    } else {
        Verdict::Fine
    }
}

/// Whether a row is a remote's.
pub open spec fn is_row(
    out: RemoteRow,
    remote: Remote,
    profile: Seq<char>,
    seen: RemoteSeen,
    shown: Seq<char>,
) -> bool {
    &&& out.name@ == remote.name@
    &&& out.word@ == seen.word@
    &&& out.detail@ == row_detail(seen.state, shown)
    &&& out.note@ == row_note(seen.state, remote.optional, shown)
    &&& text::view_opt(out.hint) == if seen.state is Failed {
        Some("tycho log "@ + profile)
    } else {
        None
    }
    &&& out.severity == row_severity(seen)
}

/// [`row`], where the moment of the remote's state reads as `shown`.
pub fn row_of(remote: &Remote, profile: &Profile, seen: &RemoteSeen, shown: &str) -> (out: RemoteRow)
    ensures
        is_row(out, *remote, profile.name@, *seen, shown@),
{
    let mut hint: Option<String> = None;
    let detail: String;
    let note: String;
    match &seen.state {
        RemoteState::Unseen => {
            detail = "never pushed".to_owned();
            note = if remote.optional {
                "optional".to_owned()
            } else {
                "".to_owned()
            };
        },
        // `verified` appears only when the full ref-set comparison actually passed,
        // never as decoration - it is what distinguishes a verified push from a push
        // command that merely returned success.
        RemoteState::Synced { .. } => {
            detail = cat2("pushed ", shown);
            note = "verified".to_owned();
        },
        RemoteState::Behind { last_seen, .. } => {
            detail = if text::chars_of(last_seen).len() == 0 {
                "never seen".to_owned()
            } else {
                cat2("last seen ", shown)
            };
            note = if remote.optional {
                "optional, on next mount".to_owned()
            } else {
                "required".to_owned()
            };
        },
        RemoteState::Failed { reason, .. } => {
            detail = reason.clone();
            note = shown.to_owned();
            hint = Some(cat2("tycho log ", profile.name.as_str()));
        },
    }
    RemoteRow {
        name: remote.name.as_str().to_owned(),
        word: seen.word.clone(),
        detail,
        note,
        hint,
        severity: if seen.red {
            Verdict::Fail
        } else if seen.yellow {
            Verdict::Warn
        } else {
            Verdict::Fine
        },
    }
}

/// A text is what some clock makes of the moment of a state.
pub open spec fn state_reads_as(state: RemoteState, shown: Seq<char>) -> bool {
    match state {
        RemoteState::Unseen => shown == ""@,
        RemoteState::Synced { at } => moments::reads_as(at@, shown),
        RemoteState::Behind { last_seen, .. } => moments::dates_as(last_seen@, shown),
        RemoteState::Failed { at, .. } => moments::reads_as(at@, shown),
    }
}

/// One row per remote, its moments in the reader's own time.
#[must_use]
pub fn row(remote: &Remote, profile: &Profile, seen: &RemoteSeen) -> (out: RemoteRow)
    ensures
        exists|shown: Seq<char>| #[trigger]
            state_reads_as(seen.state, shown) && is_row(out, *remote, profile.name@, *seen, shown),
{
    let shown = match &seen.state {
        RemoteState::Unseen => "".to_owned(),
        RemoteState::Synced { at } => moment(at),
        RemoteState::Behind { last_seen, .. } => day(last_seen),
        RemoteState::Failed { at, .. } => moment(at),
    };
    assert(state_reads_as(seen.state, shown@));
    row_of(remote, profile, seen, &shown)
}

/// A text is what `status` prints at one moment for another, by a zone's clocks.
pub open spec fn shows_next(
    zone: jiff::tz::TimeZone,
    now: int,
    next: int,
    shown: Seq<char>,
) -> bool {
    exists|ahead: moments::Ahead| #[trigger]
        moments::looks_ahead(ahead, zone, now, next) && shown == moments::upcoming_text(ahead)
}

/// What `status` prints for the next run of a schedule: nothing where there is no schedule, or
/// where the calendar ends first.
pub open spec fn is_next_run(
    wanted: Option<Schedule>,
    zone: jiff::tz::TimeZone,
    now: int,
    out: Option<Seq<char>>,
) -> bool {
    match wanted {
        None => out is None,
        Some(wanted) => match out {
            Some(shown) => exists|next: int| #[trigger]
                wanted.fires(zone, now, next) && shows_next(zone, now, next, shown),
            None => {
                &&& wanted.runs_out(zone, now)
                &&& wanted !is Every ==> !schedule::inside_the_calendar(now)
            },
        },
    }
}

/// When a schedule fires next, as `status` prints it, from what the calendar answered.
pub fn next_run_of(now: &Moment, next: Result<Moment, jiff::Error>) -> (out: Option<String>)
    requires
        now.wf(),
        next matches Ok(next) ==> next.wf() && next.zone == now.zone,
    ensures
        match next {
            Ok(next) => out matches Some(shown) && shows_next(
                now.zone,
                now.nanos as int,
                next.nanos as int,
                shown@,
            ),
            Err(_) => out is None,
        },
{
    match next {
        Ok(next) => {
            let ahead = ahead_of(now, &next);
            assert(moments::looks_ahead(ahead, now.zone, now.nanos as int, next.nanos as int));
            Some(upcoming_of(&ahead))
        },
        Err(_) => None,
    }
}

/// When a schedule fires next after a moment, as `status` prints it then.
#[must_use]
pub fn next_run_at(wanted: Option<Schedule>, now: &Moment) -> (out: Option<String>)
    requires
        now.wf(),
        wanted matches Some(s) ==> s.wf(),
    ensures
        is_next_run(wanted, now.zone, now.nanos as int, text::view_opt(out)),
{
    match wanted {
        Some(wanted) => {
            let next = wanted.next_after(now);
            next_run_of(now, next)
        },
        None => None,
    }
}

/// When a schedule fires next, as `status` prints it.
#[must_use]
pub fn next_run(wanted: Option<Schedule>) -> (out: Option<String>)
    requires
        wanted matches Some(s) ==> s.wf(),
    ensures
        exists|zone: jiff::tz::TimeZone, now: int|
            moment::in_range(now) && #[trigger] is_next_run(
                wanted,
                zone,
                now,
                text::view_opt(out),
            ),
{
    next_run_at(wanted, &now_here())
}

/// What is known of a profile when its status is taken.
#[derive(Debug, PartialEq, Eq)]
pub struct Known {
    pub overdue: Option<Duration>,
    pub next_run: Option<String>,
    pub last: Option<RunRecord>,
    pub span: Option<Span>,
    pub rows: Vec<RemoteRow>,
}

/// One profile's status line, its subtitle, and one row per remote, where the ends of its
/// history read as `since` and `newest`.
pub fn snapshot_of(profile: &Profile, known: Known, since: &str, newest: &str) -> (out: ProfileStatus)
    ensures
        out.name@ == profile.name@,
        out.overdue == known.overdue,
        out.next_run == known.next_run,
        out.backups == match known.span {
            Some(span) => span.backups,
            None => 0,
        },
        text::view_opt(out.since) == if known.span is Some {
            Some(since@)
        } else {
            None
        },
        text::view_opt(out.newest) == if known.span is Some {
            Some(newest@)
        } else {
            None
        },
        out.store_bytes == match known.last {
            Some(run) => run.store_bytes,
            None => 0,
        },
        out.remotes == known.rows,
{
    let backups = match &known.span {
        Some(span) => span.backups,
        None => 0,
    };
    let (since, newest) = match &known.span {
        Some(_) => (Some(since.to_owned()), Some(newest.to_owned())),
        None => (None, None),
    };
    let store_bytes = match &known.last {
        Some(run) => run.store_bytes,
        None => 0,
    };
    ProfileStatus {
        name: profile.name.as_str().to_owned(),
        overdue: known.overdue,
        next_run: known.next_run,
        backups,
        since,
        newest,
        store_bytes,
        remotes: known.rows,
    }
}

/// One profile's status, its moments in the reader's own time.
#[must_use]
pub fn snapshot(profile: &Profile, known: Known) -> (out: ProfileStatus)
    ensures
        out.name@ == profile.name@,
        out.overdue == known.overdue,
        out.next_run == known.next_run,
        out.backups == match known.span {
            Some(span) => span.backups,
            None => 0,
        },
        match known.span {
            Some(span) => {
                &&& out.since matches Some(since) && moments::dates_as(span.oldest@, since@)
                &&& out.newest matches Some(newest) && moments::reads_as(span.newest@, newest@)
            },
            None => out.since is None && out.newest is None,
        },
        out.store_bytes == match known.last {
            Some(run) => run.store_bytes,
            None => 0,
        },
        out.remotes == known.rows,
{
    let (since, newest) = match &known.span {
        Some(span) => (day(&span.oldest), moment(&span.newest)),
        None => ("".to_owned(), "".to_owned()),
    };
    snapshot_of(profile, known, &since, &newest)
}

// ---------------------------------------------------------------------------
// Restore
// ---------------------------------------------------------------------------

pub open spec fn no_backups() -> DiagnosticView {
    DiagnosticView::error("this store holds no backups yet"@).recovery_with(
        "tycho run"@,
        "creates the first one"@,
    )
}

fn without_backups() -> (out: Diagnostic)
    ensures
        out@ == no_backups(),
{
    Diagnostic::error("this store holds no backups yet").recovery_with(
        "tycho run",
        "creates the first one",
    )
}

/// The newest backup, or what to say where there is none.
///
/// # Errors
///
/// If the store holds none, or could not be read.
pub fn newest(at: Result<Option<Oid>, String>) -> (out: Result<Oid, Diagnostic>)
    ensures
        found(out) == match at {
            Ok(Some(commit)) => Ok(commit),
            Ok(None) => Err(no_backups()),
            Err(error) => Err(DiagnosticView::error(error@)),
        },
{
    match at {
        Ok(Some(commit)) => Ok(commit),
        Ok(None) => Err(without_backups()),
        Err(error) => Err(Diagnostic::error(&error)),
    }
}

/// The line a restore opens with.
pub open spec fn reading_text(backups: nat, oldest: Seq<char>, newest: Seq<char>) -> Seq<char> {
    "reading   "@ + words::plural_text(backups, "backup"@) + ", "@ + oldest + " to "@ + newest
        + "\n"@
}

/// [`reading`], where the two ends of the history read as given.
pub fn reading_of(span: &Span, oldest: &str, newest: &str) -> (out: String)
    ensures
        out@ == reading_text(span.backups as nat, oldest@, newest@),
{
    cat7("reading   ", &plural(span.backups, "backup"), ", ", oldest, " to ", newest, "\n")
}

/// The line a restore opens with, or what to say where there is nothing to read.
///
/// # Errors
///
/// If the store holds no backups, or could not be read.
pub fn reading(span: Result<Option<Span>, String>) -> (out: Result<String, Diagnostic>)
    ensures
        match span {
            Ok(Some(span)) => out matches Ok(line) && exists|oldest: Seq<char>, newest: Seq<char>|
                moments::dates_as(span.oldest@, oldest) && moments::dates_as(span.newest@, newest)
                    && line@ == #[trigger] reading_text(span.backups as nat, oldest, newest),
            Ok(None) => out matches Err(d) && d@ == no_backups(),
            Err(error) => out matches Err(d) && d@ == DiagnosticView::error(error@),
        },
{
    match span {
        Ok(Some(span)) => {
            let oldest = day(&span.oldest);
            let newest = day(&span.newest);
            Ok(reading_of(&span, &oldest, &newest))
        },
        Ok(None) => Err(without_backups()),
        Err(error) => Err(Diagnostic::error(&error)),
    }
}

pub open spec fn restored_code(done: Done) -> Exit {
    if done.missing@.len() > 0 {
        Exit::Failure
    } else if done.in_conflict() {
        Exit::Warning
    } else {
        Exit::Success
    }
}

/// What a restore exits with.
///
/// A path the backup holds and the disk does not is a restore that did
/// not happen, whatever the extraction's own exit status said. Exit 1
/// rather than 3: 3 is for a refused overlay file, which
/// is still in the staging tree, and this is not.
///
/// A refused overlay file is not a failed restore - everything else
/// landed, and the file it declined to write is still in the staging
/// tree.
#[must_use]
pub fn restore(done: &Done) -> (out: Exit)
    ensures
        out == restored_code(*done),
{
    if done.missing.len() > 0 {
        Exit::Failure
    } else if done.has_conflicts() {
        Exit::Warning
    } else {
        Exit::Success
    }
}

// ---------------------------------------------------------------------------
// Config
// ---------------------------------------------------------------------------

pub open spec fn schedule_summary(wanted: Option<Schedule>) -> Seq<char> {
    match wanted {
        None => "no schedule"@,
        Some(Schedule::Daily { at }) => "daily "@ + at.shown(),
        Some(Schedule::Weekly { day, at }) => day.word() + " "@ + at.shown(),
        Some(Schedule::Every(every)) => "every "@ + text::decimal_text(every.secs as nat) + "s"@,
    }
}

/// `1 root`, `4 roots`, the count in plain digits.
pub open spec fn several(count: nat, word: Seq<char>) -> Seq<char> {
    text::decimal_text(count) + " "@ + word + if count == 1 {
        ""@
    } else {
        "s"@
    }
}

fn some_of(count: usize, word: &str) -> (out: String)
    ensures
        out@ == several(count as nat, word@),
{
    cat4(
        &decimal(count as u64),
        " ",
        word,
        if count == 1 {
            ""
        } else {
            "s"
        },
    )
}

pub open spec fn summary_text(p: Profile) -> Seq<char> {
    text::padded_right(p.name@, 18) + several(p.watch@.len(), "root"@) + ", "@ + several(
        p.ignore_paths@.len() + p.ignore_globs@.len(),
        "ignore"@,
    ) + ", "@ + several(p.reinclude@.len(), "reinclude"@) + ", "@ + several(
        p.remotes@.len(),
        "remote"@,
    ) + ", "@ + schedule_summary(p.schedule)
}

/// The echo `config check` prints: reading your own config back in summarised
/// form is how a remote attached to the wrong profile becomes visible.
#[must_use]
pub fn summarise(profile: &Profile) -> (out: String)
    requires
        profile.ignore_paths@.len() + profile.ignore_globs@.len() <= usize::MAX,
    ensures
        out@ == summary_text(*profile),
{
    let wanted = match profile.schedule {
        None => "no schedule".to_owned(),
        Some(Schedule::Daily { at }) => cat2("daily ", &at.text()),
        Some(Schedule::Weekly { day, at }) => cat3(day.as_str(), " ", &at.text()),
        Some(Schedule::Every(every)) => cat3("every ", &decimal(every.as_secs()), "s"),
    };
    let ignored: usize = profile.ignore_paths.len() + profile.ignore_globs.len();
    let head = cat6(
        &left(profile.name.as_str(), 18),
        &some_of(profile.watch.len(), "root"),
        ", ",
        &some_of(ignored, "ignore"),
        ", ",
        &some_of(profile.reinclude.len(), "reinclude"),
    );
    cat5(&head, ", ", &some_of(profile.remotes.len(), "remote"), ", ", &wanted)
}

pub open spec fn summaries(profiles: Seq<Profile>) -> Seq<Seq<char>> {
    profiles.map_values(|p: Profile| summary_text(p))
}

pub open spec fn config_code(parsed: Parsed) -> Exit {
    if config::any_error(parsed.diagnostics@) {
        Exit::Failure
    } else if parsed.diagnostics@.len() == 0 {
        Exit::Success
    } else {
        Exit::Warning
    }
}

/// `config check`: every profile read back, and everything wrong with the file.
pub fn config(parsed: &Parsed, colour: bool) -> (out: (String, Exit))
    requires
        forall|i: int|
            0 <= i < parsed.config.profiles@.len() ==> (
            #[trigger] parsed.config.profiles@[i]).ignore_paths@.len()
                + parsed.config.profiles@[i].ignore_globs@.len() <= usize::MAX,
    ensures
        out.0@ == render::config_check_page(
            summaries(parsed.config.profiles@),
            check::diag_views(parsed.diagnostics@),
        ).shown(colour),
        out.1 == config_code(*parsed),
{
    let mut echoed: Vec<String> = Vec::new();
    let mut i: usize = 0;
    while i < parsed.config.profiles.len()
        invariant
            i <= parsed.config.profiles@.len(),
            forall|k: int|
                0 <= k < parsed.config.profiles@.len() ==> (
                #[trigger] parsed.config.profiles@[k]).ignore_paths@.len()
                    + parsed.config.profiles@[k].ignore_globs@.len() <= usize::MAX,
            echoed@.len() == i,
            forall|k: int|
                0 <= k < i ==> (#[trigger] echoed@[k])@ == summary_text(
                    parsed.config.profiles@[k],
                ),
        decreases parsed.config.profiles@.len() - i,
    {
        echoed.push(summarise(&parsed.config.profiles[i]));
        i += 1;
    }
    assert(text::views(echoed@) =~= summaries(parsed.config.profiles@));
    let page = render::config_check(&echoed, &parsed.diagnostics, colour);
    let exit = if parsed.has_errors() {
        Exit::Failure
    } else if parsed.diagnostics.len() == 0 {
        Exit::Success
    } else {
        Exit::Warning
    };
    (page, exit)
}

pub open spec fn config_exists(shown: Seq<char>) -> DiagnosticView {
    DiagnosticView::error("a config file already exists"@).at(
        LocationView::File { path: shown, line: None },
    ).note("`--force` overwrites it after writing a `.bak` of the original"@).recovery(
        "tycho config init --force"@,
    )
}

/// `config init`: a starter file, refusing to overwrite one that is already there. Says
/// whether the one that is there is to be copied first.
///
/// A config is a file somebody wrote by hand, so `--force` keeps a copy rather
/// than trusting that they meant it.
///
/// # Errors
///
/// If one is there and it was not told to overwrite it.
pub fn init(shown: &str, there: bool, force: bool) -> (out: Result<bool, Diagnostic>)
    ensures
        found(out) == if there && !force {
            Err(config_exists(shown@))
        } else {
            Ok(there)
        },
{
    if there && !force {
        return Err(
            Diagnostic::error("a config file already exists").location(at_file(shown)).note(
                "`--force` overwrites it after writing a `.bak` of the original",
            ).recovery("tycho config init --force"),
        );
    }
    Ok(there)
}

/// What `config init` prints of the copy it kept.
#[must_use]
pub fn init_kept(backup: &str) -> (out: String)
    ensures
        out@ == "kept           "@ + backup@ + "\n"@,
{
    cat3("kept           ", backup, "\n")
}

/// What `config init` prints of the file it wrote.
#[must_use]
pub fn init_wrote(shown: &str) -> (out: String)
    ensures
        out@ == "wrote          "@ + shown@ + "\n\nedit it, then `tycho config check`\n"@,
{
    cat3("wrote          ", shown, "\n\nedit it, then `tycho config check`\n")
}

// ---------------------------------------------------------------------------
// Log
// ---------------------------------------------------------------------------

/// `tycho log` of a profile that has logged nothing.
#[must_use]
pub fn nothing_logged(profile: &Profile, shown: &str) -> (out: Diagnostic)
    ensures
        out@ == DiagnosticView::warning("nothing logged yet for "@ + profile.name@).at(
            LocationView::File { path: shown@, line: None },
        ),
{
    Diagnostic::warning(&cat2("nothing logged yet for ", profile.name.as_str())).location(
        at_file(shown),
    )
}

/// What `tail` is given: how many lines, whether to follow, and the file.
///
/// `tail` rather than a loop here: `-f` means following across a rotation
/// and a truncation, and getting that subtly wrong in a diagnostic tool is worse
/// than shelling out to the thing everyone already trusts to do it.
#[must_use]
pub fn tail_args(count: usize, follow: bool, shown: &str) -> (out: Vec<String>)
    ensures
        text::views(out@) == if follow {
            seq!["-n"@, text::decimal_text(count as nat), "-f"@, shown@]
        } else {
            seq!["-n"@, text::decimal_text(count as nat), shown@]
        },
{
    let mut out: Vec<String> = Vec::new();
    out.push("-n".to_owned());
    out.push(decimal(count as u64));
    if follow {
        out.push("-f".to_owned());
    }
    out.push(shown.to_owned());
    assert(text::views(out@) =~= if follow {
        seq!["-n"@, text::decimal_text(count as nat), "-f"@, shown@]
    } else {
        seq!["-n"@, text::decimal_text(count as nat), shown@]
    });
    out
}

/// What `tycho log` exits with, from what `tail` did.
#[must_use]
pub fn log(code: i32) -> (out: Exit)
    ensures
        out == if code == 0 {
            Exit::Success
        } else {
            Exit::Failure
        },
{
    if code == 0 {
        Exit::Success
    } else {
        Exit::Failure
    }
}

// ---------------------------------------------------------------------------
// Laws
// ---------------------------------------------------------------------------

/// The worse of two outcomes is a maximum: the order of the two, and of any three, is nothing to
/// it, a success changes nothing, and an outcome is as bad as itself.
pub proof fn worse_is_a_maximum(a: Exit, b: Exit, c: Exit)
    ensures
        worse_of(a, b) == worse_of(b, a),
        worse_of(a, worse_of(b, c)) == worse_of(worse_of(a, b), c),
        worse_of(a, a) == a,
        worse_of(a, Exit::Success) == a,
{
}

/// A fan-out hides nothing: it fails exactly where one of its parts failed, and it succeeds
/// exactly where all of them did.
pub proof fn the_worst_is_never_hidden(exits: Seq<Exit>)
    ensures
        worst_of(exits) == Exit::Failure <==> exits.contains(Exit::Failure),
        worst_of(exits) == Exit::Success <==> forall|i: int|
            0 <= i < exits.len() ==> #[trigger] exits[i] == Exit::Success,
    decreases exits.len(),
{
    if exits.len() > 0 {
        let before = exits.drop_last();
        the_worst_is_never_hidden(before);
        assert(forall|i: int| 0 <= i < before.len() ==> #[trigger] before[i] == exits[i]);
        if exits.contains(Exit::Failure) {
            let i = choose|i: int| 0 <= i < exits.len() && exits[i] == Exit::Failure;
            if i < before.len() {
                assert(before[i] == Exit::Failure);
            }
        }
        if before.contains(Exit::Failure) {
            let i = choose|i: int| 0 <= i < before.len() && before[i] == Exit::Failure;
            assert(exits[i] == Exit::Failure);
        }
        if exits.last() == Exit::Failure {
            assert(exits[exits.len() - 1] == Exit::Failure);
        }
        assert(exits.last() == exits[exits.len() - 1]);
        if forall|i: int| 0 <= i < exits.len() ==> #[trigger] exits[i] == Exit::Success {
            assert forall|i: int| 0 <= i < before.len() implies #[trigger] before[i]
                == Exit::Success by {
                assert(exits[i] == Exit::Success);
            }
        }
        if worst_of(exits) == Exit::Success {
            assert forall|i: int| 0 <= i < exits.len() implies #[trigger] exits[i]
                == Exit::Success by {
                if i < before.len() {
                    assert(before[i] == Exit::Success);
                }
            }
        }
    }
}

/// An incomplete backup is never a quiet green run: where a repository was found and not taken,
/// the run says so, does not succeed, and interrupts.
pub proof fn an_incomplete_run_is_loud(name: Seq<char>, done: Completed)
    requires
        done.summary.repos_captured < done.summary.repos_found,
    ensures
        run_exit(done) != Exit::Success,
        run_said(done).len() > done.warnings@.len(),
        announcement(
            name,
            run_exit(done),
            red_names(done.remotes@, done.remotes@.len() as int),
        ) is Some,
{
}

/// A remote that is merely behind is said out loud and fails nothing: `run` exits 0 on it, as
/// `status --check` does.
pub proof fn being_behind_is_no_failure(results: Seq<RemoteResult>)
    requires
        forall|i: int|
            0 <= i < results.len() ==> !((#[trigger] results[i]).seen.state is Failed),
    ensures
        results_exit(results) == Exit::Success,
{
}

/// A banner comes exactly with an outcome that is no success.
pub proof fn only_trouble_interrupts(name: Seq<char>, outcome: Exit, red: Seq<Seq<char>>)
    ensures
        announcement(name, outcome, red) is None <==> outcome == Exit::Success,
{
}

/// `--strict` never turns a failure into anything else, and without `--check` nothing fails.
pub proof fn checking_is_what_fails(profiles: Seq<Weighed>, strict: bool)
    ensures
        status_code(profiles, false, strict) == Exit::Success,
        status_code(profiles, true, strict) == Exit::Failure <==> any_red(profiles),
        status_code(profiles, true, false) != Exit::Warning,
{
}

/// A name picks the same profile whether the config holds others or not, and no profile is ever
/// picked by a name that is not its own.
pub proof fn a_name_picks_its_own_profile(profiles: Seq<Profile>, name: Seq<char>)
    ensures
        selection(profiles, Some(name)) matches Ok(p) ==> p.name@ == name && profiles.contains(p),
        selection(profiles, Some(name)) is Err <==> forall|i: int|
            0 <= i < profiles.len() ==> (#[trigger] profiles[i]).name@ != name,
{
    let names = profile_names(profiles);
    text::lemma_position_bounds(names, name);
    let at = text::position(names, name);
    if at < names.len() {
        assert(names[at] == profiles[at].name@);
    } else {
        assert forall|i: int| 0 <= i < profiles.len() implies (#[trigger] profiles[i]).name@ != name by {
            assert(names[i] == profiles[i].name@);
        }
    }
}

/// Without a name a command is about the only profile there is, and about none where there are
/// several to choose from; with `--all` it is about every one.
pub proof fn only_one_profile_is_never_asked_about(profiles: Seq<Profile>, wanted: Option<Seq<char>>)
    ensures
        selection(profiles, None) is Ok == (profiles.len() == 1),
        profiles.len() == 1 ==> selection(profiles, None) == Ok::<Profile, DiagnosticView>(
            profiles[0],
        ),
        chosen(profiles, wanted, true) is Ok == (profiles.len() > 0),
        chosen(profiles, wanted, true) matches Ok(all) ==> all == profiles,
        chosen(profiles, wanted, false) is Ok == selection(profiles, wanted) is Ok,
        chosen(profiles, wanted, false) matches Ok(all) ==> all.len() == 1 && Ok::<
            Profile,
            DiagnosticView,
        >(all[0]) == selection(profiles, wanted),
{
}

/// What a run says of its remotes: an error for each whose push failed, a warning for each that is
/// behind, both at the remote they are about, and nothing of the rest.
pub proof fn each_troubled_remote_is_told_of(results: Seq<RemoteResult>, n: int)
    requires
        0 <= n <= results.len(),
    ensures
        results_said(results, n).len() == results.take(n).filter(
            |r: RemoteResult| r.seen.state is Failed || r.seen.state is Behind,
        ).len(),
        forall|i: int|
            0 <= i < n && (#[trigger] results[i]).seen.state is Failed ==> results_said(
                results,
                n,
            ).contains(
                DiagnosticView::error(results[i].seen.state->Failed_reason@).at(
                    LocationView::Remote(results[i].name@),
                ),
            ),
        forall|i: int|
            0 <= i < n && (#[trigger] results[i]).seen.state is Behind ==> results_said(
                results,
                n,
            ).contains(
                DiagnosticView::warning(
                    "behind "@ + text::decimal_text(results[i].seen.state->Behind_runs as nat)
                        + " of "@ + text::decimal_text(results[i].seen.tolerance as nat),
                ).at(LocationView::Remote(results[i].name@)),
            ),
    decreases n,
{
    reveal(Seq::filter);
    if n > 0 {
        each_troubled_remote_is_told_of(results, n - 1);
        assert(results.take(n).drop_last() =~= results.take(n - 1));
        let before = results_said(results, n - 1);
        let after = results_said(results, n);
        assert forall|x: DiagnosticView| before.contains(x) implies #[trigger] after.contains(
            x,
        ) by {
            let k = choose|k: int| 0 <= k < before.len() && before[k] == x;
            assert(after[k] == x);
        }
        if after.len() > before.len() {
            assert(after.contains(after[after.len() - 1]));
        }
    }
}

/// The remotes a banner names are exactly the red ones, in their order.
pub proof fn a_banner_names_the_red_remotes(results: Seq<RemoteResult>, n: int)
    requires
        0 <= n <= results.len(),
    ensures
        red_names(results, n) == results.take(n).filter(
            |r: RemoteResult| r.seen.red,
        ).map_values(|r: RemoteResult| r.name@),
    decreases n,
{
    reveal(Seq::filter);
    let keeps = |r: RemoteResult| r.seen.red;
    let all = results.take(n).filter(keeps).map_values(|r: RemoteResult| r.name@);
    if n > 0 {
        a_banner_names_the_red_remotes(results, n - 1);
        assert(results.take(n).drop_last() =~= results.take(n - 1));
        assert(results.take(n).last() == results[n - 1]);
        assert(red_names(results, n) =~= all);
    } else {
        assert(red_names(results, n) =~= all);
    }
}

/// A status is about every profile, or about those of the name it was given.
pub proof fn a_status_shows_what_was_asked_for(profiles: Seq<Profile>, wanted: Option<Seq<char>>)
    ensures
        wanted is None ==> shown_profiles(profiles, wanted) == profiles,
        wanted matches Some(name) ==> shown_profiles(profiles, wanted) == profiles.filter(
            |p: Profile| p.name@ == name,
        ),
    decreases profiles.len(),
{
    reveal(Seq::filter);
    if profiles.len() > 0 {
        a_status_shows_what_was_asked_for(profiles.drop_last(), wanted);
        assert(profiles.drop_last().push(profiles.last()) =~= profiles);
    } else {
        assert(shown_profiles(profiles, wanted) =~= profiles);
    }
}

/// Checking fails on red, warns on yellow where it is strict and nothing is red, and is content
/// otherwise; a profile is red that is overdue or has a red remote.
pub proof fn strictness_minds_the_yellow(profiles: Seq<Weighed>)
    ensures
        status_code(profiles, true, true) == Exit::Warning <==> (exists|i: int, k: int|
            0 <= i < profiles.len() && 0 <= k < profiles[i].remotes@.len() && (
            #[trigger] profiles[i].remotes@[k]).yellow) && status_code(profiles, true, false)
            != Exit::Failure,
        status_code(profiles, true, false) == Exit::Failure <==> exists|i: int|
            0 <= i < profiles.len() && ((#[trigger] profiles[i]).overdue || exists|k: int|
                0 <= k < profiles[i].remotes@.len() && (#[trigger] profiles[i].remotes@[k]).red),
{
    if any_yellow(profiles) {
        let i = choose|i: int| 0 <= i < profiles.len() && (#[trigger] profiles[i]).yellow();
        let k = choose|k: int|
            0 <= k < profiles[i].remotes@.len() && (#[trigger] profiles[i].remotes@[k]).yellow;
        assert(profiles[i].remotes@[k].yellow);
    }
    if exists|i: int, k: int|
        0 <= i < profiles.len() && 0 <= k < profiles[i].remotes@.len() && (
        #[trigger] profiles[i].remotes@[k]).yellow {
        let (i, k) = choose|i: int, k: int|
            0 <= i < profiles.len() && 0 <= k < profiles[i].remotes@.len() && (
            #[trigger] profiles[i].remotes@[k]).yellow;
        assert(profiles[i].yellow());
    }
    if any_red(profiles) {
        let i = choose|i: int| 0 <= i < profiles.len() && (#[trigger] profiles[i]).red();
        assert(profiles[i].overdue || exists|k: int|
            0 <= k < profiles[i].remotes@.len() && (#[trigger] profiles[i].remotes@[k]).red);
    }
    if exists|i: int|
        0 <= i < profiles.len() && ((#[trigger] profiles[i]).overdue || exists|k: int|
            0 <= k < profiles[i].remotes@.len() && (#[trigger] profiles[i].remotes@[k]).red) {
        let i = choose|i: int|
            0 <= i < profiles.len() && ((#[trigger] profiles[i]).overdue || exists|k: int|
                0 <= k < profiles[i].remotes@.len() && (#[trigger] profiles[i].remotes@[k]).red);
        assert(profiles[i].red());
    }
}

/// A finished run fails exactly where a push failed, and else warns exactly where a repository was
/// missed.
pub proof fn a_run_exits_by_what_went_wrong(done: Completed)
    ensures
        run_exit(done) == Exit::Failure <==> exists|i: int|
            0 <= i < done.remotes@.len() && (#[trigger] done.remotes@[i]).seen.state is Failed,
        run_exit(done) == Exit::Success <==> (forall|i: int|
            0 <= i < done.remotes@.len() ==> !((#[trigger] done.remotes@[i]).seen.state is Failed))
            && done.summary.repos_found <= done.summary.repos_captured,
{
}

/// A restore fails exactly where something that was asked for is missing, and else warns exactly
/// where something was in the way.
pub proof fn a_restore_exits_by_what_is_missing(done: Done)
    ensures
        restored_code(done) == Exit::Failure <==> done.missing@.len() > 0,
        restored_code(done) == Exit::Success <==> done.missing@.len() == 0 && !done.in_conflict(),
{
}

/// Checking a config fails exactly on an error, and warns exactly where all it found were warnings.
pub proof fn a_config_fails_on_its_errors(parsed: Parsed)
    ensures
        config_code(parsed) == Exit::Failure <==> exists|i: int|
            0 <= i < parsed.diagnostics@.len() && (#[trigger] parsed.diagnostics@[i]).severity
                == config::Severity::Error,
        config_code(parsed) == Exit::Success <==> parsed.diagnostics@.len() == 0,
{
}

/// A remote's row is as bad as the remote: red fails it, yellow warns, and a failure's row points to
/// the log.
pub proof fn a_row_is_as_bad_as_its_remote(
    out: RemoteRow,
    remote: Remote,
    profile: Seq<char>,
    seen: RemoteSeen,
    shown: Seq<char>,
)
    requires
        is_row(out, remote, profile, seen, shown),
    ensures
        (out.severity == Verdict::Fail) == seen.red,
        (out.severity == Verdict::Warn) == (!seen.red && seen.yellow),
        out.hint is Some == seen.state is Failed,
        out.name@ == remote.name@,
        seen.state matches RemoteState::Failed { reason, .. } ==> out.detail@ == reason@,
{
}

/// A profile's lock stands in the data directory under the profile's name.
pub proof fn a_lock_stands_under_its_profiles_name(data: config::rules::Path, name: Seq<char>)
    requires
        path::absolute_parts(data),
        path::is_component(encode_utf8(name + ".lock"@)),
        !encode_utf8(name + ".lock"@).contains(path::BACKSLASH),
    ensures
        lock_of(data, name) == Ok::<config::rules::Path, PathFault>(
            data.push(encode_utf8(name + ".lock"@)),
        ),
{
    platform::lemma_beneath(data, name + ".lock"@);
}

} // verus!
