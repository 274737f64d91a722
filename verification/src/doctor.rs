//! Every health question in one place, one check per row.
//!
//! `doctor` follows the same exit policy as everything else, so the one command that
//! aggregates health cannot report a failure while exiting 0.

pub mod artifacts;

use crate::cli::render::health::Installed;
use crate::cli::words;
use crate::cli::words::{lasting, plural, say_or};
use crate::cli::moments;
use crate::config::schedule;
use crate::config::schedule::{Duration, Schedule, GRACE_SECS};
use crate::config::{Profile, Remote};
use crate::lines;
use crate::lines::words as line_words;
use crate::octets;
use crate::platform::launchd::Loaded;
use crate::platform::Host;
use crate::primitives::bytes;
use crate::primitives::bytes::size;
use crate::process::{Output, RunError};
use crate::store::{RemoteSeen, RemoteState, RunRecord};
use crate::text;
use crate::text::{cat2, cat3, cat4, cat5, cat6, chars_of, decimal, number, same};
use crate::textmap::TextMap;
use artifacts::Artifact;
use vstd::prelude::*;

verus! {

/// One check's verdict. Three states, because "I did not measure this" is a real
/// answer and reporting it as fine would be a lie the whole design is against.
#[derive(Clone, Copy, Debug, PartialEq, Eq, Structural)]
pub enum Verdict {
    Fine,
    Warn,
    Fail,
}

impl Verdict {
    pub open spec fn word(self) -> Seq<char> {
        match self {
            Verdict::Fine => "ok"@,
            Verdict::Warn => "warn"@,
            Verdict::Fail => "fail"@,
        }
    }

    pub fn text(self) -> (out: &'static str)
        ensures
            out@ == self.word(),
    {
        match self {
            Verdict::Fine => "ok",
            Verdict::Warn => "warn",
            Verdict::Fail => "fail",
        }
    }
}

/// One row. Evidence beside the verdict, always - a bare `warn` is something you
/// learn to ignore.
#[derive(Debug, PartialEq, Eq)]
pub struct Check {
    pub name: String,
    pub verdict: Verdict,
    pub evidence: String,
}

pub struct CheckView {
    pub name: Seq<char>,
    pub verdict: Verdict,
    pub evidence: Seq<char>,
}

impl View for Check {
    type V = CheckView;

    open spec fn view(&self) -> CheckView {
        CheckView { name: self.name@, verdict: self.verdict, evidence: self.evidence@ }
    }
}

pub open spec fn check_views(checks: Seq<Check>) -> Seq<CheckView> {
    checks.map_values(|c: Check| c@)
}

impl Check {
    pub fn new(name: &str, verdict: Verdict, evidence: &str) -> (out: Check)
        ensures
            out@ == (CheckView { name: name@, verdict, evidence: evidence@ }),
    {
        Check { name: name.to_owned(), verdict, evidence: evidence.to_owned() }
    }
}

/// A titled group of checks.
#[derive(Debug, PartialEq, Eq)]
pub struct Section {
    pub title: String,
    pub checks: Vec<Check>,
}

#[verifier::ext_equal]
pub struct SectionView {
    pub title: Seq<char>,
    pub checks: Seq<CheckView>,
}

impl View for Section {
    type V = SectionView;

    open spec fn view(&self) -> SectionView {
        SectionView { title: self.title@, checks: check_views(self.checks@) }
    }
}

pub open spec fn section_views(sections: Seq<Section>) -> Seq<SectionView> {
    sections.map_values(|s: Section| s@)
}

/// The whole report.
#[derive(Debug, PartialEq, Eq)]
pub struct Report {
    pub sections: Vec<Section>,
}

impl View for Report {
    type V = Seq<SectionView>;

    open spec fn view(&self) -> Seq<SectionView> {
        section_views(self.sections@)
    }
}

/// How many of a section's checks came to a verdict.
pub open spec fn verdicts_in(checks: Seq<CheckView>, verdict: Verdict) -> nat
    decreases checks.len(),
{
    if checks.len() == 0 {
        0
    } else {
        verdicts_in(checks.drop_last(), verdict) + if checks.last().verdict == verdict {
            1nat
        } else {
            0nat
        }
    }
}

/// How many of a report's checks came to a verdict.
pub open spec fn verdicts(sections: Seq<SectionView>, verdict: Verdict) -> nat
    decreases sections.len(),
{
    if sections.len() == 0 {
        0
    } else {
        verdicts(sections.drop_last(), verdict) + verdicts_in(sections.last().checks, verdict)
    }
}

fn tally_section(section: &Section, verdict: Verdict) -> (out: usize)
    ensures
        out == verdicts_in(section@.checks, verdict),
        out <= section.checks@.len(),
{
    let ghost all = section@.checks;
    let mut total: usize = 0;
    let mut i: usize = 0;
    while i < section.checks.len()
        invariant
            i <= section.checks@.len(),
            all == section@.checks,
            total <= i,
            total == verdicts_in(all.take(i as int), verdict),
        decreases section.checks@.len() - i,
    {
        proof {
            let more = all.take(i + 1);
            assert(more.drop_last() =~= all.take(i as int));
            assert(more.last() == section.checks@[i as int]@);
        }
        if section.checks[i].verdict == verdict {
            total += 1;
        }
        i += 1;
    }
    assert(all.take(i as int) =~= all);
    total
}

proof fn lemma_verdicts_grow(sections: Seq<SectionView>, verdict: Verdict, n: int)
    requires
        0 <= n <= sections.len(),
    ensures
        verdicts(sections.take(n), verdict) <= verdicts(sections, verdict),
    decreases sections.len() - n,
{
    if n < sections.len() {
        lemma_verdicts_grow(sections, verdict, n + 1);
        assert(sections.take(n + 1).drop_last() =~= sections.take(n));
    } else {
        assert(sections.take(n) =~= sections);
    }
}

impl Report {
    fn tally(&self, verdict: Verdict) -> (out: usize)
        requires
            verdicts(self@, verdict) <= usize::MAX,
        ensures
            out == verdicts(self@, verdict),
    {
        let ghost all = self@;
        let mut total: usize = 0;
        let mut i: usize = 0;
        while i < self.sections.len()
            invariant
                i <= self.sections@.len(),
                all == self@,
                verdicts(all, verdict) <= usize::MAX,
                total == verdicts(all.take(i as int), verdict),
            decreases self.sections@.len() - i,
        {
            proof {
                let more = all.take(i + 1);
                assert(more.drop_last() =~= all.take(i as int));
                assert(more.last() == self.sections@[i as int]@);
                lemma_verdicts_grow(all, verdict, i + 1);
            }
            total = total + tally_section(&self.sections[i], verdict);
            i += 1;
        }
        assert(all.take(i as int) =~= all);
        total
    }

    /// The failures and the warnings.
    #[must_use]
    pub fn counts(&self) -> (out: (usize, usize))
        requires
            verdicts(self@, Verdict::Fail) <= usize::MAX,
            verdicts(self@, Verdict::Warn) <= usize::MAX,
        ensures
            out.0 == verdicts(self@, Verdict::Fail),
            out.1 == verdicts(self@, Verdict::Warn),
    {
        (self.tally(Verdict::Fail), self.tally(Verdict::Warn))
    }
}

/// What `doctor` was asked to look at.
#[derive(Debug, PartialEq, Eq)]
pub struct Scope {
    /// Send a test notification and measure the agent's Full Disk Access grant
    /// through launchd. Both are actions rather than readings, which is why they are
    /// opt-in.
    pub deep: bool,
    /// Limit the remote checks to one name.
    pub remote: Option<String>,
}

/// Puts the sections of a report together: the environment, each profile, and the volumes.
#[must_use]
pub fn run(environment: Section, profiles: Vec<Section>, volumes: Section) -> (out: Report)
    ensures
        out@ == seq![environment@] + section_views(profiles@) + seq![volumes@],
{
    let mut sections: Vec<Section> = Vec::new();
    let ghost all = section_views(profiles@);
    sections.push(environment);
    let mut profiles = profiles;
    sections.append(&mut profiles);
    sections.push(volumes);
    let out = Report { sections };
    assert(out@ =~= seq![environment@] + all + seq![volumes@]);
    out
}

pub open spec fn check_of(name: Seq<char>, verdict: Verdict, evidence: Seq<char>) -> CheckView {
    CheckView { name, verdict, evidence }
}

// ---------------------------------------------------------------------------
// The environment
// ---------------------------------------------------------------------------

/// What looking at the log directory came to.
#[derive(Debug, PartialEq, Eq)]
pub struct LogDirectory {
    pub path: String,
    pub is_there: bool,
    pub writable: bool,
}

/// What looking at the machine came to.
#[derive(Debug, PartialEq, Eq)]
pub struct Surroundings {
    pub host: Host,
    /// `git --version`.
    pub git: Result<Output, RunError>,
    /// `git config --get core.longpaths`.
    pub long_paths: Result<Output, RunError>,
    pub logs: Result<LogDirectory, String>,
    /// Whether notifications have a mechanism at all.
    pub notifies: bool,
    /// What sending a test notification came to.
    pub sent: Result<(), String>,
}

/// The text without as many of a part at its start as there are.
pub open spec fn without_starts(s: Seq<char>, part: Seq<char>) -> Seq<char>
    decreases s.len(),
{
    if part.len() > 0 && text::has_prefix(s, part) {
        without_starts(s.skip(part.len() as int), part)
    } else {
        s
    }
}

fn trim_starts(s: &str, part: &str) -> (out: String)
    requires
        part@.len() > 0,
    ensures
        out@ == without_starts(s@, part@),
{
    let ghost whole = without_starts(s@, part@);
    let mut rest = s.to_owned();
    loop
        invariant
            part@.len() > 0,
            without_starts(rest@, part@) == whole,
        ensures
            rest@ == whole,
        decreases rest@.len(),
    {
        match text::strip_prefix(&rest, part) {
            Some(less) => {
                rest = less;
            },
            None => {
                break;
            },
        }
    }
    rest
}

pub open spec fn git_check(out: Result<Output, RunError>) -> CheckView {
    match out {
        Ok(o) => if o.success {
            check_of(
                "git"@,
                Verdict::Fine,
                without_starts(lines::trimmed(o.shown()), "git version "@),
            )
        } else {
            check_of("git"@, Verdict::Fail, "not runnable; nothing works without it"@)
        },
        Err(_) => check_of("git"@, Verdict::Fail, "not runnable; nothing works without it"@),
    }
}

fn check_git(out: &Result<Output, RunError>) -> (check: Check)
    ensures
        check@ == git_check(*out),
{
    proof {
        reveal_strlit("git version ");
    }
    match out {
        Ok(o) => {
            if o.success {
                return Check::new("git", Verdict::Fine, &trim_starts(&o.trimmed(), "git version "));
            }
        },
        Err(_) => {},
    }
    Check::new("git", Verdict::Fail, "not runnable; nothing works without it")
}

/// Nothing to ask on a platform with no path-length limit to switch off.
pub open spec fn long_paths_check(host: Host, out: Result<Output, RunError>) -> Option<CheckView> {
    if host != Host::Windows {
        None
    } else if out matches Ok(o) && lines::trimmed(o.shown()) == "true"@ {
        Some(check_of("core.longpaths"@, Verdict::Fine, "true"@))
    } else {
        Some(
            check_of(
                "core.longpaths"@,
                Verdict::Warn,
                "unset; git skips paths past 260 characters at exit 0. git config --global core.longpaths true"@,
            ),
        )
    }
}

pub open spec fn check_opt(check: Option<Check>) -> Option<CheckView> {
    match check {
        Some(c) => Some(c@),
        None => None,
    }
}

/// Whether git will open a path past 260 characters.
///
/// This is a `Warn` and not a `Fail` because most trees never reach the limit, and a
/// row that is red on every machine is a row people learn to ignore. It earns its
/// place because of *how* it fails: with `core.longpaths` off, `git add` on a
/// directory past the limit prints `Filename too long`, **exits 0**, and stages
/// nothing - so a captured repository loses files while the run stays green. That is
/// the failure class this project exists to prevent, and it is invisible without
/// being told.
pub fn long_paths(host: Host, out: &Result<Output, RunError>) -> (check: Option<Check>)
    ensures
        check_opt(check) == long_paths_check(host, *out),
{
    match host {
        Host::Windows => {},
        _ => return None,
    }
    let enabled = match out {
        Ok(o) => same(&o.trimmed(), "true"),
        Err(_) => false,
    };
    if enabled {
        Some(Check::new("core.longpaths", Verdict::Fine, "true"))
    } else {
        Some(
            Check::new(
                "core.longpaths",
                Verdict::Warn,
                "unset; git skips paths past 260 characters at exit 0. git config --global core.longpaths true",
            ),
        )
    }
}

pub open spec fn access_check(host: Host) -> Option<CheckView> {
    match host {
        Host::MacOs => Some(
            check_of(
                "full disk access"@,
                Verdict::Warn,
                "not measurable from a terminal, use --deep"@,
            ),
        ),
        _ => None,
    }
}

/// The agent's Full Disk Access grant, which plain `doctor` cannot measure.
///
/// An interactive `doctor` runs with the terminal's TCC grant, a different grant from
/// the agent's, so reading a watched root here proves nothing about what the agent can
/// do. Only a probe through the scheduler measures the real thing, which is what
/// `--deep` does. TCC is Apple's, and elsewhere there is no equivalent to report.
pub fn full_disk_access(host: Host) -> (check: Option<Check>)
    ensures
        check_opt(check) == access_check(host),
{
    match host {
        Host::MacOs => Some(
            Check::new(
                "full disk access",
                Verdict::Warn,
                "not measurable from a terminal, use --deep",
            ),
        ),
        _ => None,
    }
}

pub open spec fn logs_check(logs: Result<LogDirectory, String>) -> CheckView {
    match logs {
        Ok(dir) => if !dir.is_there {
            check_of(
                "log directory"@,
                Verdict::Warn,
                dir.path@ + " does not exist; service install creates it"@,
            )
        } else if dir.writable {
            check_of("log directory"@, Verdict::Fine, dir.path@ + ", writable"@)
        } else {
            check_of("log directory"@, Verdict::Fail, dir.path@ + " is not writable"@)
        },
        Err(error) => check_of("log directory"@, Verdict::Fail, error@),
    }
}

fn check_logs(logs: &Result<LogDirectory, String>) -> (check: Check)
    ensures
        check@ == logs_check(*logs),
{
    match logs {
        Ok(dir) => {
            // launchd silently drops output when this does not exist, so a missing
            // one means the diagnostic trail the design leans on is not being written.
            if !dir.is_there {
                Check::new(
                    "log directory",
                    Verdict::Warn,
                    &cat2(&dir.path, " does not exist; service install creates it"),
                )
            } else if dir.writable {
                Check::new("log directory", Verdict::Fine, &cat2(&dir.path, ", writable"))
            } else {
                Check::new("log directory", Verdict::Fail, &cat2(&dir.path, " is not writable"))
            }
        },
        Err(error) => Check::new("log directory", Verdict::Fail, error),
    }
}

pub open spec fn notify_check(notifies: bool, sent: Result<(), String>, deep: bool) -> CheckView {
    if !notifies {
        check_of(
            "notifications"@,
            Verdict::Warn,
            "no mechanism on this platform; the exit code is the contract"@,
        )
    } else if !deep {
        check_of(
            "notifications"@,
            Verdict::Warn,
            "available, delivery not tested, use --deep"@,
        )
    } else {
        match sent {
            Ok(()) => check_of("notifications"@, Verdict::Fine, "test notification sent"@),
            Err(error) => check_of("notifications"@, Verdict::Fail, error@),
        }
    }
}

fn check_notifications(notifies: bool, sent: &Result<(), String>, deep: bool) -> (check: Check)
    ensures
        check@ == notify_check(notifies, *sent, deep),
{
    if !notifies {
        return Check::new(
            "notifications",
            Verdict::Warn,
            "no mechanism on this platform; the exit code is the contract",
        );
    }
    if !deep {
        // Delivery cannot be measured without sending one, and a health check
        // that sends a banner nobody asked for is a health check people disable.
        return Check::new(
            "notifications",
            Verdict::Warn,
            "available, delivery not tested, use --deep",
        );
    }
    match sent {
        Ok(()) => Check::new("notifications", Verdict::Fine, "test notification sent"),
        Err(error) => Check::new("notifications", Verdict::Fail, error),
    }
}

/// A list with one more check, where there is one.
pub open spec fn and_maybe(checks: Seq<CheckView>, check: Option<CheckView>) -> Seq<CheckView> {
    match check {
        Some(c) => checks.push(c),
        None => checks,
    }
}

pub open spec fn environment_checks(
    profiles: nat,
    deep: bool,
    seen: Surroundings,
) -> Seq<CheckView> {
    let checks = seq![
        git_check(seen.git),
        check_of(
            "config"@,
            Verdict::Fine,
            words::plural_text(profiles, "profile"@) + ", no errors"@,
        ),
    ];
    let checks = and_maybe(checks, long_paths_check(seen.host, seen.long_paths));
    let checks = checks.push(logs_check(seen.logs)).push(
        notify_check(seen.notifies, seen.sent, deep),
    );
    and_maybe(checks, access_check(seen.host))
}

fn push_check(checks: &mut Vec<Check>, check: Check)
    ensures
        check_views(final(checks)@) == check_views(old(checks)@).push(check@),
{
    let ghost before = check_views(checks@);
    checks.push(check);
    assert(check_views(checks@) =~= before.push(check@));
}

fn push_maybe(checks: &mut Vec<Check>, check: Option<Check>)
    ensures
        check_views(final(checks)@) == and_maybe(check_views(old(checks)@), check_opt(check)),
{
    if let Some(check) = check {
        push_check(checks, check);
    }
}

/// What holds of the machine, whatever the profiles.
#[must_use]
pub fn environment(profiles: usize, scope: &Scope, seen: &Surroundings) -> (out: Section)
    ensures
        out@ == (SectionView {
            title: "environment"@,
            checks: environment_checks(profiles as nat, scope.deep, *seen),
        }),
{
    let mut checks: Vec<Check> = Vec::new();
    assert(check_views(checks@) =~= Seq::empty());
    push_check(&mut checks, check_git(&seen.git));
    push_check(
        &mut checks,
        Check::new("config", Verdict::Fine, &cat2(&plural(profiles, "profile"), ", no errors")),
    );
    assert(check_views(checks@) =~= seq![
        git_check(seen.git),
        check_of(
            "config"@,
            Verdict::Fine,
            words::plural_text(profiles as nat, "profile"@) + ", no errors"@,
        ),
    ]);
    push_maybe(&mut checks, long_paths(seen.host, &seen.long_paths));
    push_check(&mut checks, check_logs(&seen.logs));
    push_check(&mut checks, check_notifications(seen.notifies, &seen.sent, scope.deep));
    push_maybe(&mut checks, full_disk_access(seen.host));
    Section { title: "environment".to_owned(), checks }
}

// ---------------------------------------------------------------------------
// A profile
// ---------------------------------------------------------------------------

/// What looking at a volume for Spotlight came to.
#[derive(Debug, PartialEq, Eq)]
pub struct Indexing {
    /// Where the volume is mounted.
    pub volume: String,
    /// Whether it is the machine's own disk.
    pub is_root: bool,
    /// Whether it keeps a journal, where that could be told.
    pub journaled: Option<bool>,
    /// `mdutil -s`, where it could be run.
    pub printed: Option<Output>,
}

/// The folder a remote resolved to, and what looking at it came to.
#[derive(Debug, PartialEq, Eq)]
pub struct Folder {
    pub path: String,
    /// Whether the volume records ownership, where that could be told.
    pub records_ownership: Option<bool>,
    /// The volume the folder is on, where that could be told.
    pub indexing: Option<Indexing>,
    pub artifacts: Vec<Artifact>,
}

/// What looking at a remote came to.
#[derive(Debug, PartialEq, Eq)]
pub struct RemoteHealth {
    pub seen: RemoteSeen,
    /// The folder, where the configured path resolves.
    pub folder: Option<Folder>,
}

/// What looking at a store came to.
#[derive(Debug, PartialEq, Eq)]
pub struct StoreHealth {
    /// How many backups there are and the day of the newest, where there is one.
    pub span: Result<Option<(usize, String)>, String>,
    /// How many refs there are.
    pub refs: Result<usize, String>,
    /// The store's own consistency check.
    pub fsck: Result<Output, RunError>,
}

/// What looking at a profile came to.
#[derive(Debug, PartialEq, Eq)]
pub struct ProfileHealth {
    /// The profile's agent.
    pub agent: Result<Installed, String>,
    /// Whether the agent's schedule is the config's, where there is something to compare.
    pub matches: Option<bool>,
    pub overdue: Option<Duration>,
    /// The store, where there is one.
    pub store: Option<StoreHealth>,
    /// The remotes, one for each that is configured.
    pub remotes: Vec<RemoteHealth>,
}

pub open spec fn agent_check(agent: Result<Installed, String>) -> CheckView {
    match agent {
        Ok(installed) => match installed.loaded {
            Loaded::No => check_of(
                "agent"@,
                Verdict::Warn,
                "not loaded; nothing is scheduled, so nothing runs by itself"@,
            ),
            Loaded::Yes { last, .. } => if last.clean() {
                check_of("agent"@, Verdict::Fine, "loaded, last exit 0"@)
            } else {
                check_of("agent"@, Verdict::Fail, "loaded, "@ + last.shown())
            },
        },
        Err(error) => check_of("agent"@, Verdict::Fail, error@),
    }
}

fn check_agent(agent: &Result<Installed, String>) -> (check: Check)
    ensures
        check@ == agent_check(*agent),
{
    match agent {
        Ok(installed) => match installed.loaded {
            Loaded::No => Check::new(
                "agent",
                Verdict::Warn,
                "not loaded; nothing is scheduled, so nothing runs by itself",
            ),
            Loaded::Yes { last, .. } => {
                if last.is_clean() {
                    Check::new("agent", Verdict::Fine, "loaded, last exit 0")
                } else {
                    // The evidence that reveals a year of silent failure,
                    // shown without being asked for.
                    Check::new("agent", Verdict::Fail, &cat2("loaded, ", &last.text()))
                }
            },
        },
        Err(error) => Check::new("agent", Verdict::Fail, error),
    }
}

pub open spec fn drift_check(
    agent: Result<Installed, String>,
    matches: Option<bool>,
    wanted: Option<Schedule>,
) -> CheckView {
    match agent {
        Ok(installed) => match matches {
            None => check_of("agent schedule"@, Verdict::Warn, "nothing installed to compare"@),
            Some(agrees) => if agrees {
                check_of("agent schedule"@, Verdict::Fine, "matches config"@)
            } else {
                check_of(
                    "agent schedule"@,
                    Verdict::Fail,
                    "installed "@ + words::said_or(installed.scheduled, "nothing"@)
                        + " but the config says "@ + words::said_or(wanted, "nothing"@),
                )
            },
        },
        Err(error) => check_of("agent schedule"@, Verdict::Fail, error@),
    }
}

fn check_drift(
    agent: &Result<Installed, String>,
    matches: Option<bool>,
    wanted: Option<Schedule>,
) -> (check: Check)
    ensures
        check@ == drift_check(*agent, matches, wanted),
{
    // Drift between what the config says and what is actually installed is precisely
    // what kills a scheduled backup, and it is a cheap comparison.
    match agent {
        Ok(installed) => match matches {
            None => Check::new("agent schedule", Verdict::Warn, "nothing installed to compare"),
            Some(agrees) => {
                if agrees {
                    Check::new("agent schedule", Verdict::Fine, "matches config")
                } else {
                    Check::new(
                        "agent schedule",
                        Verdict::Fail,
                        &cat4(
                            "installed ",
                            &say_or(installed.scheduled, "nothing"),
                            " but the config says ",
                            &say_or(wanted, "nothing"),
                        ),
                    )
                }
            },
        },
        Err(error) => Check::new("agent schedule", Verdict::Fail, error),
    }
}

pub open spec fn overdue_check(overdue: Option<Duration>) -> CheckView {
    match overdue {
        None => check_of("schedule"@, Verdict::Fine, "not overdue"@),
        Some(over) => check_of(
            "schedule"@,
            Verdict::Fail,
            "overdue by "@ + words::until_text(words::capped(over.secs)),
        ),
    }
}

fn check_overdue(overdue: Option<Duration>) -> (check: Check)
    ensures
        check@ == overdue_check(overdue),
{
    match overdue {
        None => Check::new("schedule", Verdict::Fine, "not overdue"),
        Some(over) => Check::new(
            "schedule",
            Verdict::Fail,
            &cat2("overdue by ", &lasting(over.as_secs())),
        ),
    }
}

pub open spec fn store_check(store: Option<StoreHealth>) -> CheckView {
    match store {
        Some(store) => match store.span {
            Ok(Some((backups, newest))) => check_of(
                "store"@,
                Verdict::Fine,
                words::plural_text(backups as nat, "backup"@) + ", newest "@ + newest@,
            ),
            Ok(None) => check_of("store"@, Verdict::Warn, "exists but holds no backups yet"@),
            Err(error) => check_of("store"@, Verdict::Fail, error@),
        },
        None => check_of("store"@, Verdict::Warn, "not created yet; run once"@),
    }
}

fn check_store(store: &Option<StoreHealth>) -> (check: Check)
    ensures
        check@ == store_check(*store),
{
    match store {
        Some(store) => match &store.span {
            Ok(Some((backups, newest))) => Check::new(
                "store",
                Verdict::Fine,
                &cat3(&plural(*backups, "backup"), ", newest ", newest),
            ),
            Ok(None) => Check::new("store", Verdict::Warn, "exists but holds no backups yet"),
            Err(error) => Check::new("store", Verdict::Fail, error),
        },
        None => Check::new("store", Verdict::Warn, "not created yet; run once"),
    }
}

pub open spec fn refs_check(refs: Result<usize, String>) -> CheckView {
    match refs {
        Ok(n) => check_of("refs"@, Verdict::Fine, words::plural_text(n as nat, "ref"@)),
        Err(error) => check_of("refs"@, Verdict::Fail, error@),
    }
}

fn check_refs(refs: &Result<usize, String>) -> (check: Check)
    ensures
        check@ == refs_check(*refs),
{
    match refs {
        Ok(n) => Check::new("refs", Verdict::Fine, &plural(*n, "ref")),
        Err(error) => Check::new("refs", Verdict::Fail, error),
    }
}

/// The arguments of the consistency check.
///
/// Cheap by default. A full fsck reads every object, and on a cloud remote
/// that would download the entire backup.
#[must_use]
pub fn fsck_args(deep: bool) -> (out: Vec<&'static str>)
    ensures
        out@ == if deep {
            seq!["fsck", "--no-progress"]
        } else {
            seq!["fsck", "--connectivity-only", "--no-progress"]
        },
{
    if deep {
        vec!["fsck", "--no-progress"]
    } else {
        vec!["fsck", "--connectivity-only", "--no-progress"]
    }
}

pub open spec fn objects_check(fsck: Result<Output, RunError>, deep: bool) -> CheckView {
    match fsck {
        Ok(out) => if out.success {
            check_of(
                "objects"@,
                Verdict::Fine,
                if deep {
                    "full fsck clean"@
                } else {
                    "connectivity clean"@
                },
            )
        } else {
            let said = lines::lines_of(octets::lossy(out.stderr@));
            check_of(
                "objects"@,
                Verdict::Fail,
                if said.len() > 0 {
                    said[0]
                } else {
                    "fsck reported problems"@
                },
            )
        },
        Err(error) => check_of("objects"@, Verdict::Fail, error.message@),
    }
}

fn check_objects(fsck: &Result<Output, RunError>, deep: bool) -> (check: Check)
    ensures
        check@ == objects_check(*fsck, deep),
{
    match fsck {
        Ok(out) => {
            if out.success {
                return Check::new(
                    "objects",
                    Verdict::Fine,
                    if deep {
                        "full fsck clean"
                    } else {
                        "connectivity clean"
                    },
                );
            }
            let said = lines::lines(&octets::lossy_text(&out.stderr));
            assert(text::views(said@).len() == said@.len());
            if said.len() > 0 {
                assert(text::views(said@)[0] == said@[0]@);
                Check::new("objects", Verdict::Fail, &said[0])
            } else {
                Check::new("objects", Verdict::Fail, "fsck reported problems")
            }
        },
        Err(error) => Check::new("objects", Verdict::Fail, &error.message),
    }
}

pub open spec fn remote_check(name: Seq<char>, optional: bool, seen: RemoteSeen) -> CheckView {
    match seen.state {
        RemoteState::Failed { reason, .. } => check_of(name, Verdict::Fail, reason@),
        RemoteState::Behind { runs, .. } => check_of(
            name,
            Verdict::Warn,
            "behind "@ + text::decimal_text(runs as nat) + " of "@ + text::decimal_text(
                seen.tolerance as nat,
            ) + if optional {
                ", optional"@
            } else {
                ""@
            },
        ),
        RemoteState::Unseen => check_of(name, Verdict::Warn, "never pushed"@),
        RemoteState::Synced { .. } => check_of(name, Verdict::Fine, "all refs present, verified"@),
    }
}

fn check_remote(name: &str, optional: bool, seen: &RemoteSeen) -> (check: Check)
    ensures
        check@ == remote_check(name@, optional, *seen),
{
    match &seen.state {
        RemoteState::Failed { reason, .. } => Check::new(name, Verdict::Fail, reason),
        RemoteState::Behind { runs, .. } => Check::new(
            name,
            Verdict::Warn,
            &cat5(
                "behind ",
                &decimal(*runs as u64),
                " of ",
                &decimal(seen.tolerance as u64),
                if optional {
                    ", optional"
                } else {
                    ""
                },
            ),
        ),
        RemoteState::Unseen => Check::new(name, Verdict::Warn, "never pushed"),
        RemoteState::Synced { .. } => Check::new(name, Verdict::Fine, "all refs present, verified"),
    }
}

pub open spec fn privacy_check(name: Seq<char>, folder: Folder) -> Option<CheckView> {
    if folder.records_ownership == Some(false) {
        Some(
            check_of(
                name + " privacy"@,
                Verdict::Warn,
                folder.path@
                    + " records no ownership, so this backup is readable by anyone with the disk; encrypt the volume or accept it"@,
            ),
        )
    } else {
        None
    }
}

/// The store is refused on a volume like this; a remote is only warned
/// about. Refusing it would ban the cross-platform external drive outright,
/// because exFAT is the only filesystem macOS and Windows can both write and
/// it records no ownership - and no offsite copy is worse than an exposed
/// one. The choice is the user's; saying nothing would take it from them.
fn check_privacy(name: &str, folder: &Folder) -> (check: Option<Check>)
    ensures
        check_opt(check) == privacy_check(name@, *folder),
{
    match folder.records_ownership {
        Some(records) => {
            if records {
                None
            } else {
                Some(
                    Check::new(
                        &cat2(name, " privacy"),
                        Verdict::Warn,
                        &cat2(
                            &folder.path,
                            " records no ownership, so this backup is readable by anyone with the disk; encrypt the volume or accept it",
                        ),
                    ),
                )
            }
        },
        None => None,
    }
}

/// Whether the volume is one that Spotlight's indexing can destroy, and is being indexed.
pub open spec fn indexed(seen: Indexing) -> bool {
    !seen.is_root && seen.journaled == Some(false) && (seen.printed matches Some(out)
        && text::contains_text(out.shown(), "Indexing enabled"@))
}

pub open spec fn spotlight_check(
    host: Host,
    name: Seq<char>,
    seen: Option<Indexing>,
) -> Option<CheckView> {
    match (host, seen) {
        (Host::MacOs, Some(seen)) => if indexed(seen) {
            Some(
                check_of(
                    name + " spotlight"@,
                    Verdict::Warn,
                    "Spotlight is indexing "@ + seen.volume@
                        + ", which keeps no journal - so an interrupted index write stays broken and can corrupt the volume past repair. sudo mdutil -i off "@
                        + seen.volume@ + " && sudo mdutil -E "@ + seen.volume@,
                ),
            )
        } else {
            None
        },
        _ => None,
    }
}

/// Whether Spotlight is indexing a removable backup volume, which can destroy it.
///
/// exFAT keeps no journal, so an interrupted directory write is permanent rather than
/// replayed at mount. Spotlight rewrites its index constantly and invisibly, which
/// keeps that window open on a drive people unplug.
///
/// **Asked of `mdutil`, not inferred from `.Spotlight-V100` existing**: macOS
/// recreates that directory on mount whatever the indexing state. Only a positive answer
/// counts. A volume mdutil cannot speak for is not evidence
/// of anything, and a row that fires on "I could not tell" is a row people skim.
///
/// A journaled volume replays an interrupted write at mount, so Spotlight there is
/// wasted IO rather than a hazard.
///
/// `mdutil -s` reads state and needs no privilege; turning indexing off does, which is
/// why the remedy is printed rather than performed. Spotlight is Apple's, and so is the failure.
pub fn spotlight(host: Host, name: &str, seen: &Option<Indexing>) -> (check: Option<Check>)
    ensures
        check_opt(check) == spotlight_check(host, name@, *seen),
{
    match host {
        Host::MacOs => {},
        _ => return None,
    }
    let seen = match seen {
        Some(seen) => seen,
        None => return None,
    };
    if seen.is_root {
        return None;
    }
    match seen.journaled {
        Some(journaled) => {
            if journaled {
                return None;
            }
        },
        None => return None,
    }
    let printed = match &seen.printed {
        Some(printed) => printed,
        None => return None,
    };
    if !text::holds_text(&printed.text(), "Indexing enabled") {
        return None;
    }
    Some(
        Check::new(
            &cat2(name, " spotlight"),
            Verdict::Warn,
            &cat6(
                "Spotlight is indexing ",
                &seen.volume,
                ", which keeps no journal - so an interrupted index write stays broken and can corrupt the volume past repair. sudo mdutil -i off ",
                &seen.volume,
                " && sudo mdutil -E ",
                &seen.volume,
            ),
        ),
    )
}

pub open spec fn artifacts_check(name: Seq<char>, found: Seq<Artifact>) -> Option<CheckView> {
    if found.len() > 0 {
        Some(
            check_of(
                name + " artifacts"@,
                Verdict::Fail,
                words::plural_text(found.len(), "file"@) + ": "@ + artifacts::file_name(
                    found[0].path@,
                ) + " ("@ + found[0].kind.words() + ")"@,
            ),
        )
    } else {
        None
    }
}

fn check_artifacts(name: &str, found: &[Artifact]) -> (check: Option<Check>)
    ensures
        check_opt(check) == artifacts_check(name@, found@),
{
    let len: usize = found.len();
    if len == 0 {
        return None;
    }
    let first = &found[0];
    Some(
        Check::new(
            &cat2(name, " artifacts"),
            Verdict::Fail,
            &cat6(
                &plural(len, "file"),
                ": ",
                &artifacts::shown_name(&first.path),
                " (",
                first.kind.text(),
                ")",
            ),
        ),
    )
}

/// A remote's rows: its state, and what its folder shows where it resolves.
pub open spec fn remote_rows(
    checks: Seq<CheckView>,
    host: Host,
    name: Seq<char>,
    optional: bool,
    health: RemoteHealth,
) -> Seq<CheckView> {
    let checks = checks.push(remote_check(name, optional, health.seen));
    match health.folder {
        Some(folder) => and_maybe(
            and_maybe(
                and_maybe(checks, privacy_check(name, folder)),
                spotlight_check(host, name, folder.indexing),
            ),
            artifacts_check(name, folder.artifacts@),
        ),
        None => checks,
    }
}

/// The rows of the first `n` remotes that are looked at.
pub open spec fn remotes_rows(
    checks: Seq<CheckView>,
    host: Host,
    remotes: Seq<Remote>,
    health: Seq<RemoteHealth>,
    wanted: Option<Seq<char>>,
    n: int,
) -> Seq<CheckView>
    decreases n,
{
    if n <= 0 {
        checks
    } else {
        let before = remotes_rows(checks, host, remotes, health, wanted, n - 1);
        let remote = remotes[n - 1];
        if wanted is Some && wanted->0 != remote.name@ {
            before
        } else {
            remote_rows(before, host, remote.name@, remote.optional, health[n - 1])
        }
    }
}

fn push_remote(checks: &mut Vec<Check>, host: Host, remote: &Remote, health: &RemoteHealth)
    ensures
        check_views(final(checks)@) == remote_rows(
            check_views(old(checks)@),
            host,
            remote.name@,
            remote.optional,
            *health,
        ),
{
    let name = remote.name.as_str();
    push_check(checks, check_remote(name, remote.optional, &health.seen));
    if let Some(folder) = &health.folder {
        push_maybe(checks, check_privacy(name, folder));
        push_maybe(checks, spotlight(host, name, &folder.indexing));
        push_maybe(checks, check_artifacts(name, &folder.artifacts));
    }
}

pub open spec fn profile_checks(
    host: Host,
    profile: Profile,
    scope: Scope,
    health: ProfileHealth,
) -> Seq<CheckView> {
    let checks = seq![
        agent_check(health.agent),
        drift_check(health.agent, health.matches, profile.schedule),
        overdue_check(health.overdue),
        store_check(health.store),
    ];
    let checks = match health.store {
        Some(store) => checks.push(refs_check(store.refs)).push(
            objects_check(store.fsck, scope.deep),
        ),
        None => checks,
    };
    remotes_rows(
        checks,
        host,
        profile.remotes@,
        health.remotes@,
        text::view_opt(scope.remote),
        profile.remotes@.len() as int,
    )
}

/// Everything there is to say of one profile.
#[must_use]
pub fn profile_section(
    host: Host,
    profile: &Profile,
    scope: &Scope,
    health: &ProfileHealth,
) -> (out: Section)
    requires
        health.remotes@.len() == profile.remotes@.len(),
    ensures
        out@ == (SectionView {
            title: profile.name@,
            checks: profile_checks(host, *profile, *scope, *health),
        }),
{
    let mut checks: Vec<Check> = Vec::new();
    assert(check_views(checks@) =~= Seq::empty());
    push_check(&mut checks, check_agent(&health.agent));
    push_check(&mut checks, check_drift(&health.agent, health.matches, profile.schedule));
    push_check(&mut checks, check_overdue(health.overdue));
    push_check(&mut checks, check_store(&health.store));
    assert(check_views(checks@) =~= seq![
        agent_check(health.agent),
        drift_check(health.agent, health.matches, profile.schedule),
        overdue_check(health.overdue),
        store_check(health.store),
    ]);
    if let Some(store) = &health.store {
        push_check(&mut checks, check_refs(&store.refs));
        push_check(&mut checks, check_objects(&store.fsck, scope.deep));
    }
    let ghost start = check_views(checks@);
    let ghost wanted = text::view_opt(scope.remote);
    let mut i: usize = 0;
    while i < profile.remotes.len()
        invariant
            i <= profile.remotes@.len(),
            health.remotes@.len() == profile.remotes@.len(),
            wanted == text::view_opt(scope.remote),
            check_views(checks@) == remotes_rows(
                start,
                host,
                profile.remotes@,
                health.remotes@,
                wanted,
                i as int,
            ),
        decreases profile.remotes@.len() - i,
    {
        let remote = &profile.remotes[i];
        let skipped = match &scope.remote {
            Some(name) => !same(name, remote.name.as_str()),
            None => false,
        };
        if !skipped {
            push_remote(&mut checks, host, remote, &health.remotes[i]);
        }
        i += 1;
    }
    Section { title: profile.name.as_str().to_owned(), checks }
}

// ---------------------------------------------------------------------------
// Volumes
// ---------------------------------------------------------------------------

/// How many of the first `n` places are on a volume.
pub open spec fn users_of(places: Seq<Seq<char>>, volume: Seq<char>, n: int) -> nat
    decreases n,
{
    if n <= 0 {
        0
    } else {
        users_of(places, volume, n - 1) + if places[n - 1] == volume {
            1nat
        } else {
            0nat
        }
    }
}

/// Counts the stores and remotes on each volume, given the volume of each.
pub fn group(places: &[String]) -> (out: TextMap<usize>)
    ensures
        forall|v: Seq<char>| #[trigger]
            out@.dom().contains(v) <==> users_of(
                text::views(places@),
                v,
                places@.len() as int,
            ) > 0,
        forall|v: Seq<char>| #[trigger]
            out@.dom().contains(v) ==> out@[v] == users_of(
                text::views(places@),
                v,
                places@.len() as int,
            ),
{
    let ghost all = text::views(places@);
    let mut out: TextMap<usize> = TextMap::new();
    let mut i: usize = 0;
    while i < places.len()
        invariant
            i <= places@.len(),
            all == text::views(places@),
            forall|v: Seq<char>| #[trigger]
                out@.dom().contains(v) <==> users_of(all, v, i as int) > 0,
            forall|v: Seq<char>| #[trigger]
                out@.dom().contains(v) ==> out@[v] == users_of(all, v, i as int),
        decreases places@.len() - i,
    {
        let ghost before = out@;
        let ghost place = places@[i as int]@;
        proof {
            assert(all[i as int] == place);
            lemma_users_bound(all, place, i as int);
        }
        let count: usize = match out.get(&places[i]) {
            Some(count) => *count,
            None => 0,
        };
        out.insert(places[i].clone(), count + 1);
        proof {
            assert forall|v: Seq<char>| #[trigger]
                out@.dom().contains(v) <==> users_of(all, v, i + 1) > 0 by {
                assert(before.dom().contains(v) <==> users_of(all, v, i as int) > 0);
            }
            assert forall|v: Seq<char>| #[trigger]
                out@.dom().contains(v) implies out@[v] == users_of(all, v, i + 1) by {
                assert(before.dom().contains(v) <==> users_of(all, v, i as int) > 0);
            }
        }
        i += 1;
    }
    out
}

proof fn lemma_users_bound(places: Seq<Seq<char>>, volume: Seq<char>, n: int)
    requires
        0 <= n,
    ensures
        users_of(places, volume, n) <= n,
    decreases n,
{
    if n > 0 {
        lemma_users_bound(places, volume, n - 1);
    }
}

/// Ten gigabytes is not a threshold with a story behind it; it is
/// enough to notice before a store that grows monotonically stops
/// being able to write.
pub const LOW_SPACE: u64 = 10_000_000_000;

pub open spec fn volume_check(volume: Seq<char>, users: nat, free: Option<u64>) -> CheckView {
    match free {
        Some(free) => check_of(
            volume,
            if free < LOW_SPACE {
                Verdict::Warn
            } else {
                Verdict::Fine
            },
            bytes::size_text(free as nat) + " free, "@ + words::plural_text(users, "user"@),
        ),
        None => check_of(volume, Verdict::Warn, "not mounted"@),
    }
}

pub open spec fn volume_checks(
    rows: Seq<(Seq<char>, usize)>,
    free: Seq<Option<u64>>,
    n: int,
) -> Seq<CheckView>
    decreases n,
{
    if n <= 0 {
        Seq::empty()
    } else {
        volume_checks(rows, free, n - 1).push(
            volume_check(rows[n - 1].0, rows[n - 1].1 as nat, free[n - 1]),
        )
    }
}

/// Grouped by disk rather than by profile, because that is how the constraint works:
/// several profiles can share a drive, and the store keeps full history, so free
/// space is what they contend for.
#[must_use]
pub fn volumes(wanted: &TextMap<usize>, free: &[Option<u64>]) -> (out: Section)
    requires
        free@.len() == wanted.rows().len(),
    ensures
        out@ == (SectionView {
            title: "volumes"@,
            checks: volume_checks(wanted.rows(), free@, free@.len() as int),
        }),
{
    let mut checks: Vec<Check> = Vec::new();
    assert(check_views(checks@) =~= Seq::empty());
    let mut i: usize = 0;
    while i < free.len()
        invariant
            i <= free@.len(),
            free@.len() == wanted.rows().len(),
            check_views(checks@) == volume_checks(wanted.rows(), free@, i as int),
        decreases free@.len() - i,
    {
        let volume = wanted.key(i);
        let users: usize = *wanted.value(i);
        let check = match free[i] {
            Some(left) => {
                let verdict = if left < LOW_SPACE {
                    Verdict::Warn
                } else {
                    Verdict::Fine
                };
                Check::new(
                    volume,
                    verdict,
                    &cat3(&size(left), " free, ", &plural(users, "user")),
                )
            },
            None => Check::new(volume, Verdict::Warn, "not mounted"),
        };
        push_check(&mut checks, check);
        i += 1;
    }
    Section { title: "volumes".to_owned(), checks }
}

/// The words of the second line `df` prints, where it prints one.
pub open spec fn df_words(out: Output) -> Option<Seq<Seq<char>>> {
    let printed = lines::lines_of(out.shown());
    if printed.len() >= 2 {
        Some(lines::words_of(printed[1]))
    } else {
        None
    }
}

fn df_line(out: &Output) -> (found: Option<Vec<String>>)
    ensures
        match found {
            Some(v) => df_words(*out) == Some(text::views(v@)),
            None => df_words(*out) is None,
        },
{
    let printed = lines::lines(&out.text());
    assert(text::views(printed@).len() == printed@.len());
    if printed.len() < 2 {
        return None;
    }
    assert(text::views(printed@)[1] == printed@[1]@);
    Some(line_words(&printed[1]))
}

/// The mount point `df -P` printed for a path, or the path itself where it printed none.
#[must_use]
pub fn volume_of(path: &str, out: Option<&Output>) -> (volume: String)
    ensures
        volume@ == match out {
            Some(o) => match df_words(*o) {
                Some(words) => if words.len() > 0 {
                    words.last()
                } else {
                    path@
                },
                None => path@,
            },
            None => path@,
        },
{
    let out = match out {
        Some(out) => out,
        None => return path.to_owned(),
    };
    match df_line(out) {
        Some(words) => {
            let len: usize = words.len();
            assert(text::views(words@).len() == len);
            if len > 0 {
                assert(text::views(words@)[len - 1] == words@[len - 1]@);
                words[len - 1].clone()
            } else {
                path.to_owned()
            }
        },
        None => path.to_owned(),
    }
}

/// The bytes left, as `df -Pk` prints them. A count of more than can be held is none.
pub open spec fn free_in(out: Output) -> Option<nat> {
    match df_words(out) {
        Some(words) => if words.len() >= 4 {
            match text::parsed_number(words[3], u64::MAX as nat) {
                Some(blocks) => if blocks * 1024 <= u64::MAX {
                    Some(blocks * 1024)
                } else {
                    None
                },
                None => None,
            }
        } else {
            None
        },
        None => None,
    }
}

#[must_use]
pub fn free_bytes(out: &Output) -> (free: Option<u64>)
    ensures
        match free {
            Some(n) => free_in(*out) == Some(n as nat),
            None => free_in(*out) is None,
        },
{
    let words = match df_line(out) {
        Some(words) => words,
        None => return None,
    };
    assert(text::views(words@).len() == words@.len());
    if words.len() < 4 {
        return None;
    }
    assert(text::views(words@)[3] == words@[3]@);
    match number(&chars_of(&words[3]), u64::MAX) {
        Some(blocks) => blocks.checked_mul(1024),
        None => None,
    }
}

// ---------------------------------------------------------------------------
// Overdue
// ---------------------------------------------------------------------------

/// The first run that did not fail.
pub open spec fn last_success(runs: Seq<RunRecord>) -> Option<RunRecord>
    decreases runs.len(),
{
    if runs.len() == 0 {
        None
    } else if !runs[0].failed {
        Some(runs[0])
    } else {
        last_success(runs.skip(1))
    }
}

/// The second of the last success. A moment that cannot be read is as none.
pub open spec fn success_second(runs: Seq<RunRecord>) -> Option<i64> {
    match last_success(runs) {
        Some(run) => moments::second_of(run.when@),
        None => None,
    }
}

/// How far past its schedule a profile is at a given second. A profile with no schedule is never
/// overdue.
pub open spec fn overdue_then(
    wanted: Option<Schedule>,
    runs: Seq<RunRecord>,
    now: i64,
) -> Option<Duration> {
    match wanted {
        Some(wanted) => schedule::overdue_spec(wanted, success_second(runs), now),
        None => None,
    }
}

/// [`overdue`], at a given second. The runs stand newest first.
pub fn overdue_at(wanted: Option<Schedule>, runs: &[RunRecord], now: i64) -> (out: Option<Duration>)
    requires
        wanted matches Some(s) ==> s.interval_secs() + GRACE_SECS <= u64::MAX,
        now <= LAST_SECOND,
    ensures
        out == overdue_then(wanted, runs@, now),
{
    let due = match wanted {
        Some(due) => due,
        None => return None,
    };
    let mut i: usize = 0;
    assert(runs@.skip(0) =~= runs@);
    while i < runs.len()
        invariant
            i <= runs@.len(),
            wanted == Some(due),
            due.interval_secs() + GRACE_SECS <= u64::MAX,
            now <= LAST_SECOND,
            last_success(runs@) == last_success(runs@.skip(i as int)),
        decreases runs@.len() - i,
    {
        assert(runs@.skip(i as int)[0] == runs@[i as int]);
        assert(runs@.skip(i as int).skip(1) =~= runs@.skip(i + 1));
        if !runs[i].failed {
            let last = moments::read_second(&runs[i].when);
            return due.overdue_at(last, now);
        }
        i += 1;
    }
    due.overdue_at(None, now)
}

/// The greatest second that a timestamp can hold.
pub const LAST_SECOND: i64 = 253_402_207_200;

/// The check that makes the no-daemon design safe rather than merely cheap.
///
/// `man launchd.plist` promises catch-up across sleep and says nothing about
/// power-off, so a Mac shut down over a weekend would silently skip its weekly backup
/// and nothing would ever notice. Every invocation of every agent runs this.
#[must_use]
pub fn overdue(wanted: Option<Schedule>, runs: &[RunRecord]) -> (out: Option<Duration>)
    requires
        wanted matches Some(s) ==> s.interval_secs() + GRACE_SECS <= u64::MAX,
    ensures
        wanted is None ==> out is None,
        wanted matches Some(s) ==> success_second(runs@) is None ==> out == Some(
            Duration { secs: s.interval_secs() },
        ),
        exists|now: i64| out == #[trigger] overdue_then(wanted, runs@, now),
{
    overdue_at(wanted, runs, moments::now_second())
}

// ---------------------------------------------------------------------------
// Laws
// ---------------------------------------------------------------------------

/// A run that failed is no backup: putting one in front changes nothing of how overdue a
/// profile is.
pub proof fn a_failed_run_resets_nothing(
    wanted: Option<Schedule>,
    failed: RunRecord,
    runs: Seq<RunRecord>,
    now: i64,
)
    requires
        failed.failed,
    ensures
        overdue_then(wanted, seq![failed] + runs, now) == overdue_then(wanted, runs, now),
{
    assert((seq![failed] + runs).skip(1) =~= runs);
}

/// A profile for which no backup has ever worked is overdue by its whole interval, whatever the
/// time.
pub proof fn never_backed_up_is_overdue(wanted: Schedule, runs: Seq<RunRecord>, now: i64)
    requires
        forall|i: int| 0 <= i < runs.len() ==> (#[trigger] runs[i]).failed,
    ensures
        overdue_then(Some(wanted), runs, now) == Some(Duration { secs: wanted.interval_secs() }),
    decreases runs.len(),
{
    if runs.len() > 0 {
        assert(runs[0].failed);
        assert forall|i: int| 0 <= i < runs.skip(1).len() implies (#[trigger] runs.skip(1)[i]).failed by {
            assert(runs.skip(1)[i] == runs[i + 1]);
        }
        never_backed_up_is_overdue(wanted, runs.skip(1), now);
    }
}

/// A report counts every check once, under the verdict it came to.
pub proof fn every_check_is_counted_once(
    checks: Seq<CheckView>,
    sections: Seq<SectionView>,
    more: SectionView,
    verdict: Verdict,
)
    ensures
        verdicts_in(checks, verdict) == checks.filter(|c: CheckView| c.verdict == verdict).len(),
        verdicts_in(checks, Verdict::Fine) + verdicts_in(checks, Verdict::Warn) + verdicts_in(
            checks,
            Verdict::Fail,
        ) == checks.len(),
        verdicts(sections.push(more), verdict) == verdicts(sections, verdict) + verdicts_in(
            more.checks,
            verdict,
        ),
    decreases checks.len(),
{
    reveal(Seq::filter);
    assert(sections.push(more).drop_last() =~= sections);
    if checks.len() > 0 {
        every_check_is_counted_once(checks.drop_last(), sections, more, verdict);
    }
}

/// A report counts a check exactly where one came to the verdict.
pub proof fn a_verdict_is_counted_where_it_was_come_to(sections: Seq<SectionView>, verdict: Verdict)
    ensures
        verdicts(sections, verdict) > 0 <==> exists|i: int, k: int|
            0 <= i < sections.len() && 0 <= k < sections[i].checks.len() && (
            #[trigger] sections[i].checks[k]).verdict == verdict,
    decreases sections.len(),
{
    if sections.len() > 0 {
        let above = sections.drop_last();
        let last = sections.last().checks;
        a_verdict_is_counted_where_it_was_come_to(above, verdict);
        lemma_counted(last, verdict);
        if verdicts(above, verdict) > 0 {
            let (i, k) = choose|i: int, k: int|
                0 <= i < above.len() && 0 <= k < above[i].checks.len() && (
                #[trigger] above[i].checks[k]).verdict == verdict;
            assert(sections[i].checks[k].verdict == verdict);
        }
        if verdicts_in(last, verdict) > 0 {
            let k = choose|k: int| 0 <= k < last.len() && (#[trigger] last[k]).verdict == verdict;
            assert(sections[sections.len() - 1].checks[k].verdict == verdict);
        }
        if exists|i: int, k: int|
            0 <= i < sections.len() && 0 <= k < sections[i].checks.len() && (
            #[trigger] sections[i].checks[k]).verdict == verdict {
            let (i, k) = choose|i: int, k: int|
                0 <= i < sections.len() && 0 <= k < sections[i].checks.len() && (
                #[trigger] sections[i].checks[k]).verdict == verdict;
            if i < above.len() {
                assert(above[i].checks[k].verdict == verdict);
            } else {
                assert(last[k].verdict == verdict);
            }
        }
    }
}

proof fn lemma_counted(checks: Seq<CheckView>, verdict: Verdict)
    ensures
        verdicts_in(checks, verdict) > 0 <==> exists|k: int|
            0 <= k < checks.len() && (#[trigger] checks[k]).verdict == verdict,
    decreases checks.len(),
{
    if checks.len() > 0 {
        let above = checks.drop_last();
        lemma_counted(above, verdict);
        if verdicts_in(above, verdict) > 0 {
            let k = choose|k: int| 0 <= k < above.len() && (#[trigger] above[k]).verdict == verdict;
            assert(checks[k].verdict == verdict);
        }
        if checks.last().verdict == verdict {
            assert(checks[checks.len() - 1].verdict == verdict);
        }
        if exists|k: int| 0 <= k < checks.len() && (#[trigger] checks[k]).verdict == verdict {
            let k = choose|k: int|
                0 <= k < checks.len() && (#[trigger] checks[k]).verdict == verdict;
            if k < above.len() {
                assert(above[k].verdict == verdict);
            }
        }
    }
}

/// What fails the environment: git that cannot be run, a log directory that cannot be written, and
/// a notification that was tried and not sent. What was not measured is a warning, not a pass.
pub proof fn the_environment_fails_on_what_is_broken(
    host: Host,
    git: Result<Output, RunError>,
    logs: Result<LogDirectory, String>,
    notifies: bool,
    sent: Result<(), String>,
    deep: bool,
)
    ensures
        git_check(git).verdict == if git matches Ok(o) && o.success {
            Verdict::Fine
        } else {
            Verdict::Fail
        },
        logs_check(logs).verdict == Verdict::Fail <==> (logs matches Ok(dir) ==> dir.is_there
            && !dir.writable),
        logs_check(logs).verdict == Verdict::Fine <==> (logs matches Ok(dir) && dir.is_there
            && dir.writable),
        notify_check(notifies, sent, deep).verdict == Verdict::Fail <==> notifies && deep
            && sent is Err,
        notify_check(notifies, sent, deep).verdict == Verdict::Fine <==> notifies && deep
            && sent is Ok,
        long_paths_check(host, git) is Some <==> host == Host::Windows,
        long_paths_check(host, git) matches Some(c) ==> (c.verdict == Verdict::Fine <==> (
        git matches Ok(o) && lines::trimmed(o.shown()) == "true"@)),
        access_check(host) is Some <==> host == Host::MacOs,
        access_check(host) matches Some(c) ==> c.verdict == Verdict::Warn,
{
}

/// What fails a profile: an agent that failed or cannot be asked, one that was installed for another
/// schedule, a run that is overdue, and a store, its refs or its objects that cannot be read. What
/// has not happened yet is a warning.
pub proof fn a_profile_fails_on_what_is_broken(
    agent: Result<Installed, String>,
    matches: Option<bool>,
    wanted: Option<Schedule>,
    overdue: Option<Duration>,
    store: Option<StoreHealth>,
    refs: Result<usize, String>,
    fsck: Result<Output, RunError>,
    deep: bool,
)
    ensures
        agent_check(agent).verdict == match agent {
            Err(_) => Verdict::Fail,
            Ok(installed) => match installed.loaded {
                Loaded::No => Verdict::Warn,
                Loaded::Yes { last, .. } => if last.clean() {
                    Verdict::Fine
                } else {
                    Verdict::Fail
                },
            },
        },
        drift_check(agent, matches, wanted).verdict == Verdict::Fail <==> agent is Err || matches
            == Some(false),
        drift_check(agent, matches, wanted).verdict == Verdict::Fine <==> agent is Ok && matches
            == Some(true),
        overdue_check(overdue).verdict == if overdue is Some {
            Verdict::Fail
        } else {
            Verdict::Fine
        },
        store_check(store).verdict == Verdict::Fail <==> (store matches Some(s) && s.span is Err),
        store_check(store).verdict == Verdict::Fine <==> (store matches Some(s)
            && s.span matches Ok(span) && span is Some),
        refs_check(refs).verdict == if refs is Ok {
            Verdict::Fine
        } else {
            Verdict::Fail
        },
        objects_check(fsck, deep).verdict == if fsck matches Ok(o) && o.success {
            Verdict::Fine
        } else {
            Verdict::Fail
        },
{
}

/// What fails a remote: a push that failed, and files in it that are none of git's. One that is
/// behind or was never pushed is a warning, and so is a disk that keeps no owners or is indexed
/// without a journal.
pub proof fn a_remote_fails_on_what_is_broken(
    host: Host,
    name: Seq<char>,
    optional: bool,
    seen: RemoteSeen,
    folder: Folder,
    indexing: Option<Indexing>,
    found: Seq<Artifact>,
)
    ensures
        remote_check(name, optional, seen).verdict == match seen.state {
            RemoteState::Failed { .. } => Verdict::Fail,
            RemoteState::Behind { .. } => Verdict::Warn,
            RemoteState::Unseen => Verdict::Warn,
            RemoteState::Synced { .. } => Verdict::Fine,
        },
        privacy_check(name, folder) is Some <==> folder.records_ownership == Some(false),
        privacy_check(name, folder) matches Some(c) ==> c.verdict == Verdict::Warn,
        spotlight_check(host, name, indexing) is Some <==> host == Host::MacOs && (
        indexing matches Some(i) && !i.is_root && i.journaled == Some(false) && (
        i.printed matches Some(out) && text::contains_text(out.shown(), "Indexing enabled"@))),
        spotlight_check(host, name, indexing) matches Some(c) ==> c.verdict == Verdict::Warn,
        artifacts_check(name, found) is Some <==> found.len() > 0,
        artifacts_check(name, found) matches Some(c) ==> c.verdict == Verdict::Fail,
{
}

/// Every remote that is looked at has its row, and with `--remote` the others have none: what was
/// there before stays, in front.
pub proof fn every_remote_has_its_row(
    checks: Seq<CheckView>,
    host: Host,
    remotes: Seq<Remote>,
    health: Seq<RemoteHealth>,
    wanted: Option<Seq<char>>,
    n: int,
    i: int,
)
    requires
        0 <= i < n <= remotes.len(),
        health.len() == remotes.len(),
        wanted is None || wanted->0 == remotes[i].name@,
    ensures
        remotes_rows(checks, host, remotes, health, wanted, n).contains(
            remote_check(remotes[i].name@, remotes[i].optional, health[i].seen),
        ),
        health[i].folder matches Some(folder) ==> (artifacts_check(
            remotes[i].name@,
            folder.artifacts@,
        ) matches Some(c) ==> remotes_rows(checks, host, remotes, health, wanted, n).contains(c)),
        health[i].folder matches Some(folder) ==> (privacy_check(
            remotes[i].name@,
            folder,
        ) matches Some(c) ==> remotes_rows(checks, host, remotes, health, wanted, n).contains(c)),
        health[i].folder matches Some(folder) ==> (spotlight_check(
            host,
            remotes[i].name@,
            folder.indexing,
        ) matches Some(c) ==> remotes_rows(checks, host, remotes, health, wanted, n).contains(c)),
    decreases n,
{
    let before = remotes_rows(checks, host, remotes, health, wanted, n - 1);
    let after = remotes_rows(checks, host, remotes, health, wanted, n);
    let remote = remotes[n - 1];
    if i < n - 1 {
        every_remote_has_its_row(checks, host, remotes, health, wanted, n - 1, i);
        assert(before.is_prefix_of(after)) by {
            assert(before =~= after.subrange(0, before.len() as int));
        }
        assert forall|c: CheckView| before.contains(c) implies #[trigger] after.contains(c) by {
            let k = choose|k: int| 0 <= k < before.len() && before[k] == c;
            assert(after[k] == c);
        }
    } else {
        let one = before.push(remote_check(remote.name@, remote.optional, health[i].seen));
        assert(after == remote_rows(before, host, remote.name@, remote.optional, health[i]));
        if let Some(folder) = health[i].folder {
            let two = and_maybe(one, privacy_check(remote.name@, folder));
            let three = and_maybe(two, spotlight_check(host, remote.name@, folder.indexing));
            assert(after == and_maybe(three, artifacts_check(remote.name@, folder.artifacts@)));
            assert(after[before.len() as int] == one.last());
            if privacy_check(remote.name@, folder) is Some {
                assert(after[one.len() as int] == two.last());
            }
            if spotlight_check(host, remote.name@, folder.indexing) is Some {
                assert(after[two.len() as int] == three.last());
            }
            if artifacts_check(remote.name@, folder.artifacts@) is Some {
                assert(after[three.len() as int] == after.last());
            }
        } else {
            assert(after[before.len() as int] == one.last());
        }
    }
}

/// A volume is warned about where it is not mounted or has less than ten gigabytes of room.
pub proof fn a_full_volume_is_warned_about(volume: Seq<char>, users: nat, free: Option<u64>)
    ensures
        volume_check(volume, users, free).verdict == if free matches Some(n) && n >= 10_000_000_000 {
            Verdict::Fine
        } else {
            Verdict::Warn
        },
{
}

/// The users of a volume are the places that are on it.
pub proof fn users_are_the_places_on_a_volume(places: Seq<Seq<char>>, volume: Seq<char>, n: int)
    requires
        0 <= n <= places.len(),
    ensures
        users_of(places, volume, n) == places.take(n).filter(|p: Seq<char>| p == volume).len(),
    decreases n,
{
    reveal(Seq::filter);
    if n > 0 {
        users_are_the_places_on_a_volume(places, volume, n - 1);
        assert(places.take(n).drop_last() =~= places.take(n - 1));
    }
}

/// The last success is the newest run that did not fail: every run before it in the list, which is
/// newest first, did.
pub proof fn the_last_success_is_the_newest(runs: Seq<RunRecord>)
    ensures
        match last_success(runs) {
            Some(run) => exists|i: int|
                0 <= i < runs.len() && #[trigger] runs[i] == run && !run.failed && forall|j: int|
                    0 <= j < i ==> (#[trigger] runs[j]).failed,
            None => forall|i: int| 0 <= i < runs.len() ==> (#[trigger] runs[i]).failed,
        },
    decreases runs.len(),
{
    if runs.len() > 0 {
        if !runs[0].failed {
            assert(runs[0] == last_success(runs)->0);
        } else {
            let rest = runs.skip(1);
            the_last_success_is_the_newest(rest);
            match last_success(rest) {
                Some(run) => {
                    let i = choose|i: int|
                        0 <= i < rest.len() && #[trigger] rest[i] == run && !run.failed && forall|
                            j: int,
                        |
                            0 <= j < i ==> (#[trigger] rest[j]).failed;
                    assert(runs[i + 1] == run);
                    assert forall|j: int| 0 <= j < i + 1 implies (#[trigger] runs[j]).failed by {
                        if j > 0 {
                            assert(rest[j - 1] == runs[j]);
                        }
                    }
                },
                None => {
                    assert forall|i: int| 0 <= i < runs.len() implies (
                    #[trigger] runs[i]).failed by {
                        if i > 0 {
                            assert(rest[i - 1] == runs[i]);
                        }
                    }
                },
            }
        }
    }
}

/// The environment's report holds every check there is on its host: git and the config always, what
/// long paths need on Windows, the logs and the notifications always, and disk access on macOS.
pub proof fn the_environment_is_looked_at_whole(profiles: nat, deep: bool, seen: Surroundings)
    ensures
        ({
            let checks = environment_checks(profiles, deep, seen);
            &&& checks.contains(git_check(seen.git))
            &&& checks.contains(logs_check(seen.logs))
            &&& checks.contains(notify_check(seen.notifies, seen.sent, deep))
            &&& long_paths_check(seen.host, seen.long_paths) matches Some(c) ==> checks.contains(c)
            &&& access_check(seen.host) matches Some(c) ==> checks.contains(c)
            &&& checks.len() == 4 + (if seen.host == Host::Windows || seen.host == Host::MacOs {
                1int
            } else {
                0
            })
        }),
{
    let checks = environment_checks(profiles, deep, seen);
    let long = long_paths_check(seen.host, seen.long_paths);
    let at: int = if long is Some {
        3
    } else {
        2
    };
    assert(checks[0] == git_check(seen.git));
    if long is Some {
        assert(checks[2] == long->0);
    }
    assert(checks[at] == logs_check(seen.logs));
    assert(checks[at + 1] == notify_check(seen.notifies, seen.sent, deep));
    if access_check(seen.host) is Some {
        assert(checks[at + 2] == access_check(seen.host)->0);
    }
}

/// A profile's report holds every check of it: its agent, its schedule, whether it is overdue, and
/// its store with the refs and the objects where there is one.
pub proof fn a_profile_is_looked_at_whole(
    host: Host,
    profile: Profile,
    scope: Scope,
    health: ProfileHealth,
)
    ensures
        ({
            let checks = profile_checks(host, profile, scope, health);
            &&& checks.contains(agent_check(health.agent))
            &&& checks.contains(drift_check(health.agent, health.matches, profile.schedule))
            &&& checks.contains(overdue_check(health.overdue))
            &&& checks.contains(store_check(health.store))
            &&& health.store matches Some(store) ==> checks.contains(refs_check(store.refs))
                && checks.contains(objects_check(store.fsck, scope.deep))
        }),
{
    let first = seq![
        agent_check(health.agent),
        drift_check(health.agent, health.matches, profile.schedule),
        overdue_check(health.overdue),
        store_check(health.store),
    ];
    let start = match health.store {
        Some(store) => first.push(refs_check(store.refs)).push(
            objects_check(store.fsck, scope.deep),
        ),
        None => first,
    };
    let n = profile.remotes@.len() as int;
    let wanted = text::view_opt(scope.remote);
    let checks = profile_checks(host, profile, scope, health);
    lemma_rows_follow(start, host, profile.remotes@, health.remotes@, wanted, n);
    assert(checks == remotes_rows(start, host, profile.remotes@, health.remotes@, wanted, n));
    assert forall|k: int| 0 <= k < start.len() implies checks.contains(#[trigger] start[k]) by {
        assert(checks[k] == start[k]);
    }
    assert(start[0] == first[0] && start[1] == first[1] && start[2] == first[2] && start[3]
        == first[3]);
    if let Some(store) = health.store {
        assert(start[4] == refs_check(store.refs));
        assert(start[5] == objects_check(store.fsck, scope.deep));
    }
}

proof fn lemma_rows_follow(
    checks: Seq<CheckView>,
    host: Host,
    remotes: Seq<Remote>,
    health: Seq<RemoteHealth>,
    wanted: Option<Seq<char>>,
    n: int,
)
    ensures
        remotes_rows(checks, host, remotes, health, wanted, n).len() >= checks.len(),
        forall|k: int|
            0 <= k < checks.len() ==> #[trigger] remotes_rows(
                checks,
                host,
                remotes,
                health,
                wanted,
                n,
            )[k] == checks[k],
    decreases n,
{
    if n > 0 {
        lemma_rows_follow(checks, host, remotes, health, wanted, n - 1);
        let before = remotes_rows(checks, host, remotes, health, wanted, n - 1);
        let after = remotes_rows(checks, host, remotes, health, wanted, n);
        assert forall|k: int| 0 <= k < checks.len() implies #[trigger] after[k] == checks[k] by {
            assert(after[k] == before[k]);
        }
    }
}

/// The room left is the fourth word of the second line, in blocks of a kibibyte.
pub proof fn room_is_counted_in_kibibytes(out: Output, blocks: nat)
    requires
        lines::lines_of(out.shown()).len() >= 2,
        lines::words_of(lines::lines_of(out.shown())[1]).len() >= 4,
        lines::words_of(lines::lines_of(out.shown())[1])[3] == text::decimal_text(blocks),
        blocks * 1024 <= u64::MAX,
    ensures
        free_in(out) == Some(1024 * blocks),
{
    text::decimals_round_trip(blocks, u64::MAX as nat);
}

/// Every volume has its row, in order.
pub proof fn every_volume_has_its_row(rows: Seq<(Seq<char>, usize)>, free: Seq<Option<u64>>, n: int)
    requires
        0 <= n <= rows.len(),
        free.len() == rows.len(),
    ensures
        volume_checks(rows, free, n).len() == n,
        forall|i: int|
            0 <= i < n ==> #[trigger] volume_checks(rows, free, n)[i] == volume_check(
                rows[i].0,
                rows[i].1 as nat,
                free[i],
            ),
    decreases n,
{
    if n > 0 {
        every_volume_has_its_row(rows, free, n - 1);
        let before = volume_checks(rows, free, n - 1);
        let after = volume_checks(rows, free, n);
        assert forall|i: int| 0 <= i < n implies #[trigger] after[i] == volume_check(
            rows[i].0,
            rows[i].1 as nat,
            free[i],
        ) by {
            if i < n - 1 {
                assert(after[i] == before[i]);
            }
        }
    }
}

/// A start that stands in front of a text, however often, is taken off it, and nothing else is.
pub proof fn a_start_is_taken_off(part: Seq<char>, s: Seq<char>)
    requires
        part.len() > 0,
    ensures
        without_starts(part + s, part) == without_starts(s, part),
        !part.is_prefix_of(s) ==> without_starts(s, part) == s,
{
    let whole = part + s;
    assert(whole.take(part.len() as int) =~= part);
    assert(whole.skip(part.len() as int) =~= s);
    if text::has_prefix(s, part) {
        assert(part =~= s.subrange(0, part.len() as int));
    }
}

} // verus!
