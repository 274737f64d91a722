//! Agent labels, the plists Tycho generates, and the `launchctl` lifecycle.
//!
//! The plist is generated, never hand-written. A hand-written plist that had drifted
//! from what the script needed is a large part of how a backup fails unnoticed.

use crate::config::{Duration, Schedule, TimeOfDay, Weekday};
use crate::lines;
use crate::lines::trim;
use crate::octets;
use crate::octets::lossy_text;
use crate::plan;
use crate::platform;
use crate::platform::under;
use crate::primitives::path;
use crate::primitives::path::{AbsPath, PathError, Vars};
use crate::process;
use crate::process::{command, Call, Output, RunError, Timeout};
use crate::text;
use crate::text::{between, cat2, cat3, cat4, cat6, chars_of, decimal, same, signed, split_once};
use vstd::prelude::*;

verus! {

#[derive(Debug, PartialEq, Eq)]
pub enum LaunchdError {
    Run(RunError),
    Path(PathError),
    Io { context: String, source: String },
    Refused { action: String, label: String, detail: String },
}

impl LaunchdError {
    pub open spec fn message(self) -> Seq<char> {
        match self {
            LaunchdError::Run(e) => e.message@,
            LaunchdError::Path(e) => e@.message(),
            LaunchdError::Io { context, source } => context@ + ": "@ + source@,
            LaunchdError::Refused { action, label, detail } => "launchctl "@ + action@
                + " refused "@ + label@ + ": "@ + detail@,
        }
    }

    pub fn text(&self) -> (out: String)
        ensures
            out@ == self.message(),
    {
        match self {
            LaunchdError::Run(e) => e.message.clone(),
            LaunchdError::Path(e) => e.text(),
            LaunchdError::Io { context, source } => cat3(context, ": ", source),
            LaunchdError::Refused { action, label, detail } => cat6(
                "launchctl ",
                action,
                " refused ",
                label,
                ": ",
                detail,
            ),
        }
    }
}

/// The publisher's namespace, not the person running it. A neutral
/// namespace would claim a name nobody owns and let two unrelated tools collide.
pub const PREFIX: &'static str = "com.coreenginex.tycho";

/// Which agent a label names.
///
/// A sum type rather than a string, because the `profile.` infix is the whole of the
/// collision safety: deriving a label straight from a
/// user-controlled name means a profile called `catchup` produces exactly the
/// catch-up agent's label, and `Label` uniquely identifies a job - so one silently
/// displaces the other.
#[derive(Debug, PartialEq, Eq)]
pub enum Agent {
    /// One per profile, on the profile's own schedule.
    Backup(String),
    /// One shared, pushing whatever is behind. Never captures.
    Catchup,
    /// Transient, bootstrapped by `doctor --deep` to measure the agent's own grant.
    Probe,
}

impl Agent {
    pub open spec fn label_text(self) -> Seq<char> {
        match self {
            Agent::Backup(profile) => PREFIX@ + ".profile."@ + profile@,
            Agent::Catchup => PREFIX@ + ".catchup"@,
            Agent::Probe => PREFIX@ + ".probe"@,
        }
    }

    #[must_use]
    pub fn label(&self) -> (out: String)
        ensures
            out@ == self.label_text(),
    {
        match self {
            Agent::Backup(profile) => cat3(PREFIX, ".profile.", profile),
            Agent::Catchup => cat2(PREFIX, ".catchup"),
            Agent::Probe => cat2(PREFIX, ".probe"),
        }
    }

    /// `~/Library/LaunchAgents/<label>.plist`.
    ///
    /// # Errors
    ///
    /// If there is no home directory.
    pub fn plist_path(&self, home: Option<&str>, vars: &Vars) -> (out: Result<Vec<u8>, PathError>)
        ensures
            match path::resolved("~/Library/LaunchAgents"@, path::view_str_opt(home), *vars) {
                Ok(dir) => out matches Ok(p) && p@ == platform::under_raw(
                    dir,
                    self.label_text() + ".plist"@,
                ),
                Err(fault) => out matches Err(e) && e@ == fault,
            },
    {
        let dir = match agents_dir(home, vars) {
            Ok(dir) => dir,
            Err(e) => return Err(e),
        };
        let name = cat2(&self.label(), ".plist");
        Ok(under(&dir, &name))
    }
}

/// # Errors
///
/// If there is no home directory.
pub fn agents_dir(home: Option<&str>, vars: &Vars) -> (out: Result<AbsPath, PathError>)
    ensures
        platform::names_path(
            path::resolved("~/Library/LaunchAgents"@, path::view_str_opt(home), *vars),
            out,
        ),
{
    AbsPath::parse_in("~/Library/LaunchAgents", home, vars)
}

// ---------------------------------------------------------------------------
// XML
// ---------------------------------------------------------------------------

/// What stands for a character in an XML document.
pub open spec fn entity(c: char) -> Seq<char> {
    if c == '&' {
        "&amp;"@
    } else if c == '<' {
        "&lt;"@
    } else if c == '>' {
        "&gt;"@
    } else if c == '"' {
        "&quot;"@
    } else if c == '\'' {
        "&apos;"@
    } else {
        seq![c]
    }
}

/// A text with the five characters XML gives meaning to replaced.
pub open spec fn escaped(s: Seq<char>) -> Seq<char> {
    text::each(s, |c: char| entity(c))
}

/// Escapes the five characters XML gives meaning to.
///
/// A watched path may contain `&` or `<`. A plist that silently truncated at one
/// would schedule a backup of the wrong tree, at exit 0.
#[must_use]
pub fn escape(text: &str) -> (out: String)
    ensures
        out@ == escaped(text@),
{
    let cs = chars_of(text);
    let ghost f = |c: char| entity(c);
    let mut out = String::new();
    let mut i: usize = 0;
    assert(out@ =~= text::each(cs@.take(0), f));
    while i < cs.len()
        invariant
            i <= cs@.len(),
            cs@ == text@,
            f == (|c: char| entity(c)),
            out@ == text::each(cs@.take(i as int), f),
        decreases cs@.len() - i,
    {
        let c = cs[i];
        proof {
            assert(cs@.take(i + 1).drop_last() =~= cs@.take(i as int));
            assert(cs@.take(i + 1).last() == c);
        }
        let ghost before = out@;
        match c {
            '&' => out.append("&amp;"),
            '<' => out.append("&lt;"),
            '>' => out.append("&gt;"),
            '"' => out.append("&quot;"),
            '\'' => out.append("&apos;"),
            _ => {
                out.push(c);
                assert(out@ =~= before + seq![c]);
            },
        }
        i += 1;
    }
    assert(cs@.take(i as int) =~= text@);
    out
}

// ---------------------------------------------------------------------------
// Plists
// ---------------------------------------------------------------------------

/// Everything a plist needs that is not the schedule.
#[derive(Debug)]
pub struct Job<'a> {
    pub agent: &'a Agent,
    /// Resolved and absolute, written at install time, so the plist never depends on
    /// a `PATH` launchd does not have.
    pub program: &'a AbsPath,
    pub arguments: Vec<String>,
    pub log_dir: &'a AbsPath,
    /// The stem of the two log files, so a profile's agent and the shared catch-up
    /// agent do not write to the same pair.
    pub log_stem: String,
}

/// One of a job's log files.
pub open spec fn log_text(dir: Seq<Seq<u8>>, stem: Seq<char>, suffix: Seq<char>) -> Seq<char> {
    octets::lossy(platform::under_raw(dir, stem + "."@ + suffix + ".log"@))
}

pub fn log_path(dir: &AbsPath, stem: &str, suffix: &str) -> (out: String)
    ensures
        out@ == log_text(dir@, stem@, suffix@),
{
    let name = cat4(stem, ".", suffix, ".log");
    lossy_text(&under(dir, &name))
}

/// The first `n` arguments, a line each.
pub open spec fn argument_lines(arguments: Seq<Seq<char>>, n: int) -> Seq<char>
    decreases n,
{
    if n <= 0 {
        Seq::empty()
    } else {
        argument_lines(arguments, n - 1) + ("    <string>"@ + escaped(arguments[n - 1])
            + "</string>\n"@)
    }
}

fn shown_arguments(arguments: &Vec<String>) -> (out: String)
    ensures
        out@ == argument_lines(text::views(arguments@), arguments@.len() as int),
{
    let ghost all = text::views(arguments@);
    let mut out = String::new();
    let mut i: usize = 0;
    assert(out@ =~= argument_lines(all, 0));
    while i < arguments.len()
        invariant
            i <= arguments@.len(),
            all == text::views(arguments@),
            out@ == argument_lines(all, i as int),
        decreases arguments@.len() - i,
    {
        assert(all[i as int] == arguments@[i as int]@);
        let line = cat3("    <string>", &escape(&arguments[i]), "</string>\n");
        out.append(&line);
        i += 1;
    }
    out
}

/// A plist with what is particular to its agent near its end.
pub open spec fn plist_text(job: Job<'_>, extra: Seq<char>) -> Seq<char> {
    "<?xml version=\"1.0\" encoding=\"UTF-8\"?>\n<!DOCTYPE plist PUBLIC \"-//Apple//DTD PLIST 1.0//EN\" \"http://www.apple.com/DTDs/PropertyList-1.0.dtd\">\n<plist version=\"1.0\">\n<dict>\n  <key>Label</key>\n  <string>"@
            + escaped(job.agent.label_text())
            + "</string>\n  <key>ProgramArguments</key>\n  <array>\n    <string>"@
            + escaped(plan::shown(job.program@))
            + "</string>\n"@
            + argument_lines(text::views(job.arguments@), job.arguments@.len() as int)
            + "  </array>\n  <key>StandardOutPath</key>\n  <string>"@
            + escaped(log_text(job.log_dir@, job.log_stem@, "out"@))
            + "</string>\n  <key>StandardErrorPath</key>\n  <string>"@
            + escaped(log_text(job.log_dir@, job.log_stem@, "err"@))
            + "</string>\n"@
            + extra
            + "</dict>\n</plist>\n"@
}

fn render(job: &Job<'_>, extra: &str) -> (out: String)
    ensures
        out@ == plist_text(*job, extra@),
{
    let arguments = shown_arguments(&job.arguments);
    let mut out = "<?xml version=\"1.0\" encoding=\"UTF-8\"?>\n<!DOCTYPE plist PUBLIC \"-//Apple//DTD PLIST 1.0//EN\" \"http://www.apple.com/DTDs/PropertyList-1.0.dtd\">\n<plist version=\"1.0\">\n<dict>\n  <key>Label</key>\n  <string>".to_owned();
    out.append(&escape(&job.agent.label()));
    out.append("</string>\n  <key>ProgramArguments</key>\n  <array>\n    <string>");
    out.append(&escape(&job.program.text()));
    out.append("</string>\n");
    out.append(&arguments);
    out.append("  </array>\n  <key>StandardOutPath</key>\n  <string>");
    out.append(&escape(&log_path(job.log_dir, &job.log_stem, "out")));
    out.append("</string>\n  <key>StandardErrorPath</key>\n  <string>");
    out.append(&escape(&log_path(job.log_dir, &job.log_stem, "err")));
    out.append("</string>\n");
    out.append(extra);
    out.append("</dict>\n</plist>\n");
    out
}

/// When launchd starts an agent on a schedule.
pub open spec fn start_text(schedule: Schedule) -> Seq<char> {
    match schedule {
        Schedule::Daily { at } => "  <key>StartCalendarInterval</key>\n  <dict>\n    <key>Hour</key><integer>"@
            + text::decimal_text(at.hour as nat)
            + "</integer>\n    <key>Minute</key><integer>"@
            + text::decimal_text(at.minute as nat)
            + "</integer>\n  </dict>\n"@,
        Schedule::Weekly { day, at } => "  <key>StartCalendarInterval</key>\n  <dict>\n    <key>Weekday</key><integer>"@
            + text::decimal_text(day.number() as nat)
            + "</integer>\n    <key>Hour</key><integer>"@
            + text::decimal_text(at.hour as nat)
            + "</integer>\n    <key>Minute</key><integer>"@
            + text::decimal_text(at.minute as nat)
            + "</integer>\n  </dict>\n"@,
        Schedule::Every(interval) => "  <key>StartInterval</key><integer>"@
            + text::decimal_text(interval.secs as nat)
            + "</integer>\n"@,
    }
}

fn start(schedule: Schedule) -> (out: String)
    ensures
        out@ == start_text(schedule),
{
    match schedule {
        Schedule::Daily { at } => {
            let mut out = "  <key>StartCalendarInterval</key>\n  <dict>\n    <key>Hour</key><integer>".to_owned();
            out.append(&decimal(at.hour as u64));
            out.append("</integer>\n    <key>Minute</key><integer>");
            out.append(&decimal(at.minute as u64));
            out.append("</integer>\n  </dict>\n");
            out
        },
        Schedule::Weekly { day, at } => {
            let mut out = "  <key>StartCalendarInterval</key>\n  <dict>\n    <key>Weekday</key><integer>".to_owned();
            out.append(&decimal(Weekday::launchd(day) as u64));
            out.append("</integer>\n    <key>Hour</key><integer>");
            out.append(&decimal(at.hour as u64));
            out.append("</integer>\n    <key>Minute</key><integer>");
            out.append(&decimal(at.minute as u64));
            out.append("</integer>\n  </dict>\n");
            out
        },
        Schedule::Every(interval) => {
            let mut out = "  <key>StartInterval</key><integer>".to_owned();
            out.append(&decimal(interval.secs));
            out.append("</integer>\n");
            out
        },
    }
}

/// Renders a backup agent's plist.
///
/// `RunAtLoad` is **false** deliberately: a backup on every login is not what a
/// weekly schedule means, and the wake-up catch-up plus the overdue check cover a
/// missed run.
#[must_use]
pub fn backup_plist(job: &Job<'_>, schedule: Schedule) -> (out: String)
    ensures
        out@ == plist_text(
            *job,
            start_text(schedule) + "  <key>RunAtLoad</key><false/>\n"@,
        ),
{
    let body = cat2(&start(schedule), "  <key>RunAtLoad</key><false/>\n");
    render(job, &body)
}

/// When launchd starts the catch-up agent: on every mount and once an hour, ten seconds apart
/// at least.
pub const CATCHUP_START: &'static str = "  <key>StartOnMount</key><true/>\n  <key>StartInterval</key><integer>3600</integer>\n  <key>ThrottleInterval</key><integer>10</integer>\n";

/// Renders the shared catch-up agent's plist.
///
/// **`RunAtLoad` is deliberately absent.** At login,
/// cloud File Providers may not have mounted, so remote paths do not exist yet and
/// every remote would be probed as unreachable on every boot. `StartOnMount` already
/// fires when those domains mount, which is strictly better timing.
///
/// `StartOnMount` fires on every mount - a disk image, a network share, a local
/// snapshot - so `ThrottleInterval` bounds the churn.
#[must_use]
pub fn catchup_plist(job: &Job<'_>) -> (out: String)
    ensures
        out@ == plist_text(*job, CATCHUP_START@),
{
    render(job, CATCHUP_START)
}

/// Renders the transient probe agent's plist. It runs once, on load, and that is the
/// whole point: it exists to be bootstrapped, observed, and booted out.
#[must_use]
pub fn probe_plist(job: &Job<'_>) -> (out: String)
    ensures
        out@ == plist_text(*job, "  <key>RunAtLoad</key><true/>\n"@),
{
    render(job, "  <key>RunAtLoad</key><true/>\n")
}

// ---------------------------------------------------------------------------
// State
// ---------------------------------------------------------------------------

/// What a scheduler says about one job.
///
/// `last` is why this exists: a non-zero exit is the
/// evidence that reveals a year of silent failure, and nobody has reason to look.
#[derive(Clone, Copy, Debug, PartialEq, Eq, Structural)]
pub enum Loaded {
    /// Not bootstrapped into the domain at all.
    No,
    /// Loaded, with how the last invocation ended.
    Yes { pid: Option<u32>, last: Ended },
}

/// How a job's last invocation finished.
///
/// A sum type because `launchctl list` reports a **raw wait status**, not an exit
/// code: `LastExitStatus = 256` means exit 1, and `= 9` means killed by SIGKILL.
/// Printing the raw number would have shown `exit 256` for an ordinary failure, which
/// is a number no `echo $?` ever produced and nobody could look up.
#[derive(Clone, Copy, Debug, PartialEq, Eq, Structural)]
pub enum Ended {
    Exit(i32),
    Signal(i32),
    /// A scheduler's word for a job that has not fired yet, which is not a failure.
    NeverRun,
}

/// A number with its sign.
pub open spec fn signed_text(n: int) -> Seq<char> {
    if n < 0 {
        "-"@ + text::decimal_text((-n) as nat)
    } else {
        text::decimal_text(n as nat)
    }
}

fn shown_signed(n: i32) -> (out: String)
    ensures
        out@ == signed_text(n as int),
{
    let wide: i64 = n as i64;
    if wide < 0 {
        let plain: i64 = 0 - wide;
        cat2("-", &decimal(plain as u64))
    } else {
        decimal(wide as u64)
    }
}

impl Ended {
    /// Decodes a `wait(2)` status the way the shell does.
    #[must_use]
    pub fn from_wait_status(raw: i32) -> (out: Ended)
        ensures
            out == if raw & 0x7f == 0 {
                Ended::Exit((raw >> 8) & 0xff)
            } else {
                Ended::Signal(raw & 0x7f)
            },
    {
        let signal: i32 = raw & 0x7f;
        if signal == 0 {
            Ended::Exit((raw >> 8) & 0xff)
        } else {
            Ended::Signal(signal)
        }
    }

    pub open spec fn clean(self) -> bool {
        self == Ended::Exit(0) || self is NeverRun
    }

    #[must_use]
    pub fn is_clean(self) -> (out: bool)
        ensures
            out == self.clean(),
    {
        match self {
            Ended::Exit(code) => code == 0,
            Ended::Signal(_) => false,
            Ended::NeverRun => true,
        }
    }

    pub open spec fn shown(self) -> Seq<char> {
        match self {
            Ended::Exit(code) => if code == 0 {
                "loaded"@
            } else {
                "exit "@ + signed_text(code as int)
            },
            Ended::Signal(signal) => "killed "@ + signed_text(signal as int),
            Ended::NeverRun => "never run"@,
        }
    }

    #[must_use]
    pub fn text(&self) -> (out: String)
        ensures
            out@ == self.shown(),
    {
        match *self {
            Ended::Exit(code) => {
                if code == 0 {
                    "loaded".to_owned()
                } else {
                    cat2("exit ", &shown_signed(code))
                }
            },
            Ended::Signal(signal) => cat2("killed ", &shown_signed(signal)),
            Ended::NeverRun => "never run".to_owned(),
        }
    }
}

/// A text without a character at its start, however often it stands there.
pub open spec fn unled(s: Seq<char>, c: char) -> Seq<char>
    decreases s.len(),
{
    if s.len() > 0 && s[0] == c {
        unled(s.skip(1), c)
    } else {
        s
    }
}

/// A text without a character at its end, however often it stands there.
pub open spec fn untrailed(s: Seq<char>, c: char) -> Seq<char>
    decreases s.len(),
{
    if s.len() > 0 && s.last() == c {
        untrailed(s.drop_last(), c)
    } else {
        s
    }
}

fn without_ends(s: &str, c: char, leading: bool) -> (out: String)
    ensures
        out@ == untrailed(
            if leading {
                unled(s@, c)
            } else {
                s@
            },
            c,
        ),
{
    let cs = chars_of(s);
    let n: usize = cs.len();
    let mut from: usize = 0;
    assert(cs@.skip(0) =~= cs@);
    while leading && from < n && cs[from] == c
        invariant
            from <= n == cs@.len(),
            !leading ==> from == 0,
            unled(cs@, c) == unled(cs@.skip(from as int), c),
        decreases n - from,
    {
        assert(cs@.skip(from as int).skip(1) =~= cs@.skip(from + 1));
        from += 1;
    }
    let ghost rest = cs@.skip(from as int);
    proof {
        if leading && from < n {
            assert(rest[0] == cs@[from as int]);
        }
    }
    let mut to: usize = n;
    assert(cs@.subrange(from as int, n as int) =~= rest);
    while to > from && cs[to - 1] == c
        invariant
            from <= to <= n == cs@.len(),
            untrailed(rest, c) == untrailed(cs@.subrange(from as int, to as int), c),
        decreases to,
    {
        assert(cs@.subrange(from as int, to as int).drop_last() =~= cs@.subrange(
            from as int,
            to - 1,
        ));
        assert(cs@.subrange(from as int, to as int).last() == cs@[to - 1]);
        to -= 1;
    }
    proof {
        let kept = cs@.subrange(from as int, to as int);
        if kept.len() > 0 {
            assert(kept.last() == cs@[to - 1]);
        }
    }
    between(&cs, from, to)
}

/// The value the first line under a name gives, as `launchctl list` prints a property list: a
/// quoted name, an equals sign, a number and a semicolon.
pub open spec fn property(printed: Seq<Seq<char>>, name: Seq<char>) -> Option<int>
    decreases printed.len(),
{
    if printed.len() == 0 {
        None
    } else {
        match text::split_first(printed[0], '=') {
            Some((key, value)) if untrailed(unled(lines::trimmed(key), '"'), '"')
                == name => text::parsed_signed(
                lines::trimmed(untrailed(lines::trimmed(value), ';')),
            ),
            _ => property(printed.skip(1), name),
        }
    }
}

fn read_property(printed: &Vec<String>, name: &str) -> (out: Option<i64>)
    ensures
        match out {
            Some(n) => property(text::views(printed@), name@) == Some(n as int),
            None => property(text::views(printed@), name@) is None,
        },
{
    let ghost all = text::views(printed@);
    let mut i: usize = 0;
    assert(all.skip(0) =~= all);
    while i < printed.len()
        invariant
            i <= printed@.len(),
            all == text::views(printed@),
            property(all, name@) == property(all.skip(i as int), name@),
        decreases printed@.len() - i,
    {
        assert(all.skip(i as int)[0] == printed@[i as int]@);
        if let Some((key, value)) = split_once(&printed[i], '=') {
            let key = without_ends(&trim(&key), '"', true);
            if same(&key, name) {
                let plain = trim(&without_ends(&trim(&value), ';', false));
                return signed(&chars_of(&plain));
            }
        }
        assert(all.skip(i as int).skip(1) =~= all.skip(i + 1));
        i += 1;
    }
    None
}

/// What `launchctl list` printed says of a job.
pub open spec fn loaded_from(out: Output) -> Loaded {
    if !out.success {
        Loaded::No
    } else {
        let printed = lines::lines_of(out.shown());
        let status = match property(printed, "LastExitStatus"@) {
            Some(n) if i32::MIN <= n <= i32::MAX => n as i32,
            _ => 0,
        };
        Loaded::Yes {
            pid: match property(printed, "PID"@) {
                Some(n) if 0 <= n <= u32::MAX => Some(n as u32),
                _ => None,
            },
            last: if status & 0x7f == 0 {
                Ended::Exit((status >> 8) & 0xff)
            } else {
                Ended::Signal(status & 0x7f)
            },
        }
    }
}

/// The call that asks launchd about one label.
pub fn state_call(agent: &Agent) -> (out: Call)
    ensures
        out@ == process::program_call(
            "launchctl"@,
            seq!["list"@, agent.label_text()],
            Timeout::Quick,
        ),
{
    let label = agent.label();
    let args: Vec<&str> = vec!["list", label.as_str()];
    assert(process::str_views(args@) =~= seq!["list"@, agent.label_text()]);
    command("launchctl", args, Timeout::Quick)
}

/// What [`state_call`] came to. A label that is not loaded is
/// [`Loaded::No`], not an error.
pub fn state(out: &Output) -> (loaded: Loaded)
    ensures
        loaded == loaded_from(*out),
{
    if !out.success {
        return Loaded::No;
    }
    let shown = out.text();
    let printed = lines::lines(&shown);
    let pid = match read_property(&printed, "PID") {
        Some(n) => {
            if 0 <= n && n <= u32::MAX as i64 {
                Some(n as u32)
            } else {
                None
            }
        },
        None => None,
    };
    let raw: i32 = match read_property(&printed, "LastExitStatus") {
        Some(n) => {
            if i32::MIN as i64 <= n && n <= i32::MAX as i64 {
                n as i32
            } else {
                0
            }
        },
        None => 0,
    };
    Loaded::Yes { pid, last: Ended::from_wait_status(raw) }
}

/// The account's GUI domain, which its agents live in.
pub open spec fn domain(uid: u32) -> Seq<char> {
    "gui/"@ + text::decimal_text(uid as nat)
}

/// The call that loads a plist into the user's GUI domain.
pub fn bootstrap_call(uid: u32, plist: &AbsPath) -> (out: Call)
    ensures
        out@ == process::program_call(
            "launchctl"@,
            seq!["bootstrap"@, domain(uid), plan::shown(plist@)],
            Timeout::Work,
        ),
{
    let domain = cat2("gui/", &decimal(uid as u64));
    let shown = plist.text();
    let args: Vec<&str> = vec!["bootstrap", domain.as_str(), shown.as_str()];
    assert(process::str_views(args@) =~= seq![
        "bootstrap"@,
        crate::platform::launchd::domain(uid),
        plan::shown(plist@),
    ]);
    command("launchctl", args, Timeout::Work)
}

/// What [`bootstrap_call`] came to.
///
/// # Errors
///
/// If `launchctl` failed.
pub fn bootstrap(agent: &Agent, out: Result<Output, RunError>) -> (got: Result<(), LaunchdError>)
    ensures
        match out {
            Err(e) => got == Err::<(), LaunchdError>(LaunchdError::Run(e)),
            Ok(o) => if o.success {
                got is Ok
            } else {
                got matches Err(LaunchdError::Refused { action, label, detail }) && action@
                    == "bootstrap"@ && label@ == agent.label_text() && detail@ == o.complaint()
            },
        },
{
    match out {
        Err(e) => Err(LaunchdError::Run(e)),
        Ok(out) => {
            if out.success {
                return Ok(());
            }
            Err(
                LaunchdError::Refused {
                    action: "bootstrap".to_owned(),
                    label: agent.label(),
                    detail: out.error_text(),
                },
            )
        },
    }
}

/// The call that unloads a label. A label that was not loaded is not an error - `uninstall` after
/// a crash must still work - so what it comes to is not looked at.
pub fn bootout(uid: u32, agent: &Agent) -> (out: Call)
    ensures
        out@ == process::program_call(
            "launchctl"@,
            seq!["bootout"@, domain(uid) + "/"@ + agent.label_text()],
            Timeout::Work,
        ),
{
    let target = cat4("gui/", &decimal(uid as u64), "/", &agent.label());
    let args: Vec<&str> = vec!["bootout", target.as_str()];
    assert(process::str_views(args@) =~= seq![
        "bootout"@,
        domain(uid) + "/"@ + agent.label_text(),
    ]);
    command("launchctl", args, Timeout::Work)
}

// ---------------------------------------------------------------------------
// Laws
// ---------------------------------------------------------------------------

/// Two agents never share a label: a profile's own infix keeps it apart from the shared
/// agents, whatever it is called, and two profiles' labels differ where their names do.
pub proof fn labels_are_disjoint(a: Agent, b: Agent)
    requires
        a.label_text() == b.label_text(),
    ensures
        match (a, b) {
            (Agent::Backup(x), Agent::Backup(y)) => x@ == y@,
            (Agent::Catchup, Agent::Catchup) => true,
            (Agent::Probe, Agent::Probe) => true,
            _ => false,
        },
{
    reveal_strlit("com.coreenginex.tycho");
    reveal_strlit(".profile.");
    reveal_strlit(".catchup");
    reveal_strlit(".probe");
    let x = a.label_text();
    let y = b.label_text();
    match (a, b) {
        (Agent::Backup(p), Agent::Backup(q)) => {
            let head = PREFIX@ + ".profile."@;
            assert(x.skip(head.len() as int) =~= p@);
            assert(y.skip(head.len() as int) =~= q@);
        },
        (Agent::Backup(_), Agent::Catchup) => {
            assert(x[22] == 'p');
            assert(y[22] == 'c');
        },
        (Agent::Catchup, Agent::Backup(_)) => {
            assert(x[22] == 'c');
            assert(y[22] == 'p');
        },
        (Agent::Backup(_), Agent::Probe) => {
            assert(x[25] == 'f');
            assert(y[25] == 'b');
        },
        (Agent::Probe, Agent::Backup(_)) => {
            assert(x[25] == 'b');
            assert(y[25] == 'f');
        },
        (Agent::Catchup, Agent::Probe) => {
            assert(x[22] == 'c');
            assert(y[22] == 'p');
        },
        (Agent::Probe, Agent::Catchup) => {
            assert(x[22] == 'p');
            assert(y[22] == 'c');
        },
        _ => {},
    }
}

/// No markup survives escaping: what is left holds no angle bracket and no quote.
pub proof fn escaped_text_is_no_markup(s: Seq<char>)
    ensures
        forall|i: int|
            0 <= i < escaped(s).len() ==> {
                let c = #[trigger] escaped(s)[i];
                c != '<' && c != '>' && c != '"' && c != '\''
            },
    decreases s.len(),
{
    reveal_strlit("&amp;");
    reveal_strlit("&lt;");
    reveal_strlit("&gt;");
    reveal_strlit("&quot;");
    reveal_strlit("&apos;");
    if s.len() > 0 {
        escaped_text_is_no_markup(s.drop_last());
        let head = escaped(s.drop_last());
        let tail = entity(s.last());
        assert forall|i: int| 0 <= i < escaped(s).len() implies {
            let c = #[trigger] escaped(s)[i];
            c != '<' && c != '>' && c != '"' && c != '\''
        } by {
            if i < head.len() {
                assert(escaped(s)[i] == head[i]);
            } else {
                assert(escaped(s)[i] == tail[i - head.len()]);
            }
        }
    }
}

/// How a job ended is read from the status a process leaves: its exit code from the high byte where
/// no signal ended it, and else the signal.
pub proof fn a_status_is_an_exit_or_a_signal(out: Output, code: int, signal: int)
    requires
        out.success,
        0 <= code < 256,
        0 < signal < 128,
    ensures
        property(lines::lines_of(out.shown()), "LastExitStatus"@) == Some(256 * code) ==> (
        loaded_from(out) matches Loaded::Yes { last, .. } && last == Ended::Exit(code as i32)),
        property(lines::lines_of(out.shown()), "LastExitStatus"@) == Some(signal) ==> (loaded_from(
            out,
        ) matches Loaded::Yes { last, .. } && last == Ended::Signal(signal as i32)),
        property(lines::lines_of(out.shown()), "LastExitStatus"@) is None ==> (loaded_from(
            out,
        ) matches Loaded::Yes { last, .. } && last == Ended::Exit(0)),
{
    let c = code as i32;
    let s = signal as i32;
    let whole = (256 * code) as i32;
    assert(whole & 0x7f == 0 && (whole >> 8) & 0xff == c) by (bit_vector)
        requires
            whole == 256 * c,
            0 <= c < 256,
    ;
    assert(s & 0x7f == s && s & 0x7f != 0) by (bit_vector)
        requires
            0 < s < 128,
    ;
    assert(0i32 & 0x7f == 0 && (0i32 >> 8) & 0xff == 0) by (bit_vector);
}

/// A job is known exactly where `launchctl` knows it, and it ended cleanly exactly where it never
/// ran or left no code.
pub proof fn a_job_is_loaded_where_it_is_known(out: Output, ended: Ended)
    ensures
        (loaded_from(out) is Yes) == out.success,
        ended.clean() <==> match ended {
            Ended::Exit(code) => code == 0,
            Ended::Signal(_) => false,
            Ended::NeverRun => true,
        },
{
}

/// A property list's line is read as its number: a quoted name, an equals sign, and the number
/// before a semicolon.
pub proof fn a_property_line_is_read(name: Seq<char>, n: nat, more: Seq<Seq<char>>)
    requires
        name.len() > 0,
        forall|i: int|
            0 <= i < name.len() ==> ('a' <= #[trigger] name[i] && name[i] <= 'z' || 'A' <= name[i]
                && name[i] <= 'Z'),
        n <= i64::MAX,
    ensures
        property(
            seq![seq!['\t', '"'] + name + seq!['"', ' ', '=', ' '] + text::decimal_text(n) + seq![';']]
                + more,
            name,
        ) == Some(n as int),
{
    let digits = text::decimal_text(n);
    let key = seq!['\t', '"'] + name + seq!['"', ' '];
    let value = seq![' '] + digits + seq![';'];
    let line = seq!['\t', '"'] + name + seq!['"', ' ', '=', ' '] + digits + seq![';'];
    let printed = seq![line] + more;
    assert(line =~= key + seq!['='] + value);
    assert forall|i: int| 0 <= i < key.len() implies line[i] != '=' by {
        assert(line[i] == key[i]);
        if 2 <= i < 2 + name.len() {
            assert(key[i] == name[i - 2]);
        }
    }
    assert(line[key.len() as int] == '=');
    text::lemma_position(line, '=', key.len() as int);
    assert(line.take(key.len() as int) =~= key);
    assert(line.skip(key.len() as int + 1) =~= value);
    assert(printed[0] == line);
    let quoted = seq!['"'] + name + seq!['"'];
    lines::trimming_takes_only_white_space(seq!['\t'], quoted, seq![' ']);
    assert(key =~= seq!['\t'] + quoted + seq![' ']);
    let half = name + seq!['"'];
    assert(quoted.skip(1) =~= half);
    assert(half[0] == name[0]);
    assert(unled(half, '"') == half);
    assert(unled(quoted, '"') == half);
    assert(half.drop_last() =~= name);
    assert(name.last() == name[name.len() - 1]);
    assert(untrailed(name, '"') == name);
    assert(untrailed(half, '"') == name);
    text::lemma_decimal_digits(n);
    let ended = digits + seq![';'];
    assert(ended[0] == digits[0]);
    assert(text::is_digit(digits[0]));
    lines::trimming_takes_only_white_space(seq![' '], ended, Seq::empty());
    assert(value =~= seq![' '] + ended + Seq::<char>::empty());
    assert(ended.drop_last() =~= digits);
    assert(digits.last() == digits[digits.len() - 1]);
    assert(text::is_digit(digits[digits.len() - 1]));
    assert(untrailed(digits, ';') == digits);
    assert(untrailed(ended, ';') == digits);
    lines::lemma_untrimmed(digits);
    text::decimals_round_trip(n, i64::MAX as nat);
}

/// A daily plist starts its agent at the hour and the minute the schedule says.
pub proof fn a_daily_plist_starts_on_time(at: TimeOfDay)
    ensures
        text::contains_text(
            start_text(Schedule::Daily { at }),
            "<key>Hour</key><integer>"@ + text::decimal_text(at.hour as nat) + "</integer>"@,
        ),
        text::contains_text(
            start_text(Schedule::Daily { at }),
            "<key>Minute</key><integer>"@ + text::decimal_text(at.minute as nat) + "</integer>"@,
        ),
{
    lemma_hour_opens();
    lemma_minute_follows();
    lemma_closes();
    let open = "  <key>StartCalendarInterval</key>\n  <dict>\n    "@;
    let h = text::decimal_text(at.hour as nat);
    let m = text::decimal_text(at.minute as nat);
    let hour = "<key>Hour</key><integer>"@ + h + "</integer>"@;
    let minute = "<key>Minute</key><integer>"@ + m + "</integer>"@;
    let gap = "\n    "@;
    let close = "\n  </dict>\n"@;
    let daily = start_text(Schedule::Daily { at });
    assert(daily =~= open + hour + (gap + minute + close));
    assert(daily =~= (open + hour + gap) + minute + close);
    lemma_stands_in(open, hour, gap + minute + close);
    lemma_stands_in(open + hour + gap, minute, close);
}

/// A weekly plist starts its agent on the day the schedule says, by its number from Sunday, at the
/// hour and the minute.
pub proof fn a_weekly_plist_starts_on_its_day(day: Weekday, at: TimeOfDay)
    ensures
        text::contains_text(
            start_text(Schedule::Weekly { day, at }),
            "<key>Weekday</key><integer>"@ + text::decimal_text(day.number() as nat)
                + "</integer>"@,
        ),
        text::contains_text(
            start_text(Schedule::Weekly { day, at }),
            "<key>Hour</key><integer>"@ + text::decimal_text(at.hour as nat) + "</integer>"@,
        ),
        text::contains_text(
            start_text(Schedule::Weekly { day, at }),
            "<key>Minute</key><integer>"@ + text::decimal_text(at.minute as nat) + "</integer>"@,
        ),
{
    lemma_weekday_opens();
    lemma_hour_follows();
    lemma_minute_follows();
    lemma_closes();
    let open = "  <key>StartCalendarInterval</key>\n  <dict>\n    "@;
    let h = text::decimal_text(at.hour as nat);
    let m = text::decimal_text(at.minute as nat);
    let d = text::decimal_text(day.number() as nat);
    let weekday = "<key>Weekday</key><integer>"@ + d + "</integer>"@;
    let hour = "<key>Hour</key><integer>"@ + h + "</integer>"@;
    let minute = "<key>Minute</key><integer>"@ + m + "</integer>"@;
    let gap = "\n    "@;
    let close = "\n  </dict>\n"@;
    let weekly = start_text(Schedule::Weekly { day, at });
    assert(weekly =~= open + weekday + (gap + hour + (gap + minute + close)));
    assert(weekly =~= (open + weekday + gap) + hour + (gap + minute + close));
    assert(weekly =~= (open + weekday + gap + hour + gap) + minute + close);
    lemma_stands_in(open, weekday, gap + hour + (gap + minute + close));
    lemma_stands_in(open + weekday + gap, hour, gap + minute + close);
    lemma_stands_in(open + weekday + gap + hour + gap, minute, close);
}

/// A plist of an interval starts its agent every so many seconds.
pub proof fn an_interval_plist_counts_its_seconds(every: Duration)
    ensures
        text::contains_text(
            start_text(Schedule::Every(every)),
            "<key>StartInterval</key><integer>"@ + text::decimal_text(every.secs as nat)
                + "</integer>"@,
        ),
{
    let n = text::decimal_text(every.secs as nat);
    let interval = "<key>StartInterval</key><integer>"@ + n + "</integer>"@;
    lemma_interval_opens();
    assert(start_text(Schedule::Every(every)) =~= "  "@ + interval + "\n"@);
    lemma_stands_in("  "@, interval, "\n"@);
}

proof fn lemma_hour_opens()
    ensures
        "  <key>StartCalendarInterval</key>\n  <dict>\n    <key>Hour</key><integer>"@
            == "  <key>StartCalendarInterval</key>\n  <dict>\n    "@
            + "<key>Hour</key><integer>"@,
{
    reveal_strlit("  <key>StartCalendarInterval</key>\n  <dict>\n    <key>Hour</key><integer>");
    reveal_strlit("  <key>StartCalendarInterval</key>\n  <dict>\n    ");
    reveal_strlit("<key>Hour</key><integer>");
    assert("  <key>StartCalendarInterval</key>\n  <dict>\n    <key>Hour</key><integer>"@
        =~= "  <key>StartCalendarInterval</key>\n  <dict>\n    "@ + "<key>Hour</key><integer>"@);
}

proof fn lemma_weekday_opens()
    ensures
        "  <key>StartCalendarInterval</key>\n  <dict>\n    <key>Weekday</key><integer>"@
            == "  <key>StartCalendarInterval</key>\n  <dict>\n    "@
            + "<key>Weekday</key><integer>"@,
{
    reveal_strlit(
        "  <key>StartCalendarInterval</key>\n  <dict>\n    <key>Weekday</key><integer>",
    );
    reveal_strlit("  <key>StartCalendarInterval</key>\n  <dict>\n    ");
    reveal_strlit("<key>Weekday</key><integer>");
    assert("  <key>StartCalendarInterval</key>\n  <dict>\n    <key>Weekday</key><integer>"@
        =~= "  <key>StartCalendarInterval</key>\n  <dict>\n    "@
        + "<key>Weekday</key><integer>"@);
}

proof fn lemma_hour_follows()
    ensures
        "</integer>\n    <key>Hour</key><integer>"@ == "</integer>"@ + "\n    "@
            + "<key>Hour</key><integer>"@,
{
    reveal_strlit("</integer>\n    <key>Hour</key><integer>");
    reveal_strlit("</integer>");
    reveal_strlit("\n    ");
    reveal_strlit("<key>Hour</key><integer>");
    assert("</integer>\n    <key>Hour</key><integer>"@ =~= "</integer>"@ + "\n    "@
        + "<key>Hour</key><integer>"@);
}

proof fn lemma_minute_follows()
    ensures
        "</integer>\n    <key>Minute</key><integer>"@ == "</integer>"@ + "\n    "@
            + "<key>Minute</key><integer>"@,
{
    reveal_strlit("</integer>\n    <key>Minute</key><integer>");
    reveal_strlit("</integer>");
    reveal_strlit("\n    ");
    reveal_strlit("<key>Minute</key><integer>");
    assert("</integer>\n    <key>Minute</key><integer>"@ =~= "</integer>"@ + "\n    "@
        + "<key>Minute</key><integer>"@);
}

proof fn lemma_closes()
    ensures
        "</integer>\n  </dict>\n"@ == "</integer>"@ + "\n  </dict>\n"@,
{
    reveal_strlit("</integer>\n  </dict>\n");
    reveal_strlit("</integer>");
    reveal_strlit("\n  </dict>\n");
    assert("</integer>\n  </dict>\n"@ =~= "</integer>"@ + "\n  </dict>\n"@);
}

proof fn lemma_interval_opens()
    ensures
        "  <key>StartInterval</key><integer>"@ == "  "@ + "<key>StartInterval</key><integer>"@,
        "</integer>\n"@ == "</integer>"@ + "\n"@,
{
    reveal_strlit("  <key>StartInterval</key><integer>");
    reveal_strlit("  ");
    reveal_strlit("<key>StartInterval</key><integer>");
    reveal_strlit("</integer>\n");
    reveal_strlit("</integer>");
    reveal_strlit("\n");
    assert("  <key>StartInterval</key><integer>"@ =~= "  "@
        + "<key>StartInterval</key><integer>"@);
    assert("</integer>\n"@ =~= "</integer>"@ + "\n"@);
}

proof fn lemma_stands_in(a: Seq<char>, part: Seq<char>, b: Seq<char>)
    ensures
        text::contains_text(a + part + b, part),
{
    let n = a.len() as int;
    assert((a + part + b).subrange(n, n + part.len()) =~= part);
    assert(text::occurs_at(a + part + b, part, n));
}

} // verus!
