//! The Windows lifecycle: Task Scheduler, driven through `schtasks`.
//!
//! The same shape as `launchd`, for the same reason:
//! Tycho has no resident process, so the OS scheduler starts a run and the run exits.
//! A definition is generated, registered, and read back - never hand-written - because
//! drift between what was installed and what the config asks for is how a backup fails
//! unnoticed.
//!
//! Three things Task Scheduler does differently:
//!
//! 1. **It will not run on battery unless told to.** `DisallowStartIfOnBatteries` and
//!    `StopIfGoingOnBatteries` default to `true`, and a definition that omits them
//!    gets them anyway. On a laptop that is a backup which silently never runs, so both
//!    are written explicitly.
//! 2. **It captures no output.** launchd has `StandardOutPath`; there is no
//!    equivalent here, so the action is `cmd /c "..." >> log 2>&1`. Without it a panic
//!    before Tycho opens its own log leaves nothing at all.
//! 3. **`StartWhenAvailable` is the catch-up.** It is what makes a missed calendar
//!    run fire once the machine is awake.

pub mod reading;

use crate::config::schedule;
use crate::config::schedule::{lower_ascii, padded_two};
use crate::config::{Duration, Schedule, TimeOfDay, Weekday};
use crate::lines;
use crate::lines::trim;
use crate::octets::{copy_bytes, range};
use crate::plan;
use crate::platform;
use crate::platform::elements;
use crate::platform::elements::marked_text;
use crate::platform::launchd;
use crate::platform::launchd::log_path;
use crate::platform::{data_dir, under, Agent, Ended, Host, Job, Loaded};
use crate::primitives::path;
use crate::primitives::path::{AbsPath, PathError, Vars};
use crate::process;
use crate::process::{command, Call, Output, RunError, Timeout};
use crate::text;
use crate::text::{
    cat2, cat3, cat4, cat6, chars_of, decimal, holds_text, number, same_chars, signed, split_once,
    split_once_text, split_text,
};
use vstd::prelude::*;
use vstd::utf8::*;

verus! {

#[derive(Debug, PartialEq, Eq)]
pub enum TaskError {
    Run(RunError),
    Path(PathError),
    Io { context: String, source: String },
    Refused { action: String, label: String, detail: String },
}

impl TaskError {
    pub open spec fn message(self) -> Seq<char> {
        match self {
            TaskError::Run(e) => e.message@,
            TaskError::Path(e) => e@.message(),
            TaskError::Io { context, source } => context@ + ": "@ + source@,
            TaskError::Refused { action, label, detail } => "schtasks "@ + action@ + " refused "@
                + label@ + ": "@ + detail@,
        }
    }

    pub fn text(&self) -> (out: String)
        ensures
            out@ == self.message(),
    {
        match self {
            TaskError::Run(e) => e.message.clone(),
            TaskError::Path(e) => e.text(),
            TaskError::Io { context, source } => cat3(context, ": ", source),
            TaskError::Refused { action, label, detail } => cat6(
                "schtasks ",
                action,
                " refused ",
                label,
                ": ",
                detail,
            ),
        }
    }
}

/// Tasks live in a folder of their own, so `schtasks /Query` at the root does not
/// bury them among the hundred Windows ships with.
pub const FOLDER: &'static str = "Tycho";

/// `SCHED_S_TASK_HAS_NOT_RUN`. Task Scheduler reports it as the last result of a task
/// that has never fired, and a freshly installed agent is exactly that - so it must
/// not read as a failure.
pub const NEVER_RUN: i64 = 267_011;

pub open spec fn task_text(agent: Agent) -> Seq<char> {
    "\\"@ + FOLDER@ + "\\"@ + agent.label_text()
}

/// The registered name, which is what every `schtasks` verb takes.
#[must_use]
pub fn task_name(agent: &Agent) -> (out: String)
    ensures
        out@ == task_text(*agent),
{
    cat4("\\", FOLDER, "\\", &agent.label())
}

/// Where the generated definitions are kept.
pub open spec fn definitions_at(home: Option<Seq<char>>, vars: Vars) -> Result<
    Seq<Seq<u8>>,
    path::PathFault,
> {
    match path::resolved(Host::Windows.data(), home, vars) {
        Err(e) => Err(e),
        Ok(dir) => {
            let raw = platform::under_raw(dir, "tasks"@);
            path::cleaned_on(path::has_drive(dir), raw, crate::octets::lossy(raw))
        },
    }
}

/// Where the generated definitions are kept.
///
/// Task Scheduler stores its own copy once a task is registered, so this is not the
/// live one. It is kept because `service status` compares the definition Tycho
/// generated against what the config now asks for, and because a definition nobody
/// can read is one nobody can check.
///
/// # Errors
///
/// If there is no home directory.
pub fn definitions_dir(home: Option<&str>, vars: &Vars) -> (out: Result<AbsPath, PathError>)
    ensures
        platform::names_path(definitions_at(path::view_str_opt(home), *vars), out),
{
    let dir = match data_dir(Host::Windows, home, vars) {
        Ok(dir) => dir,
        Err(e) => return Err(e),
    };
    AbsPath::from_absolute_on(dir.on_drive(), &under(&dir, "tasks"))
}

/// # Errors
///
/// If there is no home directory.
pub fn definition_path(agent: &Agent, home: Option<&str>, vars: &Vars) -> (out: Result<
    Vec<u8>,
    PathError,
>)
    ensures
        match definitions_at(path::view_str_opt(home), *vars) {
            Ok(dir) => out matches Ok(p) && p@ == platform::under_raw(
                dir,
                agent.label_text() + ".xml"@,
            ),
            Err(fault) => out matches Err(e) && e@ == fault,
        },
{
    let dir = match definitions_dir(home, vars) {
        Ok(dir) => dir,
        Err(e) => return Err(e),
    };
    let name = cat2(&agent.label(), ".xml");
    Ok(under(&dir, &name))
}

/// Escapes the five characters XML gives meaning to.
///
/// A watched path may contain `&`. A definition that silently truncated at one would
/// schedule a backup of the wrong tree, at exit 0.
#[must_use]
pub fn escape(text: &str) -> (out: String)
    ensures
        out@ == launchd::escaped(text@),
{
    launchd::escape(text)
}

// ---------------------------------------------------------------------------
// Definitions
// ---------------------------------------------------------------------------

/// The first `n` arguments, each in quotes and behind a space.
pub open spec fn argument_words(arguments: Seq<Seq<char>>, n: int) -> Seq<char>
    decreases n,
{
    if n <= 0 {
        Seq::empty()
    } else {
        argument_words(arguments, n - 1) + (" \""@ + arguments[n - 1] + "\""@)
    }
}

fn quoted_arguments(arguments: &Vec<String>) -> (out: String)
    ensures
        out@ == argument_words(text::views(arguments@), arguments@.len() as int),
{
    let ghost all = text::views(arguments@);
    let mut out = String::new();
    let mut i: usize = 0;
    assert(out@ =~= argument_words(all, 0));
    while i < arguments.len()
        invariant
            i <= arguments@.len(),
            all == text::views(arguments@),
            out@ == argument_words(all, i as int),
        decreases arguments@.len() - i,
    {
        assert(all[i as int] == arguments@[i as int]@);
        let word = cat3(" \"", &arguments[i], "\"");
        out.append(&word);
        i += 1;
    }
    out
}

/// The `Arguments` value: the program and its arguments, with both streams appended
/// to a log.
///
/// `cmd /c "..."` and the doubled outer quotes are what survives a space in either
/// path - `cmd` strips the outer pair and treats the rest as the command line.
pub open spec fn action_text(job: Job<'_>) -> Seq<char> {
    "/c \"\""@
        + plan::shown(job.program@)
        + "\""@
        + argument_words(text::views(job.arguments@), job.arguments@.len() as int)
        + " >> \""@
        + launchd::log_text(job.log_dir@, job.log_stem@, "out"@)
        + "\" 2>&1\""@
}

fn action_arguments(job: &Job<'_>) -> (out: String)
    ensures
        out@ == action_text(*job),
{
    let arguments = quoted_arguments(&job.arguments);
    let mut out = "/c \"\"".to_owned();
    out.append(&job.program.text());
    out.append("\"");
    out.append(&arguments);
    out.append(" >> \"");
    out.append(&log_path(job.log_dir, &job.log_stem, "out"));
    out.append("\" 2>&1\"");
    out
}

/// What leads up to the triggers.
///
/// `schtasks /Create /XML` insists the declaration say UTF-16 - a document declaring
/// UTF-8 is refused outright. So the declaration says UTF-16 and [`encode`] makes that true,
/// rather than the file claiming one encoding and carrying another.
pub open spec fn head_pieces(description: Seq<char>) -> Seq<Seq<char>> {
    seq![
        "?xml version=\"1.0\" encoding=\"UTF-16\"?>\n"@,
        "Task version=\"1.2\" xmlns=\"http://schemas.microsoft.com/windows/2004/02/mit/task\">\n  "@,
        "RegistrationInfo>\n    "@,
        "Description>"@ + launchd::escaped(description),
        "/Description>\n  "@,
        "/RegistrationInfo>\n  "@,
        "Triggers>\n    "@,
    ]
}

fn head(description: &str) -> (out: Vec<String>)
    ensures
        text::views(out@) == head_pieces(description@),
{
    let mut out: Vec<String> = Vec::new();
    out.push("?xml version=\"1.0\" encoding=\"UTF-16\"?>\n".to_owned());
    out.push("Task version=\"1.2\" xmlns=\"http://schemas.microsoft.com/windows/2004/02/mit/task\">\n  ".to_owned());
    out.push("RegistrationInfo>\n    ".to_owned());
    out.push(cat2("Description>", &escape(description)));
    out.push("/Description>\n  ".to_owned());
    out.push("/RegistrationInfo>\n  ".to_owned());
    out.push("Triggers>\n    ".to_owned());
    assert(text::views(out@) =~= head_pieces(description@));
    out
}

/// What stands behind the triggers: who runs it, every setting that decides whether a run
/// happens at all, and what is run.
///
/// The battery pair is the load-bearing part: both default to `true`, so a laptop
/// running on battery at the scheduled moment simply does not back up, and nothing
/// reports it. `ExecutionTimeLimit` is generous rather than absent because a task with
/// no limit that hangs holds `MultipleInstancesPolicy` against every later run.
pub open spec fn tail_pieces(job: Job<'_>) -> Seq<Seq<char>> {
    seq![
        "/Triggers>\n  "@,
        "Principals>\n    "@,
        "Principal id=\"Author\">\n      "@,
        "LogonType>InteractiveToken"@,
        "/LogonType>\n      "@,
        "RunLevel>LeastPrivilege"@,
        "/RunLevel>\n    "@,
        "/Principal>\n  "@,
        "/Principals>\n  "@,
        "Settings>\n    "@,
        "DisallowStartIfOnBatteries>false"@,
        "/DisallowStartIfOnBatteries>\n    "@,
        "StopIfGoingOnBatteries>false"@,
        "/StopIfGoingOnBatteries>\n    "@,
        "StartWhenAvailable>true"@,
        "/StartWhenAvailable>\n    "@,
        "MultipleInstancesPolicy>IgnoreNew"@,
        "/MultipleInstancesPolicy>\n    "@,
        "ExecutionTimeLimit>PT2H"@,
        "/ExecutionTimeLimit>\n    "@,
        "AllowHardTerminate>true"@,
        "/AllowHardTerminate>\n    "@,
        "Enabled>true"@,
        "/Enabled>\n    "@,
        "Hidden>false"@,
        "/Hidden>\n    "@,
        "Priority>7"@,
        "/Priority>\n  "@,
        "/Settings>\n  "@,
        "Actions Context=\"Author\">\n    "@,
        "Exec>\n      "@,
        "Command>cmd.exe"@,
        "/Command>\n      "@,
        "Arguments>"@ + launchd::escaped(action_text(job)),
        "/Arguments>\n    "@,
        "/Exec>\n  "@,
        "/Actions>\n"@,
        "/Task>\n"@,
    ]
}

fn tail(job: &Job<'_>) -> (out: Vec<String>)
    ensures
        text::views(out@) == tail_pieces(*job),
{
    let mut out: Vec<String> = Vec::new();
    out.push("/Triggers>\n  ".to_owned());
    out.push("Principals>\n    ".to_owned());
    out.push("Principal id=\"Author\">\n      ".to_owned());
    out.push("LogonType>InteractiveToken".to_owned());
    out.push("/LogonType>\n      ".to_owned());
    out.push("RunLevel>LeastPrivilege".to_owned());
    out.push("/RunLevel>\n    ".to_owned());
    out.push("/Principal>\n  ".to_owned());
    out.push("/Principals>\n  ".to_owned());
    out.push("Settings>\n    ".to_owned());
    out.push("DisallowStartIfOnBatteries>false".to_owned());
    out.push("/DisallowStartIfOnBatteries>\n    ".to_owned());
    out.push("StopIfGoingOnBatteries>false".to_owned());
    out.push("/StopIfGoingOnBatteries>\n    ".to_owned());
    out.push("StartWhenAvailable>true".to_owned());
    out.push("/StartWhenAvailable>\n    ".to_owned());
    out.push("MultipleInstancesPolicy>IgnoreNew".to_owned());
    out.push("/MultipleInstancesPolicy>\n    ".to_owned());
    out.push("ExecutionTimeLimit>PT2H".to_owned());
    out.push("/ExecutionTimeLimit>\n    ".to_owned());
    out.push("AllowHardTerminate>true".to_owned());
    out.push("/AllowHardTerminate>\n    ".to_owned());
    out.push("Enabled>true".to_owned());
    out.push("/Enabled>\n    ".to_owned());
    out.push("Hidden>false".to_owned());
    out.push("/Hidden>\n    ".to_owned());
    out.push("Priority>7".to_owned());
    out.push("/Priority>\n  ".to_owned());
    out.push("/Settings>\n  ".to_owned());
    out.push("Actions Context=\"Author\">\n    ".to_owned());
    out.push("Exec>\n      ".to_owned());
    out.push("Command>cmd.exe".to_owned());
    out.push("/Command>\n      ".to_owned());
    out.push(cat2("Arguments>", &escape(&action_arguments(job))));
    out.push("/Arguments>\n    ".to_owned());
    out.push("/Exec>\n  ".to_owned());
    out.push("/Actions>\n".to_owned());
    out.push("/Task>\n".to_owned());
    assert(text::views(out@) =~= tail_pieces(*job));
    out
}

/// A whole definition.
pub open spec fn document_text(
    description: Seq<char>,
    triggers: Seq<Seq<char>>,
    job: Job<'_>,
) -> Seq<char> {
    elements::marked(head_pieces(description) + triggers + tail_pieces(job))
}

fn document(description: &str, triggers: Vec<String>, job: &Job<'_>) -> (out: String)
    ensures
        out@ == document_text(description@, text::views(triggers@), *job),
{
    let ghost between = text::views(triggers@);
    let mut pieces = head(description);
    let mut triggers = triggers;
    let mut rest = tail(job);
    pieces.append(&mut triggers);
    pieces.append(&mut rest);
    assert(text::views(pieces@) =~= head_pieces(description@) + between + tail_pieces(*job));
    marked_text(&pieces)
}

pub open spec fn day_text(day: Weekday) -> Seq<char> {
    match day {
        Weekday::Sunday => "Sunday"@,
        Weekday::Monday => "Monday"@,
        Weekday::Tuesday => "Tuesday"@,
        Weekday::Wednesday => "Wednesday"@,
        Weekday::Thursday => "Thursday"@,
        Weekday::Friday => "Friday"@,
        Weekday::Saturday => "Saturday"@,
    }
}

fn day_element(day: Weekday) -> (out: &'static str)
    ensures
        out@ == day_text(day),
{
    match day {
        Weekday::Sunday => "Sunday",
        Weekday::Monday => "Monday",
        Weekday::Tuesday => "Tuesday",
        Weekday::Wednesday => "Wednesday",
        Weekday::Thursday => "Thursday",
        Weekday::Friday => "Friday",
        Weekday::Saturday => "Saturday",
    }
}

/// A fixed date in the past, so the trigger's own recurrence decides when it fires
/// rather than the boundary. Only the time of day is read from it.
pub open spec fn boundary_text(at: TimeOfDay) -> Seq<char> {
    "2020-01-01T"@
        + schedule::two_digits(at.hour as nat)
        + ":"@
        + schedule::two_digits(at.minute as nat)
        + ":00"@
}

fn boundary(at: TimeOfDay) -> (out: String)
    ensures
        out@ == boundary_text(at),
{
    let mut out = "2020-01-01T".to_owned();
    out.append(&padded_two(at.hour as u64));
    out.append(":");
    out.append(&padded_two(at.minute as u64));
    out.append(":00");
    out
}

/// An interval in whole minutes, one at least.
pub open spec fn minutes_of(secs: u64) -> int {
    if secs / 60 == 0 {
        1
    } else {
        (secs / 60) as int
    }
}

fn shown_minutes(secs: u64) -> (out: u64)
    ensures
        out == minutes_of(secs),
{
    if secs / 60 == 0 {
        1
    } else {
        secs / 60
    }
}

pub open spec fn every_pieces(interval: Duration) -> Seq<Seq<char>> {
    seq![
        "TimeTrigger>\n      "@,
        "StartBoundary>2020-01-01T00:00:00"@,
        "/StartBoundary>\n      "@,
        "Enabled>true"@,
        "/Enabled>\n      "@,
        "Repetition>\n        "@,
        "Interval>PT"@ + text::decimal_text(minutes_of(interval.secs) as nat) + "M"@,
        "/Interval>\n        "@,
        "StopAtDurationEnd>false"@,
        "/StopAtDurationEnd>\n      "@,
        "/Repetition>\n    "@,
        "/TimeTrigger>\n  "@,
    ]
}

pub open spec fn daily_pieces(at: TimeOfDay) -> Seq<Seq<char>> {
    seq![
        "CalendarTrigger>\n      "@,
        "StartBoundary>"@ + boundary_text(at),
        "/StartBoundary>\n      "@,
        "Enabled>true"@,
        "/Enabled>\n      "@,
        "ScheduleByDay>"@,
        "DaysInterval>1"@,
        "/DaysInterval>"@,
        "/ScheduleByDay>\n    "@,
        "/CalendarTrigger>\n  "@,
    ]
}

pub open spec fn weekly_pieces(day: Weekday, at: TimeOfDay) -> Seq<Seq<char>> {
    seq![
        "CalendarTrigger>\n      "@,
        "StartBoundary>"@ + boundary_text(at),
        "/StartBoundary>\n      "@,
        "Enabled>true"@,
        "/Enabled>\n      "@,
        "ScheduleByWeek>\n        "@,
        "DaysOfWeek>"@,
        day_text(day) + " />"@,
        "/DaysOfWeek>\n        "@,
        "WeeksInterval>1"@,
        "/WeeksInterval>\n      "@,
        "/ScheduleByWeek>\n    "@,
        "/CalendarTrigger>\n  "@,
    ]
}

pub open spec fn trigger_pieces(schedule: Schedule) -> Seq<Seq<char>> {
    match schedule {
        Schedule::Every(interval) => every_pieces(interval),
        Schedule::Daily { at } => daily_pieces(at),
        Schedule::Weekly { day, at } => weekly_pieces(day, at),
    }
}

fn trigger(schedule: Schedule) -> (out: Vec<String>)
    ensures
        text::views(out@) == trigger_pieces(schedule),
{
    let mut out: Vec<String> = Vec::new();
    match schedule {
        Schedule::Every(interval) => {
            out.push("TimeTrigger>\n      ".to_owned());
            out.push("StartBoundary>2020-01-01T00:00:00".to_owned());
            out.push("/StartBoundary>\n      ".to_owned());
            out.push("Enabled>true".to_owned());
            out.push("/Enabled>\n      ".to_owned());
            out.push("Repetition>\n        ".to_owned());
            out.push(cat3("Interval>PT", &decimal(shown_minutes(interval.secs)), "M"));
            out.push("/Interval>\n        ".to_owned());
            out.push("StopAtDurationEnd>false".to_owned());
            out.push("/StopAtDurationEnd>\n      ".to_owned());
            out.push("/Repetition>\n    ".to_owned());
            out.push("/TimeTrigger>\n  ".to_owned());
            assert(text::views(out@) =~= every_pieces(interval));
        },
        Schedule::Daily { at } => {
            out.push("CalendarTrigger>\n      ".to_owned());
            out.push(cat2("StartBoundary>", &boundary(at)));
            out.push("/StartBoundary>\n      ".to_owned());
            out.push("Enabled>true".to_owned());
            out.push("/Enabled>\n      ".to_owned());
            out.push("ScheduleByDay>".to_owned());
            out.push("DaysInterval>1".to_owned());
            out.push("/DaysInterval>".to_owned());
            out.push("/ScheduleByDay>\n    ".to_owned());
            out.push("/CalendarTrigger>\n  ".to_owned());
            assert(text::views(out@) =~= daily_pieces(at));
        },
        Schedule::Weekly { day, at } => {
            out.push("CalendarTrigger>\n      ".to_owned());
            out.push(cat2("StartBoundary>", &boundary(at)));
            out.push("/StartBoundary>\n      ".to_owned());
            out.push("Enabled>true".to_owned());
            out.push("/Enabled>\n      ".to_owned());
            out.push("ScheduleByWeek>\n        ".to_owned());
            out.push("DaysOfWeek>".to_owned());
            out.push(cat2(day_element(day), " />"));
            out.push("/DaysOfWeek>\n        ".to_owned());
            out.push("WeeksInterval>1".to_owned());
            out.push("/WeeksInterval>\n      ".to_owned());
            out.push("/ScheduleByWeek>\n    ".to_owned());
            out.push("/CalendarTrigger>\n  ".to_owned());
            assert(text::views(out@) =~= weekly_pieces(day, at));
        },
    }
    out
}

/// A profile's backup task.
#[must_use]
pub fn backup_definition(job: &Job<'_>, schedule: Schedule) -> (out: String)
    ensures
        out@ == document_text("Tycho backup"@, trigger_pieces(schedule), *job),
{
    document("Tycho backup", trigger(schedule), job)
}

/// The shared catch-up task: hourly, and nothing else.
///
/// launchd's `StartOnMount` has no Task Scheduler equivalent - there is no "a volume
/// appeared" trigger - so the interval is what notices a drive that came back.
///
/// **No logon trigger**, for two reasons that agree. A `<LogonTrigger>` naming no
/// `<UserId>` means every user, which Task Scheduler refuses to register without
/// elevation. And `catchup_plist` leaves `RunAtLoad` out deliberately: at login the cloud File
/// Providers may not have mounted, so every remote would be probed as unreachable on
/// every boot.
#[must_use]
pub fn catchup_definition(job: &Job<'_>) -> (out: String)
    ensures
        out@ == document_text(
            "Tycho catch-up push"@,
            trigger_pieces(Schedule::Every(Duration { secs: 3_600 })),
            *job,
        ),
{
    document("Tycho catch-up push", trigger(Schedule::Every(Duration { secs: 3_600 })), job)
}

/// `doctor --deep`'s transient task, which exists to measure what a scheduled run can
/// actually reach.
#[must_use]
pub fn probe_definition(job: &Job<'_>) -> (out: String)
    ensures
        out@ == document_text(
            "Tycho access probe"@,
            trigger_pieces(Schedule::Every(Duration { secs: 86_400 })),
            *job,
        ),
{
    document("Tycho access probe", trigger(Schedule::Every(Duration { secs: 86_400 })), job)
}

// ---------------------------------------------------------------------------
// UTF-16
// ---------------------------------------------------------------------------

/// The units a character is written as.
pub open spec fn units_of(c: char) -> Seq<u16> {
    let code = c as u32;
    if code < 0x10000 {
        seq![code as u16]
    } else {
        seq![
            (0xd800 + (code - 0x10000) / 1024) as u16,
            (0xdc00 + (code - 0x10000) % 1024) as u16,
        ]
    }
}

pub open spec fn utf16(s: Seq<char>) -> Seq<u16>
    decreases s.len(),
{
    if s.len() == 0 {
        Seq::empty()
    } else {
        utf16(s.drop_last()) + units_of(s.last())
    }
}

/// Units as bytes, the low one of each first.
pub open spec fn low_first(units: Seq<u16>) -> Seq<u8> {
    Seq::new(
        units.len() * 2,
        |i: int|
            if i % 2 == 0 {
                (units[i / 2] % 256) as u8
            } else {
                (units[i / 2] / 256) as u8
            },
    )
}

/// The bytes a definition is stored as: UTF-16LE with a byte-order mark.
pub open spec fn stored(definition: Seq<char>) -> Seq<u8> {
    seq![0xffu8, 0xfe] + low_first(utf16(definition))
}

fn push_unit(out: &mut Vec<u8>, unit: u16)
    ensures
        final(out)@ == old(out)@.push((unit % 256) as u8).push((unit / 256) as u8),
{
    out.push((unit % 256) as u8);
    out.push((unit / 256) as u8);
}

/// The bytes a definition is stored as: UTF-16LE with a byte-order mark, which is
/// what the declaration promises and what `schtasks` reads.
#[must_use]
pub fn encode(definition: &str) -> (out: Vec<u8>)
    ensures
        out@ == stored(definition@),
{
    let cs = chars_of(definition);
    let mut out: Vec<u8> = vec![0xff, 0xfe];
    let mut i: usize = 0;
    assert(out@ =~= seq![0xffu8, 0xfe] + low_first(utf16(cs@.take(0))));
    while i < cs.len()
        invariant
            i <= cs@.len(),
            cs@ == definition@,
            out@ == seq![0xffu8, 0xfe] + low_first(utf16(cs@.take(i as int))),
        decreases cs@.len() - i,
    {
        let code: u32 = cs[i] as u32;
        let ghost before = utf16(cs@.take(i as int));
        proof {
            char_is_scalar(cs@[i as int]);
            assert(cs@.take(i + 1).drop_last() =~= cs@.take(i as int));
            assert(cs@.take(i + 1).last() == cs@[i as int]);
        }
        if code < 0x10000 {
            push_unit(&mut out, code as u16);
            assert(out@ =~= seq![0xffu8, 0xfe] + low_first(before + seq![code as u16]));
        } else {
            let rest: u32 = code - 0x10000;
            let high: u16 = (0xd800 + rest / 1024) as u16;
            let low: u16 = (0xdc00 + rest % 1024) as u16;
            push_unit(&mut out, high);
            assert(out@ =~= seq![0xffu8, 0xfe] + low_first(before + seq![high]));
            push_unit(&mut out, low);
            assert(out@ =~= seq![0xffu8, 0xfe] + low_first(before + seq![high, low]));
        }
        i += 1;
    }
    assert(cs@.take(i as int) =~= cs@);
    out
}

/// The character shown for a unit that belongs to none.
pub const REPLACEMENT: char = '\u{fffd}';

/// The text some units spell, from `at` on. A unit that is half of a pair without its other
/// half is shown by the replacement character.
pub open spec fn spelled(units: Seq<u16>, at: int) -> Seq<char>
    decreases units.len() - at,
{
    if at >= units.len() {
        Seq::empty()
    } else {
        let u = units[at];
        if u < 0xd800 || u >= 0xe000 {
            seq![(u as u32) as char] + spelled(units, at + 1)
        } else if u < 0xdc00 && at + 1 < units.len() && 0xdc00 <= units[at + 1] < 0xe000 {
            seq![
                ((0x10000 + (u - 0xd800) * 1024 + (units[at + 1] - 0xdc00)) as u32) as char,
            ] + spelled(
                units,
                at + 2,
            )
        } else {
            seq![REPLACEMENT] + spelled(units, at + 1)
        }
    }
}

/// Pairs of bytes as units, the low one of each first. An odd byte at the end is left out.
pub open spec fn paired(raw: Seq<u8>) -> Seq<u16> {
    Seq::new(raw.len() / 2, |i: int| (raw[2 * i] + 256 * raw[2 * i + 1]) as u16)
}

/// The text stored bytes hold.
pub open spec fn read_back(raw: Seq<u8>) -> Seq<char> {
    let body = if text::has_prefix(raw, seq![0xffu8, 0xfe]) {
        raw.skip(2)
    } else {
        raw
    };
    spelled(paired(body), 0)
}

/// Calls `char::from_u32`: the character with a code, where there is one.
#[verifier::external_body]
fn char_with(code: u32) -> (out: Option<char>)
    ensures
        match out {
            Some(c) => c as u32 == code,
            None => 0xd800 <= code < 0xe000 || code > 0x10ffff,
        },
{
    char::from_u32(code)
}

fn scalar(code: u32) -> (out: char)
    requires
        code < 0xd800 || 0xe000 <= code <= 0x10ffff,
    ensures
        out == code as char,
{
    match char_with(code) {
        Some(c) => {
            proof {
                char_u32_cast(c, code);
            }
            c
        },
        None => REPLACEMENT,
    }
}

/// Reads back what [`encode`] wrote, so `service status` can compare the installed
/// definition against the config.
#[must_use]
pub fn decode(bytes: &[u8]) -> (out: String)
    ensures
        out@ == read_back(bytes@),
{
    let marked = bytes.len() >= 2 && bytes[0] == 0xff && bytes[1] == 0xfe;
    proof {
        if marked {
            assert(bytes@.take(2) =~= seq![0xffu8, 0xfe]);
        } else if bytes@.len() >= 2 {
            assert(bytes@.take(2)[0] == bytes@[0]);
            assert(bytes@.take(2)[1] == bytes@[1]);
        }
    }
    let body = if marked {
        let rest = range(bytes, 2, bytes.len());
        assert(rest@ =~= bytes@.skip(2));
        rest
    } else {
        copy_bytes(bytes)
    };
    let n: usize = body.len() / 2;
    let mut units: Vec<u16> = Vec::new();
    let mut i: usize = 0;
    while i < n
        invariant
            i <= n,
            n == body@.len() / 2,
            body@.len() <= usize::MAX,
            units@.len() == i,
            forall|j: int| 0 <= j < i ==> #[trigger] units@[j] == paired(body@)[j],
        decreases n - i,
    {
        let low: u16 = body[2 * i] as u16;
        let high: u16 = body[2 * i + 1] as u16;
        units.push(low + 256 * high);
        i += 1;
    }
    assert(units@ =~= paired(body@));
    spell(&units)
}

fn spell(units: &Vec<u16>) -> (out: String)
    ensures
        out@ == spelled(units@, 0),
{
    let n: usize = units.len();
    let mut out = String::new();
    let mut at: usize = 0;
    let ghost goal = spelled(units@, 0);
    assert(out@ + goal =~= goal);
    while at < n
        invariant
            at <= n == units@.len(),
            goal == spelled(units@, 0),
            out@ + spelled(units@, at as int) == goal,
        decreases n - at,
    {
        let u: u16 = units[at];
        let ghost before = out@;
        if u < 0xd800 || u >= 0xe000 {
            let c = scalar(u as u32);
            out.push(c);
            assert(before + (seq![c] + spelled(units@, at + 1)) =~= out@ + spelled(units@, at + 1));
            at = at + 1;
        } else if u < 0xdc00 && n - at > 1 && 0xdc00 <= units[at + 1] && units[at + 1] < 0xe000 {
            let v: u16 = units[at + 1];
            let code: u32 = 0x10000 + (u as u32 - 0xd800) * 1024 + (v as u32 - 0xdc00);
            let c = scalar(code);
            out.push(c);
            assert(before + (seq![c] + spelled(units@, at + 2)) =~= out@ + spelled(units@, at + 2));
            at = at + 2;
        } else {
            out.push(REPLACEMENT);
            assert(before + (seq![REPLACEMENT] + spelled(units@, at + 1)) =~= out@ + spelled(
                units@,
                at + 1,
            ));
            at = at + 1;
        }
    }
    assert(out@ + spelled(units@, at as int) =~= out@);
    out
}

// ---------------------------------------------------------------------------
// Lifecycle
// ---------------------------------------------------------------------------

/// `schtasks` reports refusals on stdout as often as on stderr, so both are offered.
pub open spec fn refusal_text(out: Output) -> Seq<char> {
    if out.complaint().len() == 0 {
        lines::trimmed(out.shown())
    } else {
        out.complaint()
    }
}

fn message(out: &Output) -> (shown: String)
    ensures
        shown@ == refusal_text(*out),
{
    let stderr = out.error_text();
    if stderr.as_str().is_empty() {
        return out.trimmed();
    }
    stderr
}

/// The call that registers a definition, replacing any task of the same name.
///
/// `/F` is what makes `install` idempotent and `restart` a one-liner, the same role
/// `bootout` before `bootstrap` plays on macOS.
pub fn register_call(agent: &Agent, definition: &AbsPath) -> (out: Call)
    ensures
        out@ == process::program_call(
            "schtasks"@,
            seq![
                "/Create"@,
                "/TN"@,
                task_text(*agent),
                "/XML"@,
                plan::shown(definition@),
                "/F"@,
            ],
            Timeout::Work,
        ),
{
    let name = task_name(agent);
    let shown = definition.text();
    let args: Vec<&str> = vec!["/Create", "/TN", name.as_str(), "/XML", shown.as_str(), "/F"];
    assert(process::str_views(args@) =~= seq![
        "/Create"@,
        "/TN"@,
        task_text(*agent),
        "/XML"@,
        plan::shown(definition@),
        "/F"@,
    ]);
    command("schtasks", args, Timeout::Work)
}

/// What [`register_call`] came to.
///
/// # Errors
///
/// If `schtasks` refused.
pub fn register(agent: &Agent, out: Result<Output, RunError>) -> (got: Result<(), TaskError>)
    ensures
        match out {
            Err(e) => got == Err::<(), TaskError>(TaskError::Run(e)),
            Ok(o) => if o.success {
                got is Ok
            } else {
                got matches Err(TaskError::Refused { action, label, detail }) && action@ == "/Create"@
                    && label@ == task_text(*agent) && detail@ == refusal_text(o)
            },
        },
{
    match out {
        Err(e) => Err(TaskError::Run(e)),
        Ok(out) => {
            if out.success {
                return Ok(());
            }
            Err(
                TaskError::Refused {
                    action: "/Create".to_owned(),
                    label: task_name(agent),
                    detail: message(&out),
                },
            )
        },
    }
}

/// The call that removes a task.
pub fn deregister_call(agent: &Agent) -> (out: Call)
    ensures
        out@ == process::program_call(
            "schtasks"@,
            seq!["/Delete"@, "/TN"@, task_text(*agent), "/F"@],
            Timeout::Quick,
        ),
{
    let name = task_name(agent);
    let args: Vec<&str> = vec!["/Delete", "/TN", name.as_str(), "/F"];
    assert(process::str_views(args@) =~= seq![
        "/Delete"@,
        "/TN"@,
        task_text(*agent),
        "/F"@,
    ]);
    command("schtasks", args, Timeout::Quick)
}

/// What [`deregister_call`] came to. A task that is not registered is not an error - `uninstall`
/// after a crash must still leave nothing behind - so a refusal is held against `after`, what the
/// scheduler says of the task now.
///
/// # Errors
///
/// If `schtasks` failed for any reason other than the task being absent.
pub fn deregister(
    agent: &Agent,
    out: Result<Output, RunError>,
    after: Result<Loaded, RunError>,
) -> (got: Result<(), TaskError>)
    ensures
        match out {
            Err(e) => got == Err::<(), TaskError>(TaskError::Run(e)),
            Ok(o) => if o.success {
                got is Ok
            } else {
                match after {
                    Err(e) => got == Err::<(), TaskError>(TaskError::Run(e)),
                    Ok(Loaded::No) => got is Ok,
                    Ok(_) => got matches Err(TaskError::Refused { action, label, detail }) && action@
                        == "/Delete"@ && label@ == task_text(*agent) && detail@ == refusal_text(
                        o,
                    ),
                }
            },
        },
{
    let out = match out {
        Err(e) => return Err(TaskError::Run(e)),
        Ok(out) => out,
    };
    if out.success {
        return Ok(());
    }
    match after {
        Err(e) => Err(TaskError::Run(e)),
        Ok(Loaded::No) => Ok(()),
        Ok(_) => Err(
            TaskError::Refused {
                action: "/Delete".to_owned(),
                label: task_name(agent),
                detail: message(&out),
            },
        ),
    }
}

/// The call that asks Task Scheduler about one task.
pub fn state_call(agent: &Agent) -> (out: Call)
    ensures
        out@ == process::program_call(
            "schtasks"@,
            seq!["/Query"@, "/TN"@, task_text(*agent), "/FO"@, "LIST"@, "/V"@],
            Timeout::Quick,
        ),
{
    let name = task_name(agent);
    let args: Vec<&str> = vec!["/Query", "/TN", name.as_str(), "/FO", "LIST", "/V"];
    assert(process::str_views(args@) =~= seq![
        "/Query"@,
        "/TN"@,
        task_text(*agent),
        "/FO"@,
        "LIST"@,
        "/V"@,
    ]);
    command("schtasks", args, Timeout::Quick)
}

/// The value of the first line under a name, in capitals or small letters.
pub open spec fn listed_value(printed: Seq<Seq<char>>, name: Seq<char>) -> Option<Seq<char>>
    decreases printed.len(),
{
    if printed.len() == 0 {
        None
    } else {
        match text::split_first(printed[0], ':') {
            Some((key, value)) if text::ascii_lower_text(lines::trimmed(key))
                == text::ascii_lower_text(name) => Some(lines::trimmed(value)),
            _ => listed_value(printed.skip(1), name),
        }
    }
}

fn read_value(printed: &Vec<String>, name: &str) -> (out: Option<String>)
    ensures
        text::view_opt(out) == listed_value(text::views(printed@), name@),
{
    let ghost all = text::views(printed@);
    let wanted = lower_ascii(name);
    let mut i: usize = 0;
    assert(all.skip(0) =~= all);
    while i < printed.len()
        invariant
            i <= printed@.len(),
            all == text::views(printed@),
            wanted@ == text::ascii_lower_text(name@),
            listed_value(all, name@) == listed_value(all.skip(i as int), name@),
        decreases printed@.len() - i,
    {
        assert(all.skip(i as int)[0] == printed@[i as int]@);
        if let Some((key, value)) = split_once(&printed[i], ':') {
            if same_chars(&lower_ascii(&trim(&key)), &wanted) {
                return Some(trim(&value));
            }
        }
        assert(all.skip(i as int).skip(1) =~= all.skip(i + 1));
        i += 1;
    }
    None
}

/// What `schtasks /Query` printed says of a task. Task Scheduler reports no pid.
pub open spec fn loaded_from(out: Output) -> Loaded {
    if !out.success {
        Loaded::No
    } else {
        let code = match listed_value(lines::lines_of(out.shown()), "Last Result"@) {
            Some(value) => text::parsed_signed(lines::trimmed(value)),
            None => None,
        };
        Loaded::Yes {
            pid: None,
            last: match code {
                None => Ended::NeverRun,
                Some(n) => if n == NEVER_RUN {
                    Ended::NeverRun
                } else if i32::MIN <= n <= i32::MAX {
                    Ended::Exit(n as i32)
                } else {
                    Ended::Exit(-1i32)
                },
            },
        }
    }
}

/// What [`state_call`] came to. A task that is not registered is
/// [`Loaded::No`], not an error.
pub fn state(out: &Output) -> (loaded: Loaded)
    ensures
        loaded == loaded_from(*out),
{
    if !out.success {
        return Loaded::No;
    }
    let shown = out.text();
    let printed = lines::lines(&shown);
    let code = match read_value(&printed, "Last Result") {
        Some(value) => signed(&chars_of(&trim(&value))),
        None => None,
    };
    let last = match code {
        None => Ended::NeverRun,
        Some(n) => {
            if n == NEVER_RUN {
                Ended::NeverRun
            } else if i32::MIN as i64 <= n && n <= i32::MAX as i64 {
                Ended::Exit(n as i32)
            } else {
                Ended::Exit(-1)
            }
        },
    };
    Loaded::Yes { pid: None, last }
}

// ---------------------------------------------------------------------------
// Reading a definition
// ---------------------------------------------------------------------------

/// What stands between the first opening and the first closing behind it.
pub open spec fn enclosed(s: Seq<char>, open: Seq<char>, close: Seq<char>) -> Option<Seq<char>> {
    match text::split_at_text(s, open) {
        None => None,
        Some((_, rest)) => match text::split_at_text(rest, close) {
            None => None,
            Some((inner, _)) => Some(inner),
        },
    }
}

fn between(s: &str, open: &str, close: &str) -> (out: Option<String>)
    requires
        open@.len() > 0,
        close@.len() > 0,
    ensures
        text::view_opt(out) == enclosed(s@, open@, close@),
{
    match split_once_text(s, open) {
        None => None,
        Some((_, rest)) => match split_once_text(&rest, close) {
            None => None,
            Some((inner, _)) => Some(inner),
        },
    }
}

/// The minutes of a repetition, where a definition has one and no logon trigger.
pub open spec fn interval_minutes(xml: Seq<char>) -> Option<nat> {
    match enclosed(xml, "<Interval>PT"@, "M</Interval>"@) {
        Some(minutes) => if text::contains_text(xml, "<LogonTrigger>"@) {
            None
        } else {
            text::parsed_number(minutes, u64::MAX as nat)
        },
        None => None,
    }
}

/// Whether a repetition is one whose seconds can be counted.
pub open spec fn countable(xml: Seq<char>) -> bool {
    interval_minutes(xml) matches Some(n) ==> n * 60 <= u64::MAX
}

/// The time of day a start boundary names.
pub open spec fn boundary_time(xml: Seq<char>) -> Option<TimeOfDay> {
    match enclosed(xml, "<StartBoundary>"@, "</StartBoundary>"@) {
        None => None,
        Some(boundary) => {
            let halves = text::split(boundary, 'T');
            if halves.len() < 2 {
                None
            } else {
                let parts = text::split(halves[1], ':');
                if parts.len() < 2 {
                    None
                } else {
                    match (text::parsed_number(parts[0], 255), text::parsed_number(parts[1], 255)) {
                        (Some(hour), Some(minute)) => Some(
                            TimeOfDay { hour: hour as u8, minute: minute as u8 },
                        ),
                        _ => None,
                    }
                }
            }
        },
    }
}

pub open spec fn names_day(xml: Seq<char>, day: Weekday) -> bool {
    text::contains_text(xml, "<"@ + day_text(day) + " />"@)
}

/// The first day of a week that a definition names.
pub open spec fn day_in(xml: Seq<char>) -> Option<Weekday> {
    if names_day(xml, Weekday::Sunday) {
        Some(Weekday::Sunday)
    } else if names_day(xml, Weekday::Monday) {
        Some(Weekday::Monday)
    } else if names_day(xml, Weekday::Tuesday) {
        Some(Weekday::Tuesday)
    } else if names_day(xml, Weekday::Wednesday) {
        Some(Weekday::Wednesday)
    } else if names_day(xml, Weekday::Thursday) {
        Some(Weekday::Thursday)
    } else if names_day(xml, Weekday::Friday) {
        Some(Weekday::Friday)
    } else if names_day(xml, Weekday::Saturday) {
        Some(Weekday::Saturday)
    } else {
        None
    }
}

/// The schedule a definition says.
pub open spec fn schedule_in(xml: Seq<char>) -> Option<Schedule> {
    match interval_minutes(xml) {
        Some(minutes) => Some(Schedule::Every(Duration { secs: (minutes * 60) as u64 })),
        None => match boundary_time(xml) {
            None => None,
            Some(at) => if text::contains_text(xml, "<ScheduleByWeek>"@) {
                match day_in(xml) {
                    Some(day) => Some(Schedule::Weekly { day, at }),
                    None => None,
                }
            } else if text::contains_text(xml, "<ScheduleByDay>"@) {
                Some(Schedule::Daily { at })
            } else {
                None
            },
        },
    }
}

fn read_minutes(xml: &str) -> (out: Option<u64>)
    ensures
        match out {
            Some(n) => interval_minutes(xml@) == Some(n as nat),
            None => interval_minutes(xml@) is None,
        },
{
    proof {
        reveal_strlit("<Interval>PT");
        reveal_strlit("M</Interval>");
    }
    match between(xml, "<Interval>PT", "M</Interval>") {
        None => None,
        Some(minutes) => {
            if holds_text(xml, "<LogonTrigger>") {
                return None;
            }
            number(&chars_of(&minutes), u64::MAX)
        },
    }
}

/// Whether a definition's repetition, if it has one, is one whose seconds can be counted.
pub fn is_countable(xml: &str) -> (out: bool)
    ensures
        out == countable(xml@),
{
    match read_minutes(xml) {
        Some(minutes) => minutes <= u64::MAX / 60,
        None => true,
    }
}

fn read_time(xml: &str) -> (out: Option<TimeOfDay>)
    ensures
        out == boundary_time(xml@),
{
    proof {
        reveal_strlit("<StartBoundary>");
        reveal_strlit("</StartBoundary>");
    }
    let boundary = match between(xml, "<StartBoundary>", "</StartBoundary>") {
        Some(boundary) => boundary,
        None => return None,
    };
    let halves = split_text(&boundary, 'T');
    let n: usize = halves.len();
    assert(text::views(halves@).len() == n);
    if n < 2 {
        return None;
    }
    assert(text::views(halves@)[1] == halves@[1]@);
    let parts = split_text(&halves[1], ':');
    let m: usize = parts.len();
    assert(text::views(parts@).len() == m);
    if m < 2 {
        return None;
    }
    assert(text::views(parts@)[0] == parts@[0]@);
    assert(text::views(parts@)[1] == parts@[1]@);
    match (number(&chars_of(&parts[0]), 255), number(&chars_of(&parts[1]), 255)) {
        (Some(hour), Some(minute)) => Some(TimeOfDay { hour: hour as u8, minute: minute as u8 }),
        _ => None,
    }
}

fn holds_day(xml: &str, day: Weekday) -> (out: bool)
    ensures
        out == names_day(xml@, day),
{
    let element = cat3("<", day_element(day), " />");
    holds_text(xml, &element)
}

fn read_day(xml: &str) -> (out: Option<Weekday>)
    ensures
        out == day_in(xml@),
{
    if holds_day(xml, Weekday::Sunday) {
        Some(Weekday::Sunday)
    } else if holds_day(xml, Weekday::Monday) {
        Some(Weekday::Monday)
    } else if holds_day(xml, Weekday::Tuesday) {
        Some(Weekday::Tuesday)
    } else if holds_day(xml, Weekday::Wednesday) {
        Some(Weekday::Wednesday)
    } else if holds_day(xml, Weekday::Thursday) {
        Some(Weekday::Thursday)
    } else if holds_day(xml, Weekday::Friday) {
        Some(Weekday::Friday)
    } else if holds_day(xml, Weekday::Saturday) {
        Some(Weekday::Saturday)
    } else {
        None
    }
}

/// Reads the schedule back out of a generated definition.
///
/// Parsed from the shape this module writes rather than through an XML library: this
/// is the reader for text this crate wrote.
#[must_use]
pub fn scheduled_in(xml: &str) -> (out: Option<Schedule>)
    requires
        countable(xml@),
    ensures
        out == schedule_in(xml@),
{
    if let Some(minutes) = read_minutes(xml) {
        return Some(Schedule::Every(Duration { secs: minutes * 60 }));
    }
    let at = match read_time(xml) {
        Some(at) => at,
        None => return None,
    };
    if holds_text(xml, "<ScheduleByWeek>") {
        return match read_day(xml) {
            Some(day) => Some(Schedule::Weekly { day, at }),
            None => None,
        };
    }
    if holds_text(xml, "<ScheduleByDay>") {
        return Some(Schedule::Daily { at });
    }
    None
}

/// [`scheduled_in`] for a definition that may come from anywhere: nothing where its repetition
/// is longer than can be counted.
#[must_use]
pub fn scheduled_in_any(xml: &str) -> (out: Option<Schedule>)
    ensures
        out == if countable(xml@) {
            schedule_in(xml@)
        } else {
            None
        },
{
    if is_countable(xml) {
        scheduled_in(xml)
    } else {
        None
    }
}

// ---------------------------------------------------------------------------
// Laws
// ---------------------------------------------------------------------------

proof fn lemma_spelled(s: Seq<char>, n: int)
    requires
        0 <= n <= s.len(),
    ensures
        spelled(utf16(s.skip(n)), 0) == s.skip(n),
    decreases s.len() - n,
{
    if n < s.len() {
        lemma_spelled(s, n + 1);
        let c = s[n];
        let rest = s.skip(n + 1);
        lemma_utf16_front(c, rest);
        assert(s.skip(n) =~= seq![c] + rest);
        lemma_spelled_front(c, utf16(rest));
        assert(spelled(utf16(rest), 0) == rest);
    } else {
        assert(s.skip(n) =~= Seq::<char>::empty());
    }
}

proof fn lemma_utf16_front(c: char, rest: Seq<char>)
    ensures
        utf16(seq![c] + rest) == units_of(c) + utf16(rest),
    decreases rest.len(),
{
    let all = seq![c] + rest;
    if rest.len() == 0 {
        assert(all.drop_last() =~= Seq::<char>::empty());
        assert(all.last() == c);
        assert(utf16(all.drop_last()) =~= Seq::<u16>::empty());
        assert(Seq::<u16>::empty() + units_of(c) =~= units_of(c) + utf16(rest));
    } else {
        assert(all.drop_last() =~= seq![c] + rest.drop_last());
        assert(all.last() == rest.last());
        lemma_utf16_front(c, rest.drop_last());
        let a = units_of(c);
        let b = utf16(rest.drop_last());
        let d = units_of(rest.last());
        assert(a + b + d =~= a + (b + d));
    }
}

proof fn lemma_shifted(head: Seq<u16>, tail: Seq<u16>, at: int)
    requires
        0 <= at,
    ensures
        spelled(head + tail, head.len() + at) == spelled(tail, at),
    decreases tail.len() - at,
{
    let all = head + tail;
    let k = head.len() as int;
    if at < tail.len() {
        assert(all[k + at] == tail[at]);
        if at + 1 < tail.len() {
            assert(all[k + at + 1] == tail[at + 1]);
            lemma_shifted(head, tail, at + 2);
        }
        lemma_shifted(head, tail, at + 1);
    }
}

proof fn lemma_spelled_front(c: char, tail: Seq<u16>)
    ensures
        spelled(units_of(c) + tail, 0) == seq![c] + spelled(tail, 0),
{
    let head = units_of(c);
    let all = head + tail;
    let code = c as u32;
    char_is_scalar(c);
    char_u32_cast(c, code);
    lemma_shifted(head, tail, 0);
    if code < 0x10000 {
        assert(all[0] == code as u16);
        assert(all[0] as u32 == code);
    } else {
        let high = all[0];
        let low = all[1];
        assert(high == (0xd800 + (code - 0x10000) / 1024) as u16);
        assert(low == (0xdc00 + (code - 0x10000) % 1024) as u16);
        assert(0x10000 + (high - 0xd800) * 1024 + (low - 0xdc00) == code);
    }
}

proof fn lemma_paired(units: Seq<u16>)
    ensures
        paired(low_first(units)) == units,
{
    let raw = low_first(units);
    assert forall|i: int| 0 <= i < units.len() implies #[trigger] paired(raw)[i] == units[i] by {
        assert(raw[2 * i] == (units[i] % 256) as u8);
        assert(raw[2 * i + 1] == (units[i] / 256) as u8);
    }
    assert(paired(raw) =~= units);
}

/// Whatever a definition holds, decoding what was stored gives it back.
pub proof fn definitions_round_trip(definition: Seq<char>)
    ensures
        read_back(stored(definition)) == definition,
{
    let mark = seq![0xffu8, 0xfe];
    let raw = stored(definition);
    assert(raw.take(2) =~= mark);
    assert(raw.skip(2) =~= low_first(utf16(definition)));
    lemma_paired(utf16(definition));
    lemma_spelled(definition, 0);
    assert(definition.skip(0) =~= definition);
}

/// How a task ended is the code it left, unless that is the one for a task that has not run.
pub proof fn a_result_is_the_code_a_task_left(out: Output, n: nat)
    requires
        out.success,
        n <= i32::MAX,
        listed_value(lines::lines_of(out.shown()), "Last Result"@) == Some(text::decimal_text(n)),
    ensures
        loaded_from(out) matches Loaded::Yes { last, .. } && last == if n == 267_011 {
            Ended::NeverRun
        } else {
            Ended::Exit(n as i32)
        },
{
    text::lemma_decimal_digits(n);
    let digits = text::decimal_text(n);
    assert(text::is_digit(digits[0]) && text::is_digit(digits[digits.len() - 1]));
    lines::lemma_untrimmed(digits);
    text::decimals_round_trip(n, i64::MAX as nat);
}

} // verus!
