//! `tycho schedule`: show, set or clear a profile's run schedule.

use crate::cli::profile;
use crate::cli::profile::schedule_refused;
use crate::cli::report::{Diagnostic, DiagnosticView};
use crate::cli::run;
use crate::cli::words;
use crate::cli::words::clip;
use crate::config::schedule;
use crate::config::schedule::Schedule;
use crate::config::{Config, Profile};
use crate::config_edit;
use crate::config_edit::document;
use crate::config_edit::document::{Node, Table};
use crate::config_edit::{EditFault, Editing};
use crate::primitives::path;
use crate::text;
use crate::text::{cat2, cat3, cat4, join_text, left};
use vstd::prelude::*;

verus! {

pub open spec fn not_found(name: Seq<char>) -> DiagnosticView {
    DiagnosticView::error("no profile named '"@ + name + "'"@).recovery_with(
        "tycho profile list"@,
        "names every profile in this file"@,
    )
}

/// Which profile `schedule show` is about.
pub open spec fn shown_one(profiles: Seq<Profile>, wanted: Option<Seq<char>>) -> Result<
    Profile,
    DiagnosticView,
> {
    let names = run::profile_names(profiles);
    match wanted {
        Some(name) => {
            let at = text::position(names, name);
            if 0 <= at < names.len() {
                Ok(profiles[at])
            } else {
                Err(not_found(name))
            }
        },
        None => if profiles.len() == 1 {
            Ok(profiles[0])
        } else if profiles.len() == 0 {
            Err(DiagnosticView::error("the config defines no profiles"@))
        } else {
            Err(DiagnosticView::error("name a profile with -p: "@ + text::join(names, ", "@)))
        },
    }
}

/// # Errors
///
/// If no profile has the name, or none was named and there is not exactly one.
pub fn find<'a>(config: &'a Config, wanted: Option<&str>) -> (out: Result<&'a Profile, Diagnostic>)
    ensures
        match out {
            Ok(profile) => shown_one(config.profiles@, path::view_str_opt(wanted)) == Ok::<
                Profile,
                DiagnosticView,
            >(*profile),
            Err(d) => shown_one(config.profiles@, path::view_str_opt(wanted)) == Err::<
                Profile,
                DiagnosticView,
            >(d@),
        },
{
    let len: usize = config.profiles.len();
    match wanted {
        Some(name) => {
            let at = run::position_of(&config.profiles, name);
            if at < len {
                Ok(&config.profiles[at])
            } else {
                Err(
                    Diagnostic::error(&cat3("no profile named '", name, "'")).recovery_with(
                        "tycho profile list",
                        "names every profile in this file",
                    ),
                )
            }
        },
        None => {
            if len == 1 {
                return Ok(&config.profiles[0]);
            }
            if len == 0 {
                return Err(Diagnostic::error("the config defines no profiles"));
            }
            let names = join_text(&run::names_of(&config.profiles), ", ");
            Err(Diagnostic::error(&cat2("name a profile with -p: ", &names)))
        },
    }
}

/// The line `schedule show` prints.
pub open spec fn shown_text(name: Seq<char>, wanted: Option<Schedule>) -> Seq<char> {
    text::padded_right(words::clipped(name, 13), 14) + "  "@ + words::said_or(
        wanted,
        "no schedule, runs only when invoked by hand"@,
    ) + "\n"@
}

/// The current schedule.
#[must_use]
pub fn show(profile: &Profile) -> (out: String)
    ensures
        out@ == shown_text(profile.name@, profile.schedule),
{
    cat4(
        &left(&clip(profile.name.as_str(), 13), 14),
        "  ",
        &words::say_or(profile.schedule, "no schedule, runs only when invoked by hand"),
        "\n",
    )
}

pub open spec fn no_schedule(given: Seq<char>, reason: Seq<char>) -> DiagnosticView {
    profile::not_a_schedule(given, reason).recovery_with(
        "tycho schedule set daily:12:00"@,
        "once a day"@,
    ).recovery_with("tycho schedule set weekly:sunday:12:00"@, "once a week"@).recovery_with(
        "tycho schedule set every:6h"@,
        "on a fixed interval"@,
    )
}

/// Reads a schedule, before any file is opened.
///
/// # Errors
///
/// If it is none.
pub fn read(given: &str) -> (out: Result<Schedule, Diagnostic>)
    ensures
        match schedule::schedule_of(given@) {
            Ok(wanted) => out matches Ok(s) && s == wanted,
            Err(reason) => out matches Err(d) && d@ == no_schedule(given@, reason),
        },
{
    match Schedule::parse(given) {
        Ok(wanted) => Ok(wanted),
        Err(reason) => Err(
            schedule_refused(given, &reason).recovery_with(
                "tycho schedule set daily:12:00",
                "once a day",
            ).recovery_with(
                "tycho schedule set weekly:sunday:12:00",
                "once a week",
            ).recovery_with("tycho schedule set every:6h", "on a fixed interval"),
        ),
    }
}

/// The file with a profile's schedule replaced, or taken out, or what refuses it.
pub open spec fn rescheduled(root: Table, profile: int, wanted: Option<Schedule>) -> Result<
    Table,
    EditFault,
> {
    if !document::has_table(root, profile) {
        Err(config_edit::table_fault(root, profile))
    } else {
        match wanted {
            Some(wanted) => Ok(
                document::with_node(
                    root,
                    profile,
                    "schedule"@,
                    Node::Inline(config_edit::schedule_table(wanted)),
                ),
            ),
            None => Ok(
                document::with_table(
                    root,
                    profile,
                    document::table_at(root, profile).remove("schedule"@),
                ),
            ),
        }
    }
}

/// Replaces the schedule. Answers with what the echo names.
///
/// # Errors
///
/// If the profile has no table.
pub fn replace(editing: &mut Editing, profile: usize, wanted: Schedule) -> (out: Result<
    String,
    Diagnostic,
>)
    ensures
        final(editing).file() == old(editing).file(),
        match rescheduled(old(editing).root(), profile as int, Some(wanted)) {
            Ok(root) => final(editing).root() == root && final(editing).document()
                == config_edit::schedule_written(old(editing).document(), profile as int, wanted)
                && (out matches Ok(said) && said@ == words::said(wanted)),
            Err(fault) => final(editing).document() == old(editing).document() && (out matches Err(
                d,
            ) && d@ == DiagnosticView::error(fault.message())),
        },
{
    match editing.set_schedule(profile, wanted) {
        Ok(()) => Ok(words::say(wanted)),
        Err(error) => Err(Diagnostic::error(&error.text())),
    }
}

/// Clears the schedule, so the profile only runs by hand.
///
/// # Errors
///
/// If the profile has no table.
pub fn off(editing: &mut Editing, profile: usize) -> (out: Result<(), Diagnostic>)
    ensures
        final(editing).file() == old(editing).file(),
        match rescheduled(old(editing).root(), profile as int, None) {
            Ok(root) => final(editing).root() == root && final(editing).document()
                == document::key_removed(old(editing).document(), profile as int, "schedule"@)
                && out is Ok,
            Err(fault) => final(editing).document() == old(editing).document() && (out matches Err(
                d,
            ) && d@ == DiagnosticView::error(fault.message())),
        },
{
    match editing.clear_schedule(profile) {
        Ok(()) => Ok(()),
        Err(error) => Err(Diagnostic::error(&error.text())),
    }
}

// ---------------------------------------------------------------------------
// Laws
// ---------------------------------------------------------------------------

/// Clearing a schedule undoes setting one on a profile that had none, and touches nothing else.
pub proof fn clearing_undoes_setting(root: Table, profile: int, wanted: Schedule)
    requires
        document::has_table(root, profile),
        !document::table_at(root, profile).dom().contains("schedule"@),
    ensures
        rescheduled(root, profile, Some(wanted)) matches Ok(scheduled) && rescheduled(
            scheduled,
            profile,
            None,
        ) == Ok::<Table, EditFault>(root),
{
    let node = Node::Inline(config_edit::schedule_table(wanted));
    let scheduled = document::with_node(root, profile, "schedule"@, node);
    let tables = document::tables_in(root)->0;
    let table = document::table_at(root, profile);
    let cleared = document::with_table(
        scheduled,
        profile,
        document::table_at(scheduled, profile).remove("schedule"@),
    );
    assert(document::tables_in(scheduled) == Some(
        tables.update(profile, table.insert("schedule"@, node)),
    ));
    assert(document::table_at(scheduled, profile) == table.insert("schedule"@, node));
    assert(table.insert("schedule"@, node).remove("schedule"@) =~= table);
    assert(tables.update(profile, table.insert("schedule"@, node)).update(profile, table)
        =~= tables);
    assert(cleared =~= root);
}

/// `schedule show` is about the same profile that any command is about.
pub proof fn showing_picks_as_every_command_does(profiles: Seq<Profile>, wanted: Option<Seq<char>>)
    ensures
        shown_one(profiles, wanted) is Ok <==> run::selection(profiles, wanted) is Ok,
        shown_one(profiles, wanted) matches Ok(p) ==> run::selection(profiles, wanted) == Ok::<
            Profile,
            DiagnosticView,
        >(p),
{
}

/// Setting a schedule changes that of one profile and nothing else; clearing it takes out the key
/// alone.
pub proof fn rescheduling_touches_one_key(
    root: Table,
    profile: int,
    wanted: Option<Schedule>,
    other: int,
    key: Seq<char>,
)
    requires
        document::has_table(root, profile),
        document::has_table(root, other),
        key != "schedule"@,
    ensures
        rescheduled(root, profile, wanted) matches Ok(after) && {
            &&& document::has_table(after, profile)
            &&& document::table_at(after, profile).dom().contains("schedule"@) == wanted is Some
            &&& wanted matches Some(s) ==> document::table_at(after, profile)["schedule"@]
                == Node::Inline(config_edit::schedule_table(s))
            &&& document::table_at(after, profile).dom().contains(key) == document::table_at(
                root,
                profile,
            ).dom().contains(key)
            &&& document::table_at(root, profile).dom().contains(key) ==> document::table_at(
                after,
                profile,
            )[key] == document::table_at(root, profile)[key]
            &&& other != profile ==> document::table_at(after, other) == document::table_at(
                root,
                other,
            )
        },
{
}

} // verus!
