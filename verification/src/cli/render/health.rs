//! What `doctor` and `service` print.

use crate::cli::page::{Page, PageView, Tint};
use crate::cli::render;
use crate::cli::render::restore;
use crate::cli::render::rule;
use crate::cli::words;
use crate::cli::words::{abbreviate, clip, fit, plural, say, say_or, WIDTH};
use crate::config::schedule::Schedule;
use crate::doctor;
use crate::doctor::{Check, CheckView, Report, Section, SectionView, Verdict};
use crate::platform::launchd::{Agent, Loaded};
use crate::primitives::path;
use crate::text;
use crate::text::{cat4, left};
use vstd::prelude::*;

verus! {

// ---------------------------------------------------------------------------
// Doctor
// ---------------------------------------------------------------------------

pub open spec fn health_tint(verdict: Verdict) -> Tint {
    match verdict {
        Verdict::Fine => Tint::Green,
        Verdict::Warn => Tint::Yellow,
        Verdict::Fail => Tint::Red,
    }
}

pub open spec fn check_row(p: PageView, check: CheckView) -> PageView {
    p.put("  "@).put(text::padded_right(words::clipped(check.name, 21), 22)).ink(
        text::padded_right(check.verdict.word(), 8),
        health_tint(check.verdict),
    ).line(words::clipped(check.evidence, 42))
}

pub open spec fn check_rows(p: PageView, checks: Seq<CheckView>, n: int) -> PageView
    decreases n,
{
    if n <= 0 {
        p
    } else {
        check_row(check_rows(p, checks, n - 1), checks[n - 1])
    }
}

/// A section with nothing to say is left out.
pub open spec fn section_page(p: PageView, section: SectionView) -> PageView {
    if section.checks.len() == 0 {
        p
    } else {
        check_rows(
            render::ruled(p.line(section.title)),
            section.checks,
            section.checks.len() as int,
        ).put("\n"@)
    }
}

pub open spec fn sections_page(p: PageView, sections: Seq<SectionView>, n: int) -> PageView
    decreases n,
{
    if n <= 0 {
        p
    } else {
        section_page(sections_page(p, sections, n - 1), sections[n - 1])
    }
}

pub open spec fn doctor_page(sections: Seq<SectionView>) -> PageView {
    sections_page(PageView::empty(), sections, sections.len() as int).put(
        words::plural_text(doctor::verdicts(sections, Verdict::Fail), "failure"@),
    ).put(", "@).line(words::plural_text(doctor::verdicts(sections, Verdict::Warn), "warning"@))
}

fn put_check(page: &mut Page, check: &Check)
    ensures
        final(page)@ == check_row(old(page)@, check@),
{
    // Padded before painting: an escape sequence has width in bytes and
    // none on screen, so colouring first would push every later column out.
    let verdict = left(check.verdict.text(), 8);
    let tint = match check.verdict {
        Verdict::Fine => Tint::Green,
        Verdict::Warn => Tint::Yellow,
        Verdict::Fail => Tint::Red,
    };
    page.put("  ");
    page.put(&left(&clip(&check.name, 21), 22));
    page.ink(&verdict, tint);
    page.line(&clip(&check.evidence, WIDTH - 32));
}

fn put_section(page: &mut Page, section: &Section)
    ensures
        final(page)@ == section_page(old(page)@, section@),
{
    let ghost all = section@.checks;
    if section.checks.len() == 0 {
        return;
    }
    page.line(&section.title);
    rule(page);
    let ghost start = page@;
    let mut i: usize = 0;
    while i < section.checks.len()
        invariant
            i <= section.checks@.len(),
            all == section@.checks,
            page@ == check_rows(start, all, i as int),
        decreases section.checks@.len() - i,
    {
        assert(all[i as int] == section.checks@[i as int]@);
        put_check(page, &section.checks[i]);
        i += 1;
    }
    page.put("\n");
}

/// `doctor`. One check per row, one verdict word, evidence beside it.
#[must_use]
pub fn doctor(report: &Report, colour: bool) -> (out: String)
    requires
        doctor::verdicts(report@, Verdict::Fail) <= usize::MAX,
        doctor::verdicts(report@, Verdict::Warn) <= usize::MAX,
    ensures
        out@ == doctor_page(report@).shown(colour),
{
    let ghost all = report@;
    let mut page = Page::new();
    let mut i: usize = 0;
    while i < report.sections.len()
        invariant
            i <= report.sections@.len(),
            all == report@,
            page@ == sections_page(PageView::empty(), all, i as int),
        decreases report.sections@.len() - i,
    {
        assert(all[i as int] == report.sections@[i as int]@);
        put_section(&mut page, &report.sections[i]);
        i += 1;
    }

    let (failures, warnings) = report.counts();
    page.put(&plural(failures, "failure"));
    page.put(", ");
    page.line(&plural(warnings, "warning"));
    page.show(colour)
}

// ---------------------------------------------------------------------------
// Service
// ---------------------------------------------------------------------------

pub open spec fn installed_rows(p: PageView, agents: Seq<Agent>, n: int) -> PageView
    decreases n,
{
    if n <= 0 {
        p
    } else {
        installed_rows(p, agents, n - 1).put("installed "@).line(agents[n - 1].label_text())
    }
}

pub open spec fn service_installed_page(
    agents: Seq<Agent>,
    program: Seq<char>,
    home: Option<Seq<char>>,
) -> PageView {
    installed_rows(PageView::empty(), agents, agents.len() as int).put("\nrunning   "@).line(
        words::abbreviated(program, home),
    )
}

/// What `service install` put where. The binary path is echoed because it is written
/// into the plist verbatim, and a plist pointing at a binary you later moved is a
/// scheduled backup that silently stops.
#[must_use]
pub fn service_installed(agents: &[Agent], program: &str, home: Option<&str>) -> (out: String)
    ensures
        out@ == service_installed_page(agents@, program@, path::view_str_opt(home)).shown(false),
{
    let mut page = Page::new();
    let mut i: usize = 0;
    while i < agents.len()
        invariant
            i <= agents@.len(),
            page@ == installed_rows(PageView::empty(), agents@, i as int),
        decreases agents@.len() - i,
    {
        page.put("installed ");
        page.line(&agents[i].label());
        i += 1;
    }
    page.put("\nrunning   ");
    page.line(&abbreviate(program, home));
    page.show(false)
}

/// An agent as the scheduler has it.
#[derive(Debug, PartialEq, Eq)]
pub struct Installed {
    pub agent: Agent,
    pub loaded: Loaded,
    /// The schedule its definition carries.
    pub scheduled: Option<Schedule>,
}

/// One agent's row: what is installed, what the config wants where it says anything, and
/// whether the two agree where there is something to compare.
#[derive(Debug, PartialEq, Eq)]
pub struct ServiceRow {
    pub installed: Installed,
    /// `None` means there is nothing to compare against - the shared agents carry
    /// a fixed schedule of their own.
    pub wanted: Option<Option<Schedule>>,
    pub matches: Option<bool>,
}

impl ServiceRow {
    /// Drift between the installed definition and the config.
    pub open spec fn drifted(self) -> bool {
        self.wanted is Some && self.matches == Some(false)
    }

    pub fn has_drifted(&self) -> (out: bool)
        ensures
            out == self.drifted(),
    {
        match (&self.wanted, self.matches) {
            (Some(_), Some(agrees)) => !agrees,
            _ => false,
        }
    }
}

pub open spec fn schedule_text(row: ServiceRow) -> Seq<char> {
    match row.installed.scheduled {
        None => "-"@,
        Some(schedule) => if row.drifted() {
            words::said(schedule) + " (config says "@ + words::said_or(row.wanted->0, "none"@) + ")"@
        } else {
            words::said(schedule)
        },
    }
}

fn schedule_cell(row: &ServiceRow) -> (out: String)
    ensures
        out@ == schedule_text(*row),
{
    let schedule = match row.installed.scheduled {
        None => return "-".to_owned(),
        Some(schedule) => schedule,
    };
    if row.has_drifted() {
        let wanted: Option<Schedule> = match row.wanted {
            Some(wanted) => wanted,
            None => None,
        };
        cat4(&say(schedule), " (config says ", &say_or(wanted, "none"), ")")
    } else {
        say(schedule)
    }
}

pub open spec fn loaded_text(loaded: Loaded) -> Seq<char> {
    match loaded {
        Loaded::No => "not loaded"@,
        Loaded::Yes { last, .. } => last.shown(),
    }
}

pub open spec fn loaded_tint(loaded: Loaded) -> Option<Tint> {
    match loaded {
        Loaded::No => Some(Tint::Yellow),
        Loaded::Yes { last, .. } => if last.clean() {
            None
        } else {
            Some(Tint::Red)
        },
    }
}

/// Whether an agent is loaded and how it last ended, padded to `width` and then coloured -
/// `doctor` treats the same
/// two conditions as `warn` and `fail`: not loaded means nothing is scheduled to run,
/// and a non-zero last exit is the evidence that revealed a year of silent failure.
pub fn agent_state(page: &mut Page, loaded: Loaded, width: usize)
    ensures
        final(page)@ == old(page)@.put_in(
            text::padded_right(loaded_text(loaded), width as nat),
            loaded_tint(loaded),
        ),
{
    match loaded {
        Loaded::No => page.put_in(&left("not loaded", width), Some(Tint::Yellow)),
        Loaded::Yes { last, .. } => {
            let padded = left(&last.text(), width);
            if last.is_clean() {
                page.put_in(&padded, None);
            } else {
                page.put_in(&padded, Some(Tint::Red));
            }
        },
    }
}

pub open spec fn service_row(p: PageView, row: ServiceRow) -> PageView {
    p.put("  "@).put(
        text::padded_right(words::fitted(row.installed.agent.label_text(), 43), 44),
    ).put_in(
        text::padded_right(loaded_text(row.installed.loaded), 12),
        loaded_tint(row.installed.loaded),
    ).line(schedule_text(row))
}

pub open spec fn service_rows(p: PageView, rows: Seq<ServiceRow>, n: int) -> PageView
    decreases n,
{
    if n <= 0 {
        p
    } else {
        service_row(service_rows(p, rows, n - 1), rows[n - 1])
    }
}

pub open spec fn service_status_page(rows: Seq<ServiceRow>) -> PageView {
    service_rows(
        render::ruled(
            PageView::empty().put(text::padded_right("agent"@, 46)).put(
                text::padded_right("state"@, 12),
            ).line("schedule"@),
        ),
        rows,
        rows.len() as int,
    )
}

/// `service status`: whether each agent is loaded, its last exit, and its schedule.
#[must_use]
pub fn service_status(rows: &[ServiceRow], colour: bool) -> (out: String)
    ensures
        out@ == service_status_page(rows@).shown(colour),
{
    let mut page = Page::new();
    // 12 rather than 10: "not yet run" is eleven characters and ran into the
    // schedule column, and "not loaded" filled it exactly with no gap.
    page.put(&left("agent", 46));
    page.put(&left("state", 12));
    page.line("schedule");
    rule(&mut page);
    let ghost start = page@;
    let mut i: usize = 0;
    while i < rows.len()
        invariant
            i <= rows@.len(),
            page@ == service_rows(start, rows@, i as int),
        decreases rows@.len() - i,
    {
        let row = &rows[i];
        page.put("  ");
        page.put(&left(&fit(&row.installed.agent.label(), 43), 44));
        agent_state(&mut page, row.installed.loaded, 12);
        page.line(&schedule_cell(row));
        i += 1;
    }
    page.show(colour)
}

/// Whether any agent ended badly or has drifted from the config.
pub open spec fn any_broken(rows: Seq<ServiceRow>) -> bool {
    exists|i: int| 0 <= i < rows.len() && (#[trigger] rows[i]).broken()
}

impl ServiceRow {
    /// A non-zero last exit is exactly the evidence that reveals a year of silent
    /// failure, and so is a schedule that is no longer the config's.
    pub open spec fn broken(self) -> bool {
        (self.installed.loaded matches Loaded::Yes { last, .. } && !last.clean()) || self.drifted()
    }

    pub fn is_broken(&self) -> (out: bool)
        ensures
            out == self.broken(),
    {
        let ended_badly = match self.installed.loaded {
            Loaded::No => false,
            Loaded::Yes { last, .. } => !last.is_clean(),
        };
        ended_badly || self.has_drifted()
    }
}

// ---------------------------------------------------------------------------
// Laws
// ---------------------------------------------------------------------------

/// An agent is broken exactly where its last run left a code or was killed, or where it was
/// installed for another schedule than the config's; one that is not loaded, or has not run, is not.
pub proof fn an_agent_is_broken_by_its_last_run_or_by_drift(row: ServiceRow)
    ensures
        row.broken() <==> (match row.installed.loaded {
            Loaded::No => false,
            Loaded::Yes { last, .. } => match last {
                crate::platform::launchd::Ended::Exit(code) => code != 0,
                crate::platform::launchd::Ended::Signal(_) => true,
                crate::platform::launchd::Ended::NeverRun => false,
            },
        }) || row.wanted is Some && row.matches == Some(false),
{
}

/// Red is for what failed and for nothing else, and what is fine is never yellow.
pub proof fn red_is_for_failures(verdict: Verdict, loaded: Loaded)
    ensures
        health_tint(verdict) == Tint::Red <==> verdict == Verdict::Fail,
        health_tint(verdict) == Tint::Yellow <==> verdict == Verdict::Warn,
        loaded_tint(loaded) == Some(Tint::Red) <==> (loaded matches Loaded::Yes { last, .. }
            && !last.clean()),
        loaded_tint(loaded) == Some(Tint::Yellow) <==> loaded is No,
{
}

/// Drift is shown beside the schedule that is installed: both it and the config's are named.
pub proof fn drift_names_both_schedules(row: ServiceRow, schedule: Schedule)
    requires
        row.installed.scheduled == Some(schedule),
    ensures
        words::said(schedule).is_prefix_of(schedule_text(row)),
        row.drifted() ==> text::contains_text(
            schedule_text(row),
            words::said_or(row.wanted->0, "none"@),
        ),
        !row.drifted() ==> schedule_text(row) == words::said(schedule),
{
    let said = words::said(schedule);
    let all = schedule_text(row);
    assert(said =~= all.subrange(0, said.len() as int));
    if row.drifted() {
        let other = words::said_or(row.wanted->0, "none"@);
        let n = (said.len() + " (config says "@.len()) as int;
        assert(all.subrange(n, n + other.len()) =~= other);
        assert(text::occurs_at(all, other, n));
    }
}

/// Every check of a section is printed: its name, its verdict and what it rests on.
pub proof fn every_check_is_printed(p: PageView, checks: Seq<CheckView>, n: int, i: int)
    requires
        0 <= i < n <= checks.len(),
    ensures
        p.inks.is_prefix_of(check_rows(p, checks, n).inks),
        restore::says(
            check_rows(p, checks, n),
            text::padded_right(words::clipped(checks[i].name, 21), 22),
        ),
        restore::says(
            check_rows(p, checks, n),
            text::padded_right(checks[i].verdict.word(), 8),
        ),
        restore::says(check_rows(p, checks, n), words::clipped(checks[i].evidence, 42)),
    decreases n,
{
    let before = check_rows(p, checks, n - 1);
    let after = check_rows(p, checks, n);
    let k = before.inks.len() as int;
    let name = text::padded_right(words::clipped(checks[i].name, 21), 22);
    let verdict = text::padded_right(checks[i].verdict.word(), 8);
    let evidence = words::clipped(checks[i].evidence, 42);
    if n > 1 {
        every_check_is_printed(
            p,
            checks,
            n - 1,
            if i < n - 1 {
                i
            } else {
                0
            },
        );
    } else {
        assert(before == p);
        assert(p.inks =~= p.inks.subrange(0, p.inks.len() as int));
    }
    assert(before.inks =~= after.inks.subrange(0, k));
    assert(p.inks =~= after.inks.subrange(0, p.inks.len() as int));
    if i < n - 1 {
        restore::lemma_says_on(before, after, name);
        restore::lemma_says_on(before, after, verdict);
        restore::lemma_says_on(before, after, evidence);
    } else {
        assert(after.inks[k + 1].text == name);
        assert(after.inks[k + 2].text == verdict);
        assert(after.inks[k + 3].text == evidence);
    }
}

} // verus!
