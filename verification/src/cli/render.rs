//! Rendering, to one column model.
//!
//! A fixed column spec per table shared by header, rule and rows; text left and
//! numbers right so digits line up on their ones place; rows indent two spaces and
//! section headers do not; a rule spans exactly the table's width.

pub mod health;
pub mod plain;
pub mod restore;
pub mod status;

pub use crate::cli::moments::{day, moment, upcoming};
pub use crate::cli::page::{decide_colour, paint};
pub use crate::cli::words::{clip, count, counted, fit, plural, say, until, WIDTH};
pub use crate::primitives::bytes::size;
pub use health::{doctor, service_installed, service_status};
pub use restore::{path_history, restored};
pub use status::{status, ProfileStatus, RemoteRow};

use crate::capture;
use crate::capture::Inspection;
use crate::cli::moments;
use crate::cli::page::{Page, PageView, Tint};
use crate::cli::words;
use crate::cli::words::abbreviate;
use crate::config::check;
use crate::config::check::{DiagView, Diagnostic, Severity};
use crate::plan;
use crate::plan::{ExcludeReason, HeadView, Plan, RepoHead, RootPlan, REPO_TABLE_ROWS};
use crate::primitives::bytes;
use crate::primitives::path;
use crate::store::{Backup, Completed, Summary};
use crate::text;
use crate::text::{cat2, cat3, decimal, left, repeat, right, same};
use vstd::prelude::*;

verus! {

pub open spec fn ruled(p: PageView) -> PageView {
    p.line(text::repeated('-', 74))
}

pub(crate) fn rule(page: &mut Page)
    ensures
        final(page)@ == ruled(old(page)@),
{
    page.line(&repeat('-', WIDTH));
}

// ---------------------------------------------------------------------------
// The dry run
// ---------------------------------------------------------------------------

pub open spec fn head_text(head: HeadView) -> Seq<char> {
    match head {
        HeadView::Branch { name, sha } => name + " "@ + sha.hex().take(7),
        HeadView::Detached { sha } => "detached "@ + sha.hex().take(7),
        HeadView::Unborn => "unborn"@,
    }
}

fn short(head: &RepoHead) -> (out: String)
    ensures
        out@ == head_text(head@),
{
    match head {
        RepoHead::Branch { name, sha } => cat3(name.as_str(), " ", &sha.short()),
        RepoHead::Detached { sha } => cat2("detached ", &sha.short()),
        RepoHead::Unborn => "unborn".to_owned(),
    }
}

/// A row of the first table: a root, how many files it holds and how large they are.
pub open spec fn root_row(p: PageView, root: RootPlan, home: Option<Seq<char>>) -> PageView {
    p.put("  "@).put(
        text::padded_right(
            text::padded_right(root.alias@, 14) + words::fitted(
                words::abbreviated(plan::shown(root.root@), home),
                29,
            ),
            43,
        ),
    ).put(text::padded_left(words::grouped(root.files as nat), 12)).line(
        text::padded_left(bytes::size_text(root.bytes as nat), 17),
    )
}

pub open spec fn root_rows(
    p: PageView,
    roots: Seq<RootPlan>,
    home: Option<Seq<char>>,
    n: int,
) -> PageView
    decreases n,
{
    if n <= 0 {
        p
    } else {
        root_row(root_rows(p, roots, home, n - 1), roots[n - 1], home)
    }
}

pub open spec fn roots_table(p: PageView, roots: Seq<RootPlan>, home: Option<Seq<char>>) -> PageView {
    root_rows(
        ruled(
            p.put(text::padded_right("roots"@, 45)).put(text::padded_left("files"@, 12)).line(
                text::padded_left("size"@, 17),
            ),
        ),
        roots,
        home,
        roots.len() as int,
    )
}

fn put_roots(page: &mut Page, plan: &Plan, home: Option<&str>)
    ensures
        final(page)@ == roots_table(old(page)@, plan.roots@, path::view_str_opt(home)),
{
    let ghost home_view = path::view_str_opt(home);
    page.put(&left("roots", 45));
    page.put(&right("files", 12));
    page.line(&right("size", 17));
    rule(page);
    let ghost start = page@;
    let mut i: usize = 0;
    while i < plan.roots.len()
        invariant
            i <= plan.roots@.len(),
            home_view == path::view_str_opt(home),
            page@ == root_rows(start, plan.roots@, home_view, i as int),
        decreases plan.roots@.len() - i,
    {
        let root = &plan.roots[i];
        page.put("  ");
        let mut cell = left(&root.alias, 14);
        cell.append(&fit(&abbreviate(&root.root.text(), home), 29));
        page.put(&left(&cell, 43));
        page.put(&right(&count(root.files), 12));
        page.line(&right(&size(root.bytes), 17));
        i += 1;
    }
}

pub open spec fn repo_row(p: PageView, repo: (String, Inspection)) -> PageView {
    p.put("  "@).put(text::padded_right(words::fitted(repo.0@, 39), 40)).put(
        text::padded_right(head_text(repo.1.head@), 18),
    ).line(capture::state_text(repo.1.modified as nat, repo.1.untracked as nat))
}

pub open spec fn repo_rows(p: PageView, repos: Seq<(String, Inspection)>, n: int) -> PageView
    decreases n,
{
    if n <= 0 {
        p
    } else {
        repo_row(repo_rows(p, repos, n - 1), repos[n - 1])
    }
}

/// How many rows a truncated table shows.
pub open spec fn shown_rows(len: nat) -> int {
    if len <= REPO_TABLE_ROWS {
        len as int
    } else {
        REPO_TABLE_ROWS as int
    }
}

/// The second table, truncated so that the count and the rows agree.
pub open spec fn repos_table(p: PageView, repos: Seq<(String, Inspection)>) -> PageView {
    let p = repo_rows(
        ruled(
            p.put("\n"@).put(text::padded_right("repositories"@, 42)).put(
                text::padded_right("head"@, 18),
            ).line("state"@),
        ),
        repos,
        shown_rows(repos.len()),
    );
    if repos.len() > REPO_TABLE_ROWS {
        p.put("  "@).put(text::padded_right(""@, 40)).put(text::padded_right(""@, 18)).put(
            "and "@,
        ).put(text::decimal_text((repos.len() - REPO_TABLE_ROWS) as nat)).line(" more"@)
    } else {
        p
    }
}

pub(crate) fn rows_of(len: usize) -> (out: usize)
    ensures
        out == shown_rows(len as nat),
        out <= len,
{
    if len <= REPO_TABLE_ROWS {
        len
    } else {
        REPO_TABLE_ROWS
    }
}

fn put_repos(page: &mut Page, repos: &[(String, Inspection)])
    ensures
        final(page)@ == repos_table(old(page)@, repos@),
{
    page.put("\n");
    page.put(&left("repositories", 42));
    page.put(&left("head", 18));
    page.line("state");
    rule(page);
    let ghost start = page@;
    let len: usize = repos.len();
    let rows: usize = rows_of(len);
    let mut i: usize = 0;
    while i < rows
        invariant
            i <= rows <= repos@.len(),
            page@ == repo_rows(start, repos@, i as int),
        decreases rows - i,
    {
        let (key, inspection) = &repos[i];
        page.put("  ");
        page.put(&left(&fit(key, 39), 40));
        page.put(&left(&short(&inspection.head), 18));
        page.line(&inspection.state());
        i += 1;
    }
    if len > REPO_TABLE_ROWS {
        page.put("  ");
        page.put(&left("", 40));
        page.put(&left("", 18));
        page.put("and ");
        page.put(&decimal((len - REPO_TABLE_ROWS) as u64));
        page.line(" more");
    }
}

/// Whether a reason for exclusion is coloured.
pub open spec fn reason_tint(reason: ExcludeReason) -> Option<Tint> {
    if reason == ExcludeReason::MatchedNothing {
        Some(Tint::Yellow)
    } else {
        None
    }
}

/// A rule's reason for exclusion, coloured only for `matched nothing` - the row
/// that earns `--dry-run`, because a typo'd ignore path is
/// otherwise a silent no-op that commits gigabytes into permanent history.
pub fn reason_label(page: &mut Page, reason: ExcludeReason)
    ensures
        final(page)@ == old(page)@.put_in(reason.words(), reason_tint(reason)),
{
    let label = reason.label();
    if reason == ExcludeReason::MatchedNothing {
        page.put_in(label, Some(Tint::Yellow));
    } else {
        page.put_in(label, None);
    }
}

pub open spec fn excluded_row(
    p: PageView,
    row: (String, ExcludeReason),
    home: Option<Seq<char>>,
) -> PageView {
    p.put("  "@).put(
        text::padded_right(words::fitted(words::abbreviated(row.0@, home), 47), 48),
    ).put_in(row.1.words(), reason_tint(row.1)).put("\n"@)
}

pub open spec fn excluded_rows(
    p: PageView,
    rows: Seq<(String, ExcludeReason)>,
    home: Option<Seq<char>>,
    n: int,
) -> PageView
    decreases n,
{
    if n <= 0 {
        p
    } else {
        excluded_row(excluded_rows(p, rows, home, n - 1), rows[n - 1], home)
    }
}

/// The third table: what the rules threw away.
pub open spec fn excluded_table(
    p: PageView,
    rows: Seq<(String, ExcludeReason)>,
    home: Option<Seq<char>>,
) -> PageView {
    excluded_rows(
        ruled(p.put("\n"@).put(text::padded_right("excluded"@, 50)).line("reason"@)),
        rows,
        home,
        rows.len() as int,
    )
}

fn put_excluded(page: &mut Page, plan: &Plan, home: Option<&str>)
    ensures
        final(page)@ == excluded_table(old(page)@, plan.excluded@, path::view_str_opt(home)),
{
    let ghost home_view = path::view_str_opt(home);
    page.put("\n");
    page.put(&left("excluded", 50));
    page.line("reason");
    rule(page);
    let ghost start = page@;
    let mut i: usize = 0;
    while i < plan.excluded.len()
        invariant
            i <= plan.excluded@.len(),
            home_view == path::view_str_opt(home),
            page@ == excluded_rows(start, plan.excluded@, home_view, i as int),
        decreases plan.excluded@.len() - i,
    {
        let (rule_text, reason) = &plan.excluded[i];
        page.put("  ");
        page.put(&left(&fit(&abbreviate(rule_text, home), 47), 48));
        reason_label(page, *reason);
        page.put("\n");
        i += 1;
    }
}

/// The size of every repository's objects together.
pub open spec fn total_objects(repos: Seq<(String, Inspection)>) -> nat
    decreases repos.len(),
{
    if repos.len() == 0 {
        0
    } else {
        total_objects(repos.drop_last()) + repos.last().1.objects as nat
    }
}

proof fn lemma_objects_grow(repos: Seq<(String, Inspection)>, n: int)
    requires
        0 <= n <= repos.len(),
    ensures
        total_objects(repos.take(n)) <= total_objects(repos),
    decreases repos.len() - n,
{
    if n < repos.len() {
        lemma_objects_grow(repos, n + 1);
        assert(repos.take(n + 1).drop_last() =~= repos.take(n));
    } else {
        assert(repos.take(n) =~= repos);
    }
}

fn sum_objects(repos: &[(String, Inspection)]) -> (out: u64)
    requires
        total_objects(repos@) <= u64::MAX,
    ensures
        out == total_objects(repos@),
{
    let mut total: u64 = 0;
    let mut i: usize = 0;
    while i < repos.len()
        invariant
            i <= repos@.len(),
            total_objects(repos@) <= u64::MAX,
            total == total_objects(repos@.take(i as int)),
        decreases repos@.len() - i,
    {
        proof {
            assert(repos@.take(i + 1).drop_last() =~= repos@.take(i as int));
            lemma_objects_grow(repos@, i + 1);
        }
        total = total + repos[i].1.objects;
        i += 1;
    }
    assert(repos@.take(i as int) =~= repos@);
    total
}

/// A line of a summary: a label, what it counts, and a size.
pub open spec fn total_row(p: PageView, label: Seq<char>, what: Seq<char>, size: Seq<char>) -> PageView {
    p.put("  "@).put(text::padded_right(label, 13)).put(text::padded_right(what, 40)).line(
        text::padded_left(size, 19),
    )
}

fn put_total(page: &mut Page, label: &str, what: &str, size: &str)
    ensures
        final(page)@ == total_row(old(page)@, label@, what@, size@),
{
    page.put("  ");
    page.put(&left(label, 13));
    page.put(&left(what, 40));
    page.line(&right(size, 19));
}

pub open spec fn dry_run_page(
    plan: Plan,
    repos: Seq<(String, Inspection)>,
    quick: bool,
    home: Option<Seq<char>>,
) -> PageView {
    let p = roots_table(PageView::empty(), plan.roots@, home);
    let p = if quick {
        p
    } else {
        repos_table(p, repos)
    };
    let p = ruled(excluded_table(p, plan.excluded@, home).put("\n"@));
    let p = total_row(
        p,
        "to read"@,
        words::grouped(plan::total_files(plan.roots@)) + " files"@,
        bytes::size_text(plan::total_bytes(plan.roots@)),
    );
    if quick {
        p
    } else {
        total_row(
            p,
            ""@,
            words::grouped(plan::total_repos(plan.roots@)) + " repositories"@,
            bytes::size_text(total_objects(repos)),
        )
    }
}

/// Three tables, because the three questions are separate:
/// how much is coming, what repositories were found and in what state, and what the
/// rules threw away.
#[must_use]
pub fn dry_run(
    plan: &Plan,
    repos: &[(String, Inspection)],
    quick: bool,
    home: Option<&str>,
    colour: bool,
) -> (out: String)
    requires
        plan::total_files(plan.roots@) <= usize::MAX,
        plan::total_bytes(plan.roots@) <= u64::MAX,
        plan::total_repos(plan.roots@) <= usize::MAX,
        total_objects(repos@) <= u64::MAX,
    ensures
        out@ == dry_run_page(*plan, repos@, quick, path::view_str_opt(home)).shown(colour),
{
    let mut page = Page::new();
    put_roots(&mut page, plan, home);
    if !quick {
        put_repos(&mut page, repos);
    }
    put_excluded(&mut page, plan, home);

    page.put("\n");
    rule(&mut page);
    let objects: u64 = sum_objects(repos);
    put_total(
        &mut page,
        "to read",
        &cat2(&count(plan.files()), " files"),
        &size(plan.bytes()),
    );
    if !quick {
        put_total(
            &mut page,
            "",
            &cat2(&count(plan.repo_count()), " repositories"),
            &size(objects),
        );
    }
    page.show(colour)
}

// ---------------------------------------------------------------------------
// The config's findings
// ---------------------------------------------------------------------------

pub open spec fn severity_page(p: PageView, severity: Severity) -> PageView {
    match severity {
        Severity::Error => p.ink(text::padded_right("error"@, 7), Tint::Red),
        Severity::Warning => p.ink(text::padded_right("warn"@, 7), Tint::Yellow),
    }
}

/// `error`/`warn`, padded to its column and then coloured: an escape sequence has width in bytes
/// and none on screen.
pub fn severity_label(page: &mut Page, severity: Severity)
    ensures
        final(page)@ == severity_page(old(page)@, severity),
{
    match severity {
        Severity::Error => page.ink(&left("error", 7), Tint::Red),
        Severity::Warning => page.ink(&left("warn", 7), Tint::Yellow),
    }
}

/// How many of the findings are errors.
pub open spec fn errors_in(diagnostics: Seq<DiagView>) -> nat
    decreases diagnostics.len(),
{
    if diagnostics.len() == 0 {
        0
    } else {
        errors_in(diagnostics.drop_last()) + if diagnostics.last().severity == Severity::Error {
            1nat
        } else {
            0nat
        }
    }
}

pub fn count_errors(diagnostics: &[Diagnostic]) -> (out: usize)
    ensures
        out == errors_in(check::diag_views(diagnostics@)),
        out <= diagnostics@.len(),
{
    let ghost all = check::diag_views(diagnostics@);
    let mut total: usize = 0;
    let mut i: usize = 0;
    while i < diagnostics.len()
        invariant
            i <= diagnostics@.len(),
            all == check::diag_views(diagnostics@),
            total <= i,
            total == errors_in(all.take(i as int)),
        decreases diagnostics@.len() - i,
    {
        proof {
            let more = all.take(i + 1);
            assert(more.drop_last() =~= all.take(i as int));
            assert(more.last() == diagnostics@[i as int]@);
        }
        if diagnostics[i].severity == Severity::Error {
            total += 1;
        }
        i += 1;
    }
    assert(all.take(i as int) =~= all);
    total
}

/// A finding, under the name of its profile where the one before it was about another.
pub open spec fn finding_page(p: PageView, diagnostics: Seq<DiagView>, i: int) -> PageView {
    let d = diagnostics[i];
    let p = if i == 0 || diagnostics[i - 1].profile != d.profile {
        match d.profile {
            Some(name) => p.put("\n"@).line(name),
            None => p.put("\n"@),
        }
    } else {
        p
    };
    let p = severity_page(p.put("  "@), d.severity).put(" "@).line(d.kind.message());
    match d.kind.hint() {
        Some(hint) => p.put("          "@).ink(hint, Tint::Dim).put("\n"@),
        None => p,
    }
}

pub open spec fn findings_page(p: PageView, diagnostics: Seq<DiagView>, n: int) -> PageView
    decreases n,
{
    if n <= 0 {
        p
    } else {
        finding_page(findings_page(p, diagnostics, n - 1), diagnostics, n - 1)
    }
}

pub open spec fn summary_lines(p: PageView, summaries: Seq<Seq<char>>, n: int) -> PageView
    decreases n,
{
    if n <= 0 {
        p
    } else {
        summary_lines(p, summaries, n - 1).line(summaries[n - 1])
    }
}

/// `s` behind any number but one.
pub open spec fn ending(n: nat) -> Seq<char> {
    if n == 1 {
        ""@
    } else {
        "s"@
    }
}

pub(crate) fn plural_ending(n: usize) -> (out: &'static str)
    ensures
        out@ == ending(n as nat),
{
    if n == 1 {
        ""
    } else {
        "s"
    }
}

pub open spec fn config_check_page(summaries: Seq<Seq<char>>, diagnostics: Seq<DiagView>) -> PageView {
    let p = summary_lines(PageView::empty(), summaries, summaries.len() as int);
    if diagnostics.len() == 0 {
        p.line("\nok, no errors"@)
    } else {
        let errors = errors_in(diagnostics);
        let warnings = (diagnostics.len() - errors) as nat;
        findings_page(p, diagnostics, diagnostics.len() as int).put("\n"@).put(
            text::decimal_text(errors),
        ).put(" error"@).put(ending(errors)).put(", "@).put(text::decimal_text(warnings)).put(
            " warning"@,
        ).line(ending(warnings))
    }
}

fn same_name(a: &Option<String>, b: &Option<String>) -> (out: bool)
    ensures
        out == (text::view_opt(*a) == text::view_opt(*b)),
{
    match (a, b) {
        (Some(a), Some(b)) => same(a, b),
        (None, None) => true,
        _ => false,
    }
}

/// `config check`'s echo, and its findings. Reading your own config back in
/// summarised form is how a remote attached to the wrong profile becomes visible.
#[must_use]
pub fn config_check(summaries: &[String], diagnostics: &[Diagnostic], colour: bool) -> (out: String)
    ensures
        out@ == config_check_page(
            text::views(summaries@),
            check::diag_views(diagnostics@),
        ).shown(colour),
{
    let ghost echoed = text::views(summaries@);
    let ghost found = check::diag_views(diagnostics@);
    let mut page = Page::new();
    let mut i: usize = 0;
    while i < summaries.len()
        invariant
            i <= summaries@.len(),
            echoed == text::views(summaries@),
            page@ == summary_lines(PageView::empty(), echoed, i as int),
        decreases summaries@.len() - i,
    {
        assert(echoed[i as int] == summaries@[i as int]@);
        page.line(&summaries[i]);
        i += 1;
    }

    let errors: usize = count_errors(diagnostics);
    let len: usize = diagnostics.len();
    let warnings: usize = len - errors;

    if len == 0 {
        page.line("\nok, no errors");
        return page.show(colour);
    }
    let ghost start = page@;
    let mut i: usize = 0;
    while i < diagnostics.len()
        invariant
            i <= diagnostics@.len(),
            found == check::diag_views(diagnostics@),
            page@ == findings_page(start, found, i as int),
        decreases diagnostics@.len() - i,
    {
        assert(found[i as int] == diagnostics@[i as int]@);
        let diagnostic = &diagnostics[i];
        let fresh = if i == 0 {
            true
        } else {
            assert(found[i - 1] == diagnostics@[i - 1]@);
            !same_name(&diagnostics[i - 1].profile, &diagnostic.profile)
        };
        if fresh {
            page.put("\n");
            if let Some(name) = &diagnostic.profile {
                page.line(name);
            }
        }
        page.put("  ");
        severity_label(&mut page, diagnostic.severity);
        page.put(" ");
        page.line(&diagnostic.kind.text());
        if let Some(hint) = diagnostic.hint() {
            page.put("          ");
            page.ink(&hint, Tint::Dim);
            page.put("\n");
        }
        i += 1;
    }

    page.put("\n");
    page.put(&decimal(errors as u64));
    page.put(" error");
    page.put(plural_ending(errors));
    page.put(", ");
    page.put(&decimal(warnings as u64));
    page.put(" warning");
    page.line(plural_ending(warnings));
    page.show(colour)
}

// ---------------------------------------------------------------------------
// Runs
// ---------------------------------------------------------------------------

pub open spec fn cell_tint(empty: bool) -> Option<Tint> {
    if empty {
        Some(Tint::Green)
    } else {
        None
    }
}

/// What a run changed, padded to `width` and then
/// painted green when `empty` - `no changes` is the one branch of that text with no
/// digits for the padding trap to catch.
pub fn counted_cell(page: &mut Page, text: &str, empty: bool, width: usize)
    ensures
        final(page)@ == old(page)@.put_in(
            text::padded_right(text@, width as nat),
            cell_tint(empty),
        ),
{
    let padded = left(text, width);
    if empty {
        page.put_in(&padded, Some(Tint::Green));
    } else {
        page.put_in(&padded, None);
    }
}

pub open spec fn run_result_page(profile: Seq<char>, done: Completed) -> PageView {
    let p = PageView::empty().put(profile).put("  "@).line(done.commit.hex().take(7));
    let p = p.put("  "@).put(text::padded_right("captured"@, 13)).put_in(
        text::padded_right(words::counted_text(done.summary), 40),
        cell_tint(done.summary.quiet()),
    ).line(text::padded_left(bytes::size_text(done.summary.tracked_bytes as nat), 19));
    total_row(
        p,
        "written"@,
        "in "@ + text::decimal_text(done.summary.seconds as nat) + "s"@,
        bytes::size_text(done.summary.written_bytes as nat),
    )
}

/// What a completed run says for itself.
#[must_use]
pub fn run_result(profile: &str, done: &Completed, colour: bool) -> (out: String)
    ensures
        out@ == run_result_page(profile@, *done).shown(colour),
{
    let summary = &done.summary;
    let mut page = Page::new();
    page.put(profile);
    page.put("  ");
    page.line(&done.commit.short());
    page.put("  ");
    page.put(&left("captured", 13));
    counted_cell(&mut page, &counted(summary), summary.is_empty(), 40);
    page.line(&right(&size(summary.tracked_bytes), 19));
    put_total(
        &mut page,
        "written",
        &cat3("in ", &decimal(summary.seconds), "s"),
        &size(summary.written_bytes),
    );
    page.show(colour)
}

// ---------------------------------------------------------------------------
// History
// ---------------------------------------------------------------------------

pub open spec fn backup_line(summary: Option<Summary>) -> Seq<char> {
    match summary {
        Some(summary) => words::counted_text(summary),
        None => "not written by tycho"@,
    }
}

pub open spec fn backup_bytes(summary: Option<Summary>) -> nat {
    match summary {
        Some(summary) => summary.written_bytes as nat,
        None => 0,
    }
}

pub open spec fn history_row(p: PageView, backup: Backup, moment: Seq<char>) -> PageView {
    p.put("  "@).put(text::padded_right(moment, 18)).put(
        text::padded_right(backup.commit.hex().take(7), 10),
    ).put_in(
        text::padded_right(words::fitted(backup_line(backup.summary), 33), 34),
        cell_tint(
            match backup.summary {
                Some(summary) => summary.quiet(),
                None => false,
            },
        ),
    ).line(
        text::padded_left(
            match backup.summary {
                Some(summary) => bytes::size_text(summary.written_bytes as nat),
                None => "-"@,
            },
            10,
        ),
    )
}

pub open spec fn history_rows(
    p: PageView,
    backups: Seq<Backup>,
    moments: Seq<Seq<char>>,
    n: int,
) -> PageView
    decreases n,
{
    if n <= 0 {
        p
    } else {
        history_row(history_rows(p, backups, moments, n - 1), backups[n - 1], moments[n - 1])
    }
}

/// What every backup wrote, together.
pub open spec fn total_written(backups: Seq<Backup>) -> nat
    decreases backups.len(),
{
    if backups.len() == 0 {
        0
    } else {
        total_written(backups.drop_last()) + backup_bytes(backups.last().summary)
    }
}

proof fn lemma_written_grows(backups: Seq<Backup>, n: int)
    requires
        0 <= n <= backups.len(),
    ensures
        total_written(backups.take(n)) <= total_written(backups),
    decreases backups.len() - n,
{
    if n < backups.len() {
        lemma_written_grows(backups, n + 1);
        assert(backups.take(n + 1).drop_last() =~= backups.take(n));
    } else {
        assert(backups.take(n) =~= backups);
    }
}

pub open spec fn history_page(backups: Seq<Backup>, moments: Seq<Seq<char>>) -> PageView {
    let p = ruled(
        PageView::empty().put(text::padded_right("when"@, 20)).put(
            text::padded_right("commit"@, 10),
        ).put(text::padded_right("summary"@, 34)).line(text::padded_left("written"@, 10)),
    );
    ruled(history_rows(p, backups, moments, backups.len() as int)).put("  "@).put(
        text::padded_right(""@, 18),
    ).put(text::padded_right(""@, 10)).put(
        text::padded_right(words::grouped(backups.len()) + " backups"@, 34),
    ).line(text::padded_left(bytes::size_text(total_written(backups)), 10))
}

/// Each backup's moment as some clock shows it.
pub open spec fn backup_moments(backups: Seq<Backup>, moments: Seq<Seq<char>>) -> bool {
    &&& moments.len() == backups.len()
    &&& forall|i: int|
        0 <= i < backups.len() ==> moments::reads_as(backups[i].when@, #[trigger] moments[i])
}

/// [`history`], of what each backup's moment reads as.
#[must_use]
pub fn history_at(backups: &[Backup], moments: &[String], colour: bool) -> (out: String)
    requires
        moments@.len() == backups@.len(),
        total_written(backups@) <= u64::MAX,
    ensures
        out@ == history_page(backups@, text::views(moments@)).shown(colour),
{
    let ghost named = text::views(moments@);
    let mut page = Page::new();
    page.put(&left("when", 20));
    page.put(&left("commit", 10));
    page.put(&left("summary", 34));
    page.line(&right("written", 10));
    rule(&mut page);

    let ghost start = page@;
    let mut total: u64 = 0;
    let mut i: usize = 0;
    while i < backups.len()
        invariant
            i <= backups@.len(),
            moments@.len() == backups@.len(),
            named == text::views(moments@),
            total_written(backups@) <= u64::MAX,
            total == total_written(backups@.take(i as int)),
            page@ == history_rows(start, backups@, named, i as int),
        decreases backups@.len() - i,
    {
        proof {
            assert(backups@.take(i + 1).drop_last() =~= backups@.take(i as int));
            lemma_written_grows(backups@, i + 1);
            assert(named[i as int] == moments@[i as int]@);
        }
        let backup = &backups[i];
        page.put("  ");
        page.put(&left(&moments[i], 18));
        page.put(&left(&backup.commit.short(), 10));
        match &backup.summary {
            Some(summary) => {
                total = total + summary.written_bytes;
                counted_cell(&mut page, &fit(&counted(summary), 33), summary.is_empty(), 34);
                page.line(&right(&size(summary.written_bytes), 10));
            },
            None => {
                counted_cell(&mut page, &fit("not written by tycho", 33), false, 34);
                page.line(&right("-", 10));
            },
        }
        i += 1;
    }
    assert(backups@.take(i as int) =~= backups@);

    rule(&mut page);
    page.put("  ");
    page.put(&left("", 18));
    page.put(&left("", 10));
    page.put(&left(&cat2(&count(backups.len()), " backups"), 34));
    page.line(&right(&size(total), 10));
    page.show(colour)
}

/// `written` is read back out of each commit's own message, so
/// this renders from a bare clone with no state file - which is the disaster path.
#[must_use]
pub fn history(backups: &[Backup], colour: bool) -> (out: String)
    requires
        total_written(backups@) <= u64::MAX,
    ensures
        exists|moments: Seq<Seq<char>>| #[trigger]
            backup_moments(backups@, moments) && out@ == history_page(backups@, moments).shown(
                colour,
            ),
{
    let mut moments: Vec<String> = Vec::new();
    let mut i: usize = 0;
    while i < backups.len()
        invariant
            i <= backups@.len(),
            moments@.len() == i,
            forall|k: int|
                0 <= k < i ==> moments::reads_as(backups@[k].when@, (#[trigger] moments@[k])@),
        decreases backups@.len() - i,
    {
        moments.push(moment(&backups[i].when));
        i += 1;
    }
    assert(backup_moments(backups@, text::views(moments@)));
    history_at(backups, &moments, colour)
}

// ---------------------------------------------------------------------------
// Laws
// ---------------------------------------------------------------------------

/// The errors of a check are counted by their severity, and the rest are warnings.
pub proof fn errors_are_counted_by_severity(diagnostics: Seq<DiagView>)
    ensures
        errors_in(diagnostics) == diagnostics.filter(
            |d: DiagView| d.severity == Severity::Error,
        ).len(),
        errors_in(diagnostics) <= diagnostics.len(),
    decreases diagnostics.len(),
{
    reveal(Seq::filter);
    if diagnostics.len() > 0 {
        errors_are_counted_by_severity(diagnostics.drop_last());
    }
}

/// A total is the sum of what it is made of: of two lists that of each, and of one thing its own.
pub proof fn totals_add_up(
    a: Seq<(String, Inspection)>,
    b: Seq<(String, Inspection)>,
    one: (String, Inspection),
)
    ensures
        total_objects(a + b) == total_objects(a) + total_objects(b),
        total_objects(seq![one]) == one.1.objects,
    decreases b.len(),
{
    assert(seq![one].drop_last() =~= Seq::<(String, Inspection)>::empty());
    assert(total_objects(seq![one].drop_last()) == 0);
    if b.len() == 0 {
        assert(a + b =~= a);
    } else {
        totals_add_up(a, b.drop_last(), one);
        assert((a + b).drop_last() =~= a + b.drop_last());
    }
}

/// What some backups wrote is what each wrote together; one that Tycho did not write counts for
/// nothing.
pub proof fn what_was_written_adds_up(a: Seq<Backup>, b: Seq<Backup>, one: Backup)
    ensures
        total_written(a + b) == total_written(a) + total_written(b),
        total_written(seq![one]) == match one.summary {
            Some(summary) => summary.written_bytes as nat,
            None => 0,
        },
    decreases b.len(),
{
    assert(seq![one].drop_last() =~= Seq::<Backup>::empty());
    assert(total_written(seq![one].drop_last()) == 0);
    if b.len() == 0 {
        assert(a + b =~= a);
    } else {
        what_was_written_adds_up(a, b.drop_last(), one);
        assert((a + b).drop_last() =~= a + b.drop_last());
    }
}

proof fn lemma_finding_follows(p: PageView, diagnostics: Seq<DiagView>, i: int)
    requires
        0 <= i < diagnostics.len(),
    ensures
        p.inks.is_prefix_of(finding_page(p, diagnostics, i).inks),
        restore::says(finding_page(p, diagnostics, i), diagnostics[i].kind.message()),
{
    let d = diagnostics[i];
    let head = if i == 0 || diagnostics[i - 1].profile != d.profile {
        match d.profile {
            Some(name) => p.put("\n"@).line(name),
            None => p.put("\n"@),
        }
    } else {
        p
    };
    let named = severity_page(head.put("  "@), d.severity).put(" "@);
    let after = finding_page(p, diagnostics, i);
    let k = named.inks.len() as int;
    assert(after.inks[k].text == d.kind.message());
    assert(p.inks =~= after.inks.subrange(0, p.inks.len() as int));
}

/// Every finding of a check is printed, by its message.
pub proof fn every_finding_is_printed(p: PageView, diagnostics: Seq<DiagView>, n: int, i: int)
    requires
        0 <= i < n <= diagnostics.len(),
    ensures
        p.inks.is_prefix_of(findings_page(p, diagnostics, n).inks),
        restore::says(findings_page(p, diagnostics, n), diagnostics[i].kind.message()),
    decreases n,
{
    let before = findings_page(p, diagnostics, n - 1);
    let after = findings_page(p, diagnostics, n);
    lemma_finding_follows(before, diagnostics, n - 1);
    if n > 1 {
        every_finding_is_printed(
            p,
            diagnostics,
            n - 1,
            if i < n - 1 {
                i
            } else {
                0
            },
        );
    } else {
        assert(before == p);
        assert(p.inks =~= p.inks.subrange(0, p.inks.len() as int));
    }
    assert(p.inks =~= after.inks.subrange(0, p.inks.len() as int));
    if i < n - 1 {
        restore::lemma_says_on(before, after, diagnostics[i].kind.message());
    }
}

/// Every rule that threw something away, or matched nothing, is printed with its reason.
pub proof fn every_exclusion_is_printed(
    p: PageView,
    rows: Seq<(String, ExcludeReason)>,
    home: Option<Seq<char>>,
    n: int,
    i: int,
)
    requires
        0 <= i < n <= rows.len(),
    ensures
        p.inks.is_prefix_of(excluded_rows(p, rows, home, n).inks),
        restore::says(
            excluded_rows(p, rows, home, n),
            text::padded_right(words::fitted(words::abbreviated(rows[i].0@, home), 47), 48),
        ),
        restore::says(excluded_rows(p, rows, home, n), rows[i].1.words()),
    decreases n,
{
    let before = excluded_rows(p, rows, home, n - 1);
    let after = excluded_rows(p, rows, home, n);
    let k = before.inks.len() as int;
    let shown = text::padded_right(
        words::fitted(words::abbreviated(rows[i].0@, home), 47),
        48,
    );
    if n > 1 {
        every_exclusion_is_printed(
            p,
            rows,
            home,
            n - 1,
            if i < n - 1 {
                i
            } else {
                0
            },
        );
    } else {
        assert(before == p);
        assert(p.inks =~= p.inks.subrange(0, p.inks.len() as int));
    }
    assert(before.inks =~= after.inks.subrange(0, k));
    assert(p.inks =~= after.inks.subrange(0, p.inks.len() as int));
    if i < n - 1 {
        restore::lemma_says_on(before, after, shown);
        restore::lemma_says_on(before, after, rows[i].1.words());
    } else {
        assert(after.inks[k + 1].text == shown);
        assert(after.inks[k + 2].text == rows[i].1.words());
    }
}

} // verus!
