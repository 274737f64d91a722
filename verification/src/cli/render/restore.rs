//! What a restore says, and one path's history.

use crate::cli::moments;
use crate::cli::moments::moment;
use crate::cli::page::{Page, PageView, Tint};
use crate::cli::render;
use crate::cli::render::{rows_of, rule};
use crate::cli::words;
use crate::cli::words::{abbreviate, clip, count, fit, plural, WIDTH};
use crate::metadata::replay::Applied;
use crate::plan::REPO_TABLE_ROWS;
use crate::primitives::bytes;
use crate::primitives::bytes::size;
use crate::primitives::path;
use crate::restore::{Commit, Conflict, Done, Rebuilt};
use crate::text;
use crate::text::{cat2, cat4, decimal, left, right};
use vstd::prelude::*;

verus! {

// ---------------------------------------------------------------------------
// What was read
// ---------------------------------------------------------------------------

pub open spec fn resolved_rows(p: PageView, resolved: Seq<(String, String)>, n: int) -> PageView
    decreases n,
{
    if n <= 0 {
        p
    } else {
        resolved_rows(p, resolved, n - 1).put("resolved  "@).put(
            text::padded_right(words::fitted(resolved[n - 1].0@, 27), 28),
        ).line(resolved[n - 1].1@)
    }
}

pub open spec fn read_page(done: Done) -> PageView {
    let p = match done.commit {
        Some(commit) => PageView::empty().put("using     "@).line(commit.hex().take(7)),
        None => PageView::empty(),
    };
    resolved_rows(p, done.resolved@, done.resolved@.len() as int)
}

fn put_read(page: &mut Page, done: &Done)
    requires
        old(page)@ == PageView::empty(),
    ensures
        final(page)@ == read_page(*done),
{
    if let Some(commit) = &done.commit {
        page.put("using     ");
        page.line(&commit.short());
    }
    let ghost start = page@;
    let mut i: usize = 0;
    while i < done.resolved.len()
        invariant
            i <= done.resolved@.len(),
            page@ == resolved_rows(start, done.resolved@, i as int),
        decreases done.resolved@.len() - i,
    {
        let (path, source) = &done.resolved[i];
        page.put("resolved  ");
        page.put(&left(&fit(path, 27), 28));
        page.line(source);
        i += 1;
    }
}

// ---------------------------------------------------------------------------
// What is short of the backup
// ---------------------------------------------------------------------------

/// A truncated list's last line.
pub open spec fn more_page(p: PageView, len: nat) -> PageView {
    if len > REPO_TABLE_ROWS {
        p.put("          and "@).put(text::decimal_text((len - REPO_TABLE_ROWS) as nat)).line(
            " more"@,
        )
    } else {
        p
    }
}

fn put_more(page: &mut Page, len: usize)
    ensures
        final(page)@ == more_page(old(page)@, len as nat),
{
    if len > REPO_TABLE_ROWS {
        page.put("          and ");
        page.put(&decimal((len - REPO_TABLE_ROWS) as u64));
        page.line(" more");
    }
}

pub open spec fn missing_rows(p: PageView, missing: Seq<String>, n: int) -> PageView
    decreases n,
{
    if n <= 0 {
        p
    } else {
        missing_rows(p, missing, n - 1).put("          "@).line(
            words::fitted(missing[n - 1]@, 46),
        )
    }
}

/// A restore that is short of its backup says which paths, because the count alone
/// reads as a complete restore of a smaller backup.
pub open spec fn missing_page(p: PageView, missing: Seq<String>) -> PageView {
    if missing.len() > 0 {
        more_page(
            missing_rows(
                p.ink("missing"@, Tint::Red).put("   "@).put(
                    words::plural_text(missing.len(), "path"@),
                ).line(" the extraction could not write"@),
                missing,
                render::shown_rows(missing.len()),
            ),
            missing.len(),
        )
    } else {
        p
    }
}

fn put_missing(page: &mut Page, missing: &[String])
    ensures
        final(page)@ == missing_page(old(page)@, missing@),
{
    let len: usize = missing.len();
    if len > 0 {
        page.ink("missing", Tint::Red);
        page.put("   ");
        page.put(&plural(len, "path"));
        page.line(" the extraction could not write");
        let ghost start = page@;
        let rows: usize = rows_of(len);
        let mut i: usize = 0;
        while i < rows
            invariant
                i <= rows <= missing@.len(),
                page@ == missing_rows(start, missing@, i as int),
            decreases rows - i,
        {
            page.put("          ");
            page.line(&fit(&missing[i], 46));
            i += 1;
        }
        put_more(page, len);
    }
}

// ---------------------------------------------------------------------------
// Metadata
// ---------------------------------------------------------------------------

pub open spec fn failure_rows(p: PageView, failed: Seq<String>, n: int) -> PageView
    decreases n,
{
    if n <= 0 {
        p
    } else {
        failure_rows(p, failed, n - 1).put("          "@).line(words::clipped(failed[n - 1]@, 46))
    }
}

/// Reported rather than assumed: a mode that was not put back leaves a file more
/// readable than it was captured, and nothing else on screen would say so.
pub open spec fn metadata_page(p: PageView, meta: Applied) -> PageView {
    let p = p.put("metadata  "@).put(words::plural_text(meta.modes as nat, "mode"@)).put(
        " restored, "@,
    ).line(words::plural_text(meta.xattrs as nat, "attribute"@));
    let p = if meta.owner_refused@.len() > 0 {
        p.put("          "@).ink(
            words::plural_text(meta.owner_refused@.len(), "path"@)
                + " kept their original owner only for root; these are yours now"@,
            Tint::Dim,
        ).put("\n"@)
    } else {
        p
    };
    failure_rows(p, meta.failed@, render::shown_rows(meta.failed@.len()))
}

fn put_metadata(page: &mut Page, meta: &Applied)
    ensures
        final(page)@ == metadata_page(old(page)@, *meta),
{
    page.put("metadata  ");
    page.put(&plural(meta.modes, "mode"));
    page.put(" restored, ");
    page.line(&plural(meta.xattrs, "attribute"));
    let refused: usize = meta.owner_refused.len();
    if refused > 0 {
        page.put("          ");
        page.ink(
            &cat2(
                &plural(refused, "path"),
                " kept their original owner only for root; these are yours now",
            ),
            Tint::Dim,
        );
        page.put("\n");
    }
    let ghost start = page@;
    let rows: usize = rows_of(meta.failed.len());
    let mut i: usize = 0;
    while i < rows
        invariant
            i <= rows <= meta.failed@.len(),
            page@ == failure_rows(start, meta.failed@, i as int),
        decreases rows - i,
    {
        page.put("          ");
        page.line(&clip(&meta.failed[i], 46));
        i += 1;
    }
}

// ---------------------------------------------------------------------------
// Repositories
// ---------------------------------------------------------------------------

pub open spec fn overlay_text(overlay: nat, stashes: nat) -> Seq<char> {
    if overlay == 0 && stashes == 0 {
        "overlay: clean"@
    } else if stashes == 0 {
        "overlay: "@ + words::grouped(overlay)
    } else if overlay == 0 {
        words::grouped(stashes) + " stashed"@
    } else {
        "overlay: "@ + words::grouped(overlay) + ", "@ + (words::grouped(stashes) + " stashed"@)
    }
}

fn overlay_note(repo: &Rebuilt) -> (out: String)
    ensures
        out@ == overlay_text(repo.overlay as nat, repo.stashes as nat),
{
    if repo.overlay == 0 && repo.stashes == 0 {
        "overlay: clean".to_owned()
    } else if repo.stashes == 0 {
        cat2("overlay: ", &count(repo.overlay))
    } else if repo.overlay == 0 {
        cat2(&count(repo.stashes), " stashed")
    } else {
        cat4(
            "overlay: ",
            &count(repo.overlay),
            ", ",
            &cat2(&count(repo.stashes), " stashed"),
        )
    }
}

pub open spec fn rebuilt_row(p: PageView, repo: Rebuilt) -> PageView {
    p.put("          "@).put(text::padded_right(words::fitted(repo.key@, 33), 34)).put(
        text::padded_right(
            match repo.head {
                Some(head) => head@,
                None => "no commits"@,
            },
            12,
        ),
    ).line(overlay_text(repo.overlay as nat, repo.stashes as nat))
}

pub open spec fn rebuilt_rows(p: PageView, repos: Seq<Rebuilt>, n: int) -> PageView
    decreases n,
{
    if n <= 0 {
        p
    } else {
        rebuilt_row(rebuilt_rows(p, repos, n - 1), repos[n - 1])
    }
}

pub open spec fn repos_page(p: PageView, repos: Seq<Rebuilt>) -> PageView {
    if repos.len() > 0 {
        more_page(
            rebuilt_rows(
                p.put("restored  "@).put(words::plural_text(repos.len(), "repository"@)).line(
                    " with full history"@,
                ),
                repos,
                render::shown_rows(repos.len()),
            ),
            repos.len(),
        )
    } else {
        p
    }
}

fn put_repos(page: &mut Page, repos: &[Rebuilt])
    ensures
        final(page)@ == repos_page(old(page)@, repos@),
{
    let len: usize = repos.len();
    if len > 0 {
        page.put("restored  ");
        page.put(&plural(len, "repository"));
        page.line(" with full history");
        let ghost start = page@;
        let rows: usize = rows_of(len);
        let mut i: usize = 0;
        while i < rows
            invariant
                i <= rows <= repos@.len(),
                page@ == rebuilt_rows(start, repos@, i as int),
            decreases rows - i,
        {
            let repo = &repos[i];
            page.put("          ");
            page.put(&left(&fit(&repo.key, 33), 34));
            match &repo.head {
                Some(head) => page.put(&left(head, 12)),
                None => page.put(&left("no commits", 12)),
            }
            page.line(&overlay_note(repo));
            i += 1;
        }
        put_more(page, len);
    }
}

pub open spec fn conflict_rows(p: PageView, conflicts: Seq<Conflict>, n: int) -> PageView
    decreases n,
{
    if n <= 0 {
        p
    } else {
        conflict_rows(p, conflicts, n - 1).ink("conflict"@, Tint::Yellow).put("  "@).put(
            text::padded_right(words::fitted(conflicts[n - 1].path@, 33), 34),
        ).line(conflicts[n - 1].reason@)
    }
}

/// Named rather than resolved: the file it declined to write is still in the
/// staging tree, which is why that tree is never deleted.
pub open spec fn conflicts_page(p: PageView, repos: Seq<Rebuilt>, n: int) -> PageView
    decreases n,
{
    if n <= 0 {
        p
    } else {
        conflict_rows(
            conflicts_page(p, repos, n - 1),
            repos[n - 1].conflicts@,
            repos[n - 1].conflicts@.len() as int,
        )
    }
}

fn put_conflicts(page: &mut Page, repos: &[Rebuilt])
    ensures
        final(page)@ == conflicts_page(old(page)@, repos@, repos@.len() as int),
{
    let ghost start = page@;
    let mut i: usize = 0;
    while i < repos.len()
        invariant
            i <= repos@.len(),
            page@ == conflicts_page(start, repos@, i as int),
        decreases repos@.len() - i,
    {
        let conflicts = &repos[i].conflicts;
        let ghost before = page@;
        let mut k: usize = 0;
        while k < conflicts.len()
            invariant
                k <= conflicts@.len(),
                page@ == conflict_rows(before, conflicts@, k as int),
            decreases conflicts@.len() - k,
        {
            page.ink("conflict", Tint::Yellow);
            page.put("  ");
            page.put(&left(&fit(&conflicts[k].path, 33), 34));
            page.line(&conflicts[k].reason);
            k += 1;
        }
        i += 1;
    }
}

// ---------------------------------------------------------------------------
// The whole report
// ---------------------------------------------------------------------------

pub open spec fn restored_page(into: Seq<char>, done: Done, home: Option<Seq<char>>) -> PageView {
    let p = read_page(done);
    match done.bundle {
        Some(bundle) => p.put("bundled   "@).line(words::abbreviated(bundle@, home)),
        None => {
            let p = p.put("restored  "@).put(
                text::padded_right(words::plural_text(done.files as nat, "file"@), 40),
            ).line(text::padded_left(bytes::size_text(done.bytes as nat), 24));
            let p = missing_page(p, done.missing@);
            let p = match done.metadata {
                Some(meta) => metadata_page(p, meta),
                None => p,
            };
            let p = repos_page(p, done.repos@);
            let p = conflicts_page(p, done.repos@, done.repos@.len() as int);
            p.put("\n"@).ink(
                "note      timestamps are not restored, and a rebuilt repository's own tree\n          comes from git, which keeps only the execute bit"@,
                Tint::Dim,
            ).put("\n"@).put("\ndone      "@).line(words::abbreviated(into, home))
        },
    }
}

/// What a restore produced.
#[must_use]
pub fn restored(into: &str, done: &Done, home: Option<&str>, colour: bool) -> (out: String)
    ensures
        out@ == restored_page(into@, *done, path::view_str_opt(home)).shown(colour),
{
    let mut page = Page::new();
    put_read(&mut page, done);
    if let Some(bundle) = &done.bundle {
        page.put("bundled   ");
        page.line(&abbreviate(bundle, home));
        return page.show(colour);
    }

    page.put("restored  ");
    page.put(&left(&plural(done.files, "file"), 40));
    page.line(&right(&size(done.bytes), 24));
    put_missing(&mut page, &done.missing);
    if let Some(meta) = &done.metadata {
        put_metadata(&mut page, meta);
    }
    put_repos(&mut page, &done.repos);
    put_conflicts(&mut page, &done.repos);

    page.put("\n");
    page.ink(
        "note      timestamps are not restored, and a rebuilt repository's own tree\n          comes from git, which keeps only the execute bit",
        Tint::Dim,
    );
    page.put("\n");
    page.put("\ndone      ");
    page.line(&abbreviate(into, home));
    page.show(colour)
}

// ---------------------------------------------------------------------------
// One path's history
// ---------------------------------------------------------------------------

pub open spec fn commit_rows(
    p: PageView,
    commits: Seq<Commit>,
    moments: Seq<Seq<char>>,
    n: int,
) -> PageView
    decreases n,
{
    if n <= 0 {
        p
    } else {
        commit_rows(p, commits, moments, n - 1).put("  "@).put(
            text::padded_right(moments[n - 1], 18),
        ).put(text::padded_right(commits[n - 1].oid.hex().take(7), 10)).line(
            words::fitted(commits[n - 1].subject@, 44),
        )
    }
}

pub open spec fn path_history_page(
    path: Seq<char>,
    source: Seq<char>,
    commits: Seq<Commit>,
    moments: Seq<Seq<char>>,
) -> PageView {
    commit_rows(
        render::ruled(
            PageView::empty().put("resolved  "@).line(words::fitted(path, 64)).put(
                "          "@,
            ).line(source).put("\n"@).put(text::padded_right("when"@, 20)).put(
                text::padded_right("commit"@, 10),
            ).line("summary"@),
        ),
        commits,
        moments,
        commits.len() as int,
    )
}

/// Each commit's moment as some clock shows it.
pub open spec fn commit_moments(commits: Seq<Commit>, moments: Seq<Seq<char>>) -> bool {
    &&& moments.len() == commits.len()
    &&& forall|i: int|
        0 <= i < commits.len() ==> moments::reads_as(commits[i].when@, #[trigger] moments[i])
}

/// [`path_history`], of what each commit's moment reads as.
#[must_use]
pub fn path_history_at(
    path: &str,
    source: &str,
    commits: &[Commit],
    moments: &[String],
    colour: bool,
) -> (out: String)
    requires
        moments@.len() == commits@.len(),
    ensures
        out@ == path_history_page(path@, source@, commits@, text::views(moments@)).shown(colour),
{
    let ghost named = text::views(moments@);
    let mut page = Page::new();
    page.put("resolved  ");
    page.line(&fit(path, WIDTH - 10));
    page.put("          ");
    page.line(source);
    page.put("\n");
    page.put(&left("when", 20));
    page.put(&left("commit", 10));
    page.line("summary");
    rule(&mut page);
    let ghost start = page@;
    let mut i: usize = 0;
    while i < commits.len()
        invariant
            i <= commits@.len(),
            moments@.len() == commits@.len(),
            named == text::views(moments@),
            page@ == commit_rows(start, commits@, named, i as int),
        decreases commits@.len() - i,
    {
        assert(named[i as int] == moments@[i as int]@);
        page.put("  ");
        page.put(&left(&moments[i], 18));
        page.put(&left(&commits[i].oid.short(), 10));
        page.line(&fit(&commits[i].subject, WIDTH - 30));
        i += 1;
    }
    page.show(colour)
}

/// `history --path`. The header names which half of the store answered, because a
/// list of commits is meaningless without knowing whether they are backup runs or a
/// repository's own history.
#[must_use]
pub fn path_history(path: &str, source: &str, commits: &[Commit], colour: bool) -> (out: String)
    ensures
        exists|moments: Seq<Seq<char>>| #[trigger]
            commit_moments(commits@, moments) && out@ == path_history_page(
                path@,
                source@,
                commits@,
                moments,
            ).shown(colour),
{
    let mut moments: Vec<String> = Vec::new();
    let mut i: usize = 0;
    while i < commits.len()
        invariant
            i <= commits@.len(),
            moments@.len() == i,
            forall|k: int|
                0 <= k < i ==> moments::reads_as(commits@[k].when@, (#[trigger] moments@[k])@),
        decreases commits@.len() - i,
    {
        moments.push(moment(&commits[i].when));
        i += 1;
    }
    assert(commit_moments(commits@, text::views(moments@)));
    path_history_at(path, source, commits, &moments, colour)
}

// ---------------------------------------------------------------------------
// Laws
// ---------------------------------------------------------------------------

/// Whether a page has a piece of text of its own.
pub open spec fn says(p: PageView, piece: Seq<char>) -> bool {
    exists|i: int| 0 <= i < p.inks.len() && (#[trigger] p.inks[i]).text == piece
}

pub proof fn lemma_says_on(p: PageView, q: PageView, piece: Seq<char>)
    requires
        says(p, piece),
        p.inks.is_prefix_of(q.inks),
    ensures
        says(q, piece),
{
    let i = choose|i: int| 0 <= i < p.inks.len() && (#[trigger] p.inks[i]).text == piece;
    assert(p.inks[i] == q.inks[i]);
    assert(q.inks[i].text == piece);
}

proof fn lemma_conflict_rows_say(p: PageView, conflicts: Seq<Conflict>, n: int)
    requires
        0 <= n <= conflicts.len(),
    ensures
        p.inks.is_prefix_of(conflict_rows(p, conflicts, n).inks),
        forall|i: int|
            0 <= i < n ==> says(
                conflict_rows(p, conflicts, n),
                text::padded_right(words::fitted((#[trigger] conflicts[i]).path@, 33), 34),
            ) && says(conflict_rows(p, conflicts, n), conflicts[i].reason@),
    decreases n,
{
    if n > 0 {
        lemma_conflict_rows_say(p, conflicts, n - 1);
        let before = conflict_rows(p, conflicts, n - 1);
        let after = conflict_rows(p, conflicts, n);
        let k = before.inks.len() as int;
        assert(before.inks =~= after.inks.subrange(0, k));
        assert(p.inks =~= after.inks.subrange(0, p.inks.len() as int));
        assert forall|i: int| 0 <= i < n implies says(
            after,
            text::padded_right(words::fitted((#[trigger] conflicts[i]).path@, 33), 34),
        ) && says(after, conflicts[i].reason@) by {
            if i < n - 1 {
                lemma_says_on(
                    before,
                    after,
                    text::padded_right(words::fitted(conflicts[i].path@, 33), 34),
                );
                lemma_says_on(before, after, conflicts[i].reason@);
            } else {
                assert(after.inks[k + 2].text == text::padded_right(
                    words::fitted(conflicts[i].path@, 33),
                    34,
                ));
                assert(after.inks[k + 3].text == conflicts[i].reason@);
            }
        }
    } else {
        assert(p.inks =~= p.inks.subrange(0, p.inks.len() as int));
    }
}

/// Every file that a restore declined to write is named, of whichever repository, with the reason.
pub proof fn every_conflict_is_named(p: PageView, repos: Seq<Rebuilt>, n: int, i: int, k: int)
    requires
        0 <= i < n <= repos.len(),
        0 <= k < repos[i].conflicts@.len(),
    ensures
        p.inks.is_prefix_of(conflicts_page(p, repos, n).inks),
        says(
            conflicts_page(p, repos, n),
            text::padded_right(words::fitted(repos[i].conflicts@[k].path@, 33), 34),
        ),
        says(conflicts_page(p, repos, n), repos[i].conflicts@[k].reason@),
    decreases n,
{
    let before = conflicts_page(p, repos, n - 1);
    let after = conflicts_page(p, repos, n);
    let last = repos[n - 1].conflicts@;
    lemma_conflicts_follow(p, repos, n - 1);
    lemma_conflict_rows_say(before, last, last.len() as int);
    assert(p.inks =~= after.inks.subrange(0, p.inks.len() as int));
    if i < n - 1 {
        every_conflict_is_named(p, repos, n - 1, i, k);
        lemma_says_on(
            before,
            after,
            text::padded_right(words::fitted(repos[i].conflicts@[k].path@, 33), 34),
        );
        lemma_says_on(before, after, repos[i].conflicts@[k].reason@);
    } else {
        assert(says(
            after,
            text::padded_right(words::fitted(last[k].path@, 33), 34),
        ));
    }
}

proof fn lemma_conflicts_follow(p: PageView, repos: Seq<Rebuilt>, n: int)
    requires
        0 <= n <= repos.len(),
    ensures
        p.inks.is_prefix_of(conflicts_page(p, repos, n).inks),
    decreases n,
{
    if n > 0 {
        lemma_conflicts_follow(p, repos, n - 1);
        let before = conflicts_page(p, repos, n - 1);
        let last = repos[n - 1].conflicts@;
        lemma_conflict_rows_say(before, last, last.len() as int);
        let after = conflicts_page(p, repos, n);
        assert(p.inks =~= after.inks.subrange(0, p.inks.len() as int));
    } else {
        assert(p.inks =~= p.inks.subrange(0, p.inks.len() as int));
    }
}

/// A list that is cut short says by how much: what is shown and what is counted make up the whole.
pub proof fn what_is_cut_is_counted(p: PageView, len: nat)
    ensures
        more_page(p, len) == p <==> len == render::shown_rows(len),
        len > render::shown_rows(len) ==> says(
            more_page(p, len),
            text::decimal_text((len - render::shown_rows(len)) as nat),
        ),
{
    if len > REPO_TABLE_ROWS {
        let q = more_page(p, len);
        let k = p.inks.len() as int;
        assert(q.inks[k + 1].text == text::decimal_text((len - REPO_TABLE_ROWS) as nat));
        assert(q.inks.len() != p.inks.len());
    }
}

/// A restore says that paths are missing exactly where some are.
pub proof fn a_short_restore_says_so(p: PageView, missing: Seq<String>)
    ensures
        missing.len() == 0 ==> missing_page(p, missing) == p,
        missing.len() > 0 ==> says(missing_page(p, missing), "missing"@),
        missing.len() > 0 ==> says(
            missing_page(p, missing),
            words::plural_text(missing.len(), "path"@),
        ),
{
    if missing.len() > 0 {
        let n = render::shown_rows(missing.len());
        let head = p.ink("missing"@, Tint::Red).put("   "@).put(
            words::plural_text(missing.len(), "path"@),
        ).line(" the extraction could not write"@);
        let k = p.inks.len() as int;
        assert(head.inks[k].text == "missing"@);
        assert(head.inks[k + 2].text == words::plural_text(missing.len(), "path"@));
        let rows = missing_rows(head, missing, n);
        lemma_missing_follow(head, missing, n);
        let all = missing_page(p, missing);
        assert(head.inks =~= all.inks.subrange(0, head.inks.len() as int)) by {
            assert(head.inks =~= rows.inks.subrange(0, head.inks.len() as int));
        }
        lemma_says_on(head, all, "missing"@);
        lemma_says_on(head, all, words::plural_text(missing.len(), "path"@));
    }
}

proof fn lemma_missing_follow(p: PageView, missing: Seq<String>, n: int)
    requires
        n <= missing.len(),
    ensures
        p.inks.is_prefix_of(missing_rows(p, missing, n).inks),
    decreases n,
{
    if n > 0 {
        lemma_missing_follow(p, missing, n - 1);
        let before = missing_rows(p, missing, n - 1);
        let after = missing_rows(p, missing, n);
        assert(p.inks =~= before.inks.subrange(0, p.inks.len() as int));
        assert(p.inks =~= after.inks.subrange(0, p.inks.len() as int));
    } else {
        assert(p.inks =~= p.inks.subrange(0, p.inks.len() as int));
    }
}

/// What was not taken back with a repository is counted: the files of its overlay and its stashes.
pub proof fn an_overlay_counts_its_files(overlay: nat, stashes: nat)
    ensures
        overlay_text(0, 0) == "overlay: clean"@,
        overlay > 0 ==> ("overlay: "@ + words::grouped(overlay)).is_prefix_of(
            overlay_text(overlay, stashes),
        ),
        stashes > 0 ==> (words::grouped(stashes) + " stashed"@).is_suffix_of(
            overlay_text(overlay, stashes),
        ),
{
    let all = overlay_text(overlay, stashes);
    let a = "overlay: "@ + words::grouped(overlay);
    let b = words::grouped(stashes) + " stashed"@;
    if overlay > 0 {
        assert(a =~= all.subrange(0, a.len() as int));
    }
    if stashes > 0 {
        assert(b =~= all.subrange(all.len() - b.len(), all.len() as int));
    }
}

} // verus!
