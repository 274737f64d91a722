//! That a restore says the same with colour as without.

use crate::cli::page;
use crate::cli::page::{PageView, ESCAPE};
use crate::cli::render;
use crate::cli::render::restore;
use crate::cli::words;
use crate::metadata::replay::Applied;
use crate::plan::REPO_TABLE_ROWS;
use crate::primitives::bytes;
use crate::restore::{Conflict, Done, Rebuilt};
use crate::text;
use vstd::prelude::*;

verus! {

/// A text in which no escape sequence starts.
pub open spec fn plain(t: Seq<char>) -> bool {
    forall|i: int| 0 <= i < t.len() ==> #[trigger] t[i] != ESCAPE
}

/// A page whose runs are all plain.
pub open spec fn plain_page(p: PageView) -> bool {
    forall|k: int| 0 <= k < p.inks.len() ==> plain((#[trigger] p.inks[k]).text)
}

/// What a restore names holds no escape.
pub open spec fn plain_done(done: Done) -> bool {
    &&& forall|i: int|
        0 <= i < done.resolved@.len() ==> plain((#[trigger] done.resolved@[i]).0@) && plain(
            done.resolved@[i].1@,
        )
    &&& done.bundle matches Some(bundle) ==> plain(bundle@)
    &&& forall|i: int| 0 <= i < done.missing@.len() ==> plain((#[trigger] done.missing@[i])@)
    &&& done.metadata matches Some(meta) ==> forall|i: int|
        0 <= i < meta.failed@.len() ==> plain((#[trigger] meta.failed@[i])@)
    &&& forall|i: int| 0 <= i < done.repos@.len() ==> plain_repo(#[trigger] done.repos@[i])
}

pub open spec fn plain_repo(repo: Rebuilt) -> bool {
    &&& plain(repo.key@)
    &&& repo.head matches Some(head) ==> plain(head@)
    &&& forall|i: int|
        0 <= i < repo.conflicts@.len() ==> plain((#[trigger] repo.conflicts@[i]).path@) && plain(
            repo.conflicts@[i].reason@,
        )
}

proof fn lemma_joined(a: Seq<char>, b: Seq<char>)
    requires
        plain(a),
        plain(b),
    ensures
        plain(a + b),
{
}

proof fn lemma_padded(t: Seq<char>, width: nat)
    requires
        plain(t),
    ensures
        plain(text::padded_right(t, width)),
        plain(text::padded_left(t, width)),
{
}

proof fn lemma_number(n: nat)
    ensures
        plain(text::decimal_text(n)),
{
    text::lemma_decimal_digits(n);
    assert forall|i: int| 0 <= i < text::decimal_text(n).len() implies #[trigger] text::decimal_text(
        n,
    )[i] != ESCAPE by {
        assert(text::is_digit(text::decimal_text(n)[i]));
    }
}

proof fn lemma_grouped(n: nat)
    ensures
        plain(words::grouped(n)),
    decreases n,
{
    if n < 1000 {
        lemma_number(n);
    } else {
        reveal_strlit(",");
        lemma_grouped(n / 1000);
        assert(plain(words::three_digits(n % 1000)));
        lemma_joined(words::grouped(n / 1000), ","@);
        lemma_joined(words::grouped(n / 1000) + ","@, words::three_digits(n % 1000));
    }
}

proof fn lemma_plural(n: nat, word: Seq<char>)
    requires
        plain(word),
    ensures
        plain(words::plural_text(n, word)),
{
    reveal_strlit(" ");
    reveal_strlit("s");
    reveal_strlit("ies");
    lemma_grouped(n);
    assert(plain(words::plural_word(n, word)));
    lemma_joined(words::grouped(n), " "@);
    lemma_joined(words::grouped(n) + " "@, words::plural_word(n, word));
}

proof fn lemma_fitted(t: Seq<char>, width: int)
    requires
        plain(t),
        width > 0,
    ensures
        plain(words::fitted(t, width)),
        plain(words::clipped(t, width)),
{
    reveal_strlit("~");
}

proof fn lemma_abbreviated(path: Seq<char>, home: Option<Seq<char>>)
    requires
        plain(path),
    ensures
        plain(words::abbreviated(path, home)),
{
    reveal_strlit("~");
}

proof fn lemma_figures(value: nat)
    ensures
        plain(bytes::figures(value)),
{
    reveal_strlit(".");
    let two = bytes::nearest(value * 100, bytes::ONE as nat);
    let one = bytes::nearest(value * 10, bytes::ONE as nat);
    lemma_number(two / 100);
    lemma_number(two / 10 % 10);
    lemma_number(two % 10);
    lemma_number(one / 10);
    lemma_number(one % 10);
    lemma_number(bytes::nearest(value, bytes::ONE as nat));
    lemma_joined(text::decimal_text(two / 100), "."@);
    lemma_joined(text::decimal_text(two / 100) + "."@, text::decimal_text(two / 10 % 10));
    lemma_joined(
        text::decimal_text(two / 100) + "."@ + text::decimal_text(two / 10 % 10),
        text::decimal_text(two % 10),
    );
    lemma_joined(text::decimal_text(one / 10), "."@);
    lemma_joined(text::decimal_text(one / 10) + "."@, text::decimal_text(one % 10));
}

proof fn lemma_size(n: nat)
    ensures
        plain(bytes::size_text(n)),
{
    reveal_strlit(" B");
    reveal_strlit("B");
    reveal_strlit("KB");
    reveal_strlit("MB");
    reveal_strlit("GB");
    reveal_strlit("TB");
    reveal_strlit("1.00 ");
    reveal_strlit(" ");
    let (value, unit) = bytes::scaled(bytes::rounded(n * bytes::ONE as nat, 1), 0);
    lemma_number(n);
    lemma_figures(value);
    assert(plain(bytes::unit_word(unit)));
    assert(plain(bytes::unit_word(unit + 1)));
    lemma_joined(text::decimal_text(n), " B"@);
    lemma_joined("1.00 "@, bytes::unit_word(unit + 1));
    lemma_joined(bytes::figures(value), " "@);
    lemma_joined(bytes::figures(value) + " "@, bytes::unit_word(unit));
}

proof fn lemma_line(p: PageView, t: Seq<char>)
    requires
        plain_page(p),
        plain(t),
    ensures
        plain_page(p.line(t)),
{
    reveal_strlit("\n");
    assert(plain("\n"@));
}

proof fn lemma_resolved(p: PageView, resolved: Seq<(String, String)>, n: int)
    requires
        plain_page(p),
        n <= resolved.len(),
        forall|i: int|
            0 <= i < resolved.len() ==> plain((#[trigger] resolved[i]).0@) && plain(resolved[i].1@),
    ensures
        plain_page(restore::resolved_rows(p, resolved, n)),
    decreases n,
{
    if n > 0 {
        reveal_strlit("resolved  ");
        lemma_resolved(p, resolved, n - 1);
        let before = restore::resolved_rows(p, resolved, n - 1);
        assert(plain(resolved[n - 1].0@));
        lemma_fitted(resolved[n - 1].0@, 27);
        lemma_padded(words::fitted(resolved[n - 1].0@, 27), 28);
        assert(plain("resolved  "@));
        lemma_line(
            before.put("resolved  "@).put(
                text::padded_right(words::fitted(resolved[n - 1].0@, 27), 28),
            ),
            resolved[n - 1].1@,
        );
    }
}

proof fn lemma_read(done: Done)
    requires
        plain_done(done),
    ensures
        plain_page(restore::read_page(done)),
{
    reveal_strlit("using     ");
    assert(plain("using     "@));
    let p = match done.commit {
        Some(commit) => PageView::empty().put("using     "@).line(commit.hex().take(7)),
        None => PageView::empty(),
    };
    if let Some(commit) = done.commit {
        assert(plain(commit.hex().take(7)));
        lemma_line(PageView::empty().put("using     "@), commit.hex().take(7));
    }
    lemma_resolved(p, done.resolved@, done.resolved@.len() as int);
}

proof fn lemma_more(p: PageView, len: nat)
    requires
        plain_page(p),
    ensures
        plain_page(restore::more_page(p, len)),
{
    reveal_strlit("          and ");
    reveal_strlit(" more");
    if len > REPO_TABLE_ROWS {
        let left = (len - REPO_TABLE_ROWS) as nat;
        lemma_number(left);
        assert(plain("          and "@));
        assert(plain(" more"@));
        lemma_line(p.put("          and "@).put(text::decimal_text(left)), " more"@);
    }
}

proof fn lemma_missing_rows(p: PageView, missing: Seq<String>, n: int)
    requires
        plain_page(p),
        n <= missing.len(),
        forall|i: int| 0 <= i < missing.len() ==> plain((#[trigger] missing[i])@),
    ensures
        plain_page(restore::missing_rows(p, missing, n)),
    decreases n,
{
    if n > 0 {
        reveal_strlit("          ");
        lemma_missing_rows(p, missing, n - 1);
        lemma_fitted(missing[n - 1]@, 46);
        assert(plain("          "@));
        lemma_line(
            restore::missing_rows(p, missing, n - 1).put("          "@),
            words::fitted(missing[n - 1]@, 46),
        );
    }
}

proof fn lemma_missing(p: PageView, missing: Seq<String>)
    requires
        plain_page(p),
        forall|i: int| 0 <= i < missing.len() ==> plain((#[trigger] missing[i])@),
    ensures
        plain_page(restore::missing_page(p, missing)),
{
    if missing.len() > 0 {
        reveal_strlit("missing");
        reveal_strlit("   ");
        reveal_strlit("path");
        reveal_strlit(" the extraction could not write");
        assert(plain("missing"@));
        assert(plain("   "@));
        assert(plain("path"@));
        assert(plain(" the extraction could not write"@));
        lemma_plural(missing.len(), "path"@);
        let head = p.ink("missing"@, page::Tint::Red).put("   "@).put(
            words::plural_text(missing.len(), "path"@),
        );
        lemma_line(head, " the extraction could not write"@);
        let start = head.line(" the extraction could not write"@);
        let n = render::shown_rows(missing.len());
        lemma_missing_rows(start, missing, n);
        lemma_more(restore::missing_rows(start, missing, n), missing.len());
    }
}

proof fn lemma_failures(p: PageView, failed: Seq<String>, n: int)
    requires
        plain_page(p),
        n <= failed.len(),
        forall|i: int| 0 <= i < failed.len() ==> plain((#[trigger] failed[i])@),
    ensures
        plain_page(restore::failure_rows(p, failed, n)),
    decreases n,
{
    if n > 0 {
        reveal_strlit("          ");
        lemma_failures(p, failed, n - 1);
        lemma_fitted(failed[n - 1]@, 46);
        assert(plain("          "@));
        lemma_line(
            restore::failure_rows(p, failed, n - 1).put("          "@),
            words::clipped(failed[n - 1]@, 46),
        );
    }
}

proof fn lemma_metadata(p: PageView, meta: Applied)
    requires
        plain_page(p),
        forall|i: int| 0 <= i < meta.failed@.len() ==> plain((#[trigger] meta.failed@[i])@),
    ensures
        plain_page(restore::metadata_page(p, meta)),
{
    reveal_strlit("metadata  ");
    reveal_strlit("mode");
    reveal_strlit(" restored, ");
    reveal_strlit("attribute");
    reveal_strlit("          ");
    reveal_strlit("path");
    reveal_strlit("\n");
    reveal_strlit(" kept their original owner only for root; these are yours now");
    assert(plain("metadata  "@));
    assert(plain(" restored, "@));
    assert(plain("          "@));
    assert(plain("\n"@));
    lemma_plural(meta.modes as nat, "mode"@);
    lemma_plural(meta.xattrs as nat, "attribute"@);
    lemma_plural(meta.owner_refused@.len(), "path"@);
    let head = p.put("metadata  "@).put(words::plural_text(meta.modes as nat, "mode"@)).put(
        " restored, "@,
    );
    lemma_line(head, words::plural_text(meta.xattrs as nat, "attribute"@));
    let line = head.line(words::plural_text(meta.xattrs as nat, "attribute"@));
    let refused = words::plural_text(meta.owner_refused@.len(), "path"@)
        + " kept their original owner only for root; these are yours now"@;
    lemma_joined(
        words::plural_text(meta.owner_refused@.len(), "path"@),
        " kept their original owner only for root; these are yours now"@,
    );
    let start = if meta.owner_refused@.len() > 0 {
        line.put("          "@).ink(refused, page::Tint::Dim).put("\n"@)
    } else {
        line
    };
    assert(plain_page(start));
    lemma_failures(start, meta.failed@, render::shown_rows(meta.failed@.len()));
}

proof fn lemma_overlay(overlay: nat, stashes: nat)
    ensures
        plain(restore::overlay_text(overlay, stashes)),
{
    reveal_strlit("overlay: clean");
    reveal_strlit("overlay: ");
    reveal_strlit(" stashed");
    reveal_strlit(", ");
    lemma_grouped(overlay);
    lemma_grouped(stashes);
    lemma_joined("overlay: "@, words::grouped(overlay));
    lemma_joined(words::grouped(stashes), " stashed"@);
    lemma_joined("overlay: "@ + words::grouped(overlay), ", "@);
    lemma_joined(
        "overlay: "@ + words::grouped(overlay) + ", "@,
        words::grouped(stashes) + " stashed"@,
    );
}

proof fn lemma_rebuilt_rows(p: PageView, repos: Seq<Rebuilt>, n: int)
    requires
        plain_page(p),
        n <= repos.len(),
        forall|i: int| 0 <= i < repos.len() ==> plain_repo(#[trigger] repos[i]),
    ensures
        plain_page(restore::rebuilt_rows(p, repos, n)),
    decreases n,
{
    if n > 0 {
        reveal_strlit("          ");
        reveal_strlit("no commits");
        lemma_rebuilt_rows(p, repos, n - 1);
        let repo = repos[n - 1];
        let before = restore::rebuilt_rows(p, repos, n - 1);
        assert(plain("          "@));
        assert(plain("no commits"@));
        lemma_fitted(repo.key@, 33);
        lemma_padded(words::fitted(repo.key@, 33), 34);
        let head = match repo.head {
            Some(head) => head@,
            None => "no commits"@,
        };
        lemma_padded(head, 12);
        lemma_overlay(repo.overlay as nat, repo.stashes as nat);
        lemma_line(
            before.put("          "@).put(text::padded_right(words::fitted(repo.key@, 33), 34)).put(
                text::padded_right(head, 12),
            ),
            restore::overlay_text(repo.overlay as nat, repo.stashes as nat),
        );
    }
}

proof fn lemma_repos(p: PageView, repos: Seq<Rebuilt>)
    requires
        plain_page(p),
        forall|i: int| 0 <= i < repos.len() ==> plain_repo(#[trigger] repos[i]),
    ensures
        plain_page(restore::repos_page(p, repos)),
{
    if repos.len() > 0 {
        reveal_strlit("restored  ");
        reveal_strlit("repository");
        reveal_strlit(" with full history");
        assert(plain("restored  "@));
        assert(plain("repository"@));
        assert(plain(" with full history"@));
        lemma_plural(repos.len(), "repository"@);
        let head = p.put("restored  "@).put(words::plural_text(repos.len(), "repository"@));
        lemma_line(head, " with full history"@);
        let start = head.line(" with full history"@);
        let n = render::shown_rows(repos.len());
        lemma_rebuilt_rows(start, repos, n);
        lemma_more(restore::rebuilt_rows(start, repos, n), repos.len());
    }
}

proof fn lemma_conflict_rows(p: PageView, conflicts: Seq<Conflict>, n: int)
    requires
        plain_page(p),
        n <= conflicts.len(),
        forall|i: int|
            0 <= i < conflicts.len() ==> plain((#[trigger] conflicts[i]).path@) && plain(
                conflicts[i].reason@,
            ),
    ensures
        plain_page(restore::conflict_rows(p, conflicts, n)),
    decreases n,
{
    if n > 0 {
        reveal_strlit("conflict");
        reveal_strlit("  ");
        lemma_conflict_rows(p, conflicts, n - 1);
        let before = restore::conflict_rows(p, conflicts, n - 1);
        let path = words::fitted(conflicts[n - 1].path@, 33);
        assert(plain(conflicts[n - 1].path@));
        lemma_fitted(conflicts[n - 1].path@, 33);
        lemma_padded(path, 34);
        assert(plain("conflict"@));
        assert(plain("  "@));
        lemma_line(
            before.ink("conflict"@, page::Tint::Yellow).put("  "@).put(
                text::padded_right(path, 34),
            ),
            conflicts[n - 1].reason@,
        );
    }
}

proof fn lemma_conflicts(p: PageView, repos: Seq<Rebuilt>, n: int)
    requires
        plain_page(p),
        n <= repos.len(),
        forall|i: int| 0 <= i < repos.len() ==> plain_repo(#[trigger] repos[i]),
    ensures
        plain_page(restore::conflicts_page(p, repos, n)),
    decreases n,
{
    if n > 0 {
        lemma_conflicts(p, repos, n - 1);
        let conflicts = repos[n - 1].conflicts@;
        assert(plain_repo(repos[n - 1]));
        lemma_conflict_rows(
            restore::conflicts_page(p, repos, n - 1),
            conflicts,
            conflicts.len() as int,
        );
    }
}

/// Whether what a restore's page says of its target starts no escape sequence. A restore into a
/// bundle says nothing of one, and a target under the home directory is shown without it.
pub open spec fn plain_target(into: Seq<char>, done: Done, home: Option<Seq<char>>) -> bool {
    done.bundle is None ==> plain(words::abbreviated(into, home))
}

/// Nothing on a restore's page starts an escape sequence, where nothing it names does.
pub proof fn a_restore_writes_no_escapes(into: Seq<char>, done: Done, home: Option<Seq<char>>)
    requires
        plain_target(into, done, home),
        plain_done(done),
    ensures
        plain_page(restore::restored_page(into, done, home)),
{
    let p = restore::read_page(done);
    lemma_read(done);
    match done.bundle {
        Some(bundle) => {
            reveal_strlit("bundled   ");
            assert(plain("bundled   "@));
            lemma_abbreviated(bundle@, home);
            lemma_line(p.put("bundled   "@), words::abbreviated(bundle@, home));
        },
        None => {
            reveal_strlit("restored  ");
            reveal_strlit("file");
            reveal_strlit("\n");
            reveal_strlit("\ndone      ");
            assert(plain("restored  "@));
            assert(plain("\n"@));
            assert(plain("\ndone      "@));
            lemma_note();
            let files = words::plural_text(done.files as nat, "file"@);
            let size = bytes::size_text(done.bytes as nat);
            lemma_plural(done.files as nat, "file"@);
            lemma_padded(files, 40);
            lemma_size(done.bytes as nat);
            lemma_padded(size, 24);
            let head = p.put("restored  "@).put(text::padded_right(files, 40));
            lemma_line(head, text::padded_left(size, 24));
            let p = head.line(text::padded_left(size, 24));
            lemma_missing(p, done.missing@);
            let p = restore::missing_page(p, done.missing@);
            if let Some(meta) = done.metadata {
                lemma_metadata(p, meta);
            }
            let p = match done.metadata {
                Some(meta) => restore::metadata_page(p, meta),
                None => p,
            };
            lemma_repos(p, done.repos@);
            let p = restore::repos_page(p, done.repos@);
            lemma_conflicts(p, done.repos@, done.repos@.len() as int);
            let p = restore::conflicts_page(p, done.repos@, done.repos@.len() as int);
            let noted = p.put("\n"@).ink(
                "note      timestamps are not restored, and a rebuilt repository's own tree\n          comes from git, which keeps only the execute bit"@,
                page::Tint::Dim,
            ).put("\n"@).put("\ndone      "@);
            assert(plain_page(noted));
            lemma_line(noted, words::abbreviated(into, home));
        },
    }
}

proof fn lemma_note()
    ensures
        plain(
            "note      timestamps are not restored, and a rebuilt repository's own tree\n          comes from git, which keeps only the execute bit"@,
        ),
{
    reveal_strlit(
        "note      timestamps are not restored, and a rebuilt repository's own tree\n          comes from git, which keeps only the execute bit",
    );
}

/// What a terminal shows of a coloured restore report is the report without colour, character
/// for character, whatever the target, exactly where the target as it is shown starts no escape
/// sequence of its own: one that does is taken out with the colours.
pub proof fn a_restore_says_the_same_in_colour(
    into: Seq<char>,
    done: Done,
    home: Option<Seq<char>>,
)
    requires
        plain_done(done),
    ensures
        page::stripped(restore::restored_page(into, done, home).shown(true))
            == restore::restored_page(into, done, home).shown(false) <==> plain_target(
            into,
            done,
            home,
        ),
{
    let p = restore::restored_page(into, done, home);
    if plain_target(into, done, home) {
        a_restore_writes_no_escapes(into, done, home);
        assert forall|k: int| 0 <= k < p.inks.len() implies !(#[trigger] p.inks[k]).text.contains(
            ESCAPE,
        ) by {
            assert(plain(p.inks[k].text));
        }
        page::colour_changes_no_text(p);
    } else {
        let shown = words::abbreviated(into, home);
        let i = choose|i: int| 0 <= i < shown.len() && #[trigger] shown[i] == ESCAPE;
        let most = PageView { inks: p.inks.drop_last() };
        let rest = PageView { inks: most.inks.drop_last() };
        assert(p.inks.len() >= 2);
        assert(most.inks.last().text == shown && most.inks.last().tint is None);
        assert(most.shown(false) == rest.shown(false) + shown);
        assert(p.shown(false) == most.shown(false) + p.inks.last().shown(false));
        assert(p.shown(false)[rest.shown(false).len() + i] == ESCAPE);
        lemma_stripped_is_plain(p.shown(true));
    }
}

proof fn lemma_stripped_is_plain(s: Seq<char>)
    ensures
        plain(page::stripped(s)),
    decreases s.len(),
{
    if s.len() > 0 {
        if s[0] == ESCAPE {
            let end = text::position(s, 'm');
            if 0 <= end < s.len() {
                lemma_stripped_is_plain(s.skip(end + 1));
            }
        } else {
            lemma_stripped_is_plain(s.skip(1));
        }
    }
}

} // verus!
