//! What `config check` finds, said of the profiles it returns.

use crate::config;
use crate::config::check;
use crate::config::check::{DiagView, KindView, NoteView, Severity};
use crate::config::raw::{RawConfig, RawProfile, RawRemote, RawWatch};
use crate::config::rules::Path;
use crate::config::validate;
use crate::config::validate::Env;
use crate::config::{Parsed, ProfileView, RemoteView, WatchView};
use crate::octets;
use crate::primitives::path;
use crate::primitives::path::Vars;
use crate::text;
use vstd::prelude::*;

verus! {

/// Whether a finding is about what a profile holds rather than about how it is written.
pub open spec fn about_paths(kind: KindView) -> bool {
    ||| kind is EmptyWatch
    ||| kind is NestedWatchedRoot
    ||| kind is ConflictingRules
    ||| kind is IgnoreOutsideEveryRoot
    ||| kind is NoRemotes
    ||| kind is PathInsideWatchedRoot
    ||| kind is RedundantWatch
}

pub open spec fn shown(path: Path) -> Seq<char> {
    octets::lossy(path::written(path))
}

/// Whether one root of a profile lies inside another, and is not that other.
pub open spec fn lies_inside(p: ProfileView, inner: int, outer: int) -> bool {
    &&& 0 <= inner < p.watch.len()
    &&& 0 <= outer < p.watch.len()
    &&& p.watch[outer].path.is_prefix_of(p.watch[inner].path)
    &&& p.watch[outer].path != p.watch[inner].path
}

/// Whether a path of the backup itself, its store or a remote, is inside a watched root.
pub open spec fn feeds_itself(p: ProfileView, what: Seq<char>, at: Path, root: int) -> bool {
    &&& 0 <= root < p.watch.len()
    &&& p.watch[root].path.is_prefix_of(at)
    &&& {
        ||| what == "store_path"@ && p.store_path == Some(at)
        ||| what == "remote path"@ && exists|r: int|
            0 <= r < p.remotes.len() && (#[trigger] p.remotes[r]).path == at
    }
}

/// Whether an ignored path lies at or beneath no watched root.
pub open spec fn never_fires(p: ProfileView, at: Path) -> bool {
    &&& p.ignore_paths.contains(at)
    &&& forall|w: int| 0 <= w < p.watch.len() ==> !(#[trigger] p.watch[w]).path.is_prefix_of(at)
}

/// Whether a path is ignored and also watched or re-included.
pub open spec fn contested(p: ProfileView, at: Path) -> bool {
    p.ignore_paths.contains(at) && (p.reinclude.contains(at) || exists|w: int|
        0 <= w < p.watch.len() && (#[trigger] p.watch[w]).path == at)
}

/// Whether nothing beneath a root is ignored.
pub open spec fn whole(p: ProfileView, root: Path) -> bool {
    forall|k: int|
        0 <= k < p.ignore_paths.len() ==> !root.is_prefix_of(#[trigger] p.ignore_paths[k])
}

/// What a profile's own paths call for saying.
pub open spec fn called_for(p: ProfileView, note: NoteView) -> bool {
    match note.kind {
        KindView::EmptyWatch => note.severity == Severity::Error && p.watch.len() == 0,
        KindView::NoRemotes => note.severity == Severity::Error && p.remotes.len() == 0
            && !p.local_only,
        KindView::NestedWatchedRoot { inner, outer } => note.severity == Severity::Error && exists|
            i: int,
            j: int,
        | #[trigger]
            lies_inside(p, i, j) && inner == shown(p.watch[i].path) && outer == shown(
                p.watch[j].path,
            ),
        KindView::RedundantWatch { path, covered_by } => note.severity == Severity::Warning
            && exists|i: int, j: int| #[trigger]
            lies_inside(p, i, j) && whole(p, p.watch[j].path) && path == shown(p.watch[i].path)
                && covered_by == shown(p.watch[j].path),
        KindView::ConflictingRules { path } => note.severity == Severity::Error && exists|at: Path|
         #[trigger]
            contested(p, at) && path == shown(at),
        KindView::IgnoreOutsideEveryRoot { path } => note.severity == Severity::Warning && exists|
            at: Path,
        | #[trigger] never_fires(p, at) && path == shown(at),
        KindView::PathInsideWatchedRoot { what, path, root } => note.severity == Severity::Error
            && exists|at: Path, w: int| #[trigger]
            feeds_itself(p, what, at, w) && path == shown(at) && root == shown(p.watch[w].path),
        _ => false,
    }
}

pub proof fn lemma_either(a: Seq<NoteView>, b: Seq<NoteView>, x: NoteView)
    ensures
        (a + b).contains(x) <==> a.contains(x) || b.contains(x),
{
    if a.contains(x) {
        let i = choose|i: int| 0 <= i < a.len() && a[i] == x;
        assert((a + b)[i] == x);
    }
    if b.contains(x) {
        let i = choose|i: int| 0 <= i < b.len() && b[i] == x;
        assert((a + b)[a.len() + i] == x);
    }
}

pub proof fn lemma_one_more(a: Seq<NoteView>, y: NoteView, x: NoteView)
    ensures
        a.push(y).contains(x) <==> a.contains(x) || x == y,
{
    assert(a.push(y) =~= a + seq![y]);
    lemma_either(a, seq![y], x);
    if x == y {
        assert(seq![y][0] == x);
    }
}

/// None of some findings is about what a profile holds.
spec fn elsewhere(notes: Seq<NoteView>) -> bool {
    forall|i: int| 0 <= i < notes.len() ==> !about_paths((#[trigger] notes[i]).kind)
}

proof fn lemma_elsewhere(notes: Seq<NoteView>, x: NoteView)
    requires
        elsewhere(notes),
        about_paths(x.kind),
    ensures
        !notes.contains(x),
{
    if notes.contains(x) {
        let i = choose|i: int| 0 <= i < notes.len() && notes[i] == x;
        assert(!about_paths(notes[i].kind));
    }
}

proof fn lemma_elsewhere_joined(a: Seq<NoteView>, b: Seq<NoteView>)
    requires
        elsewhere(a),
        elsewhere(b),
    ensures
        elsewhere(a + b),
{
    assert forall|i: int| 0 <= i < (a + b).len() implies !about_paths((#[trigger] (a + b)[i]).kind) by {
        if i < a.len() {
            assert((a + b)[i] == a[i]);
        } else {
            assert((a + b)[i] == b[i - a.len()]);
        }
    }
}

proof fn lemma_watch_pass(env: Env, raw: Seq<RawWatch>, n: int)
    requires
        0 <= n <= raw.len(),
    ensures
        elsewhere(validate::watch_pass(env, raw, n).1),
    decreases n,
{
    if n > 0 {
        lemma_watch_pass(env, raw, n - 1);
        let (watch, notes) = validate::watch_pass(env, raw, n - 1);
        let (entry, more) = validate::watch_step(env, watch, raw[n - 1]);
        assert(elsewhere(validate::watch_key_notes(raw[n - 1])));
        if let Some(entry) = entry {
            assert(elsewhere(validate::alias_notes(watch, entry)));
            lemma_elsewhere_joined(
                validate::watch_key_notes(raw[n - 1]),
                validate::alias_notes(watch, entry),
            );
        }
        assert(elsewhere(more));
        lemma_elsewhere_joined(notes, more);
    }
}

proof fn lemma_remote_pass(env: Env, raw: Seq<RawRemote>, n: int)
    requires
        0 <= n <= raw.len(),
    ensures
        elsewhere(validate::remote_pass(env, raw, n).1),
    decreases n,
{
    if n > 0 {
        lemma_remote_pass(env, raw, n - 1);
        let (remotes, notes) = validate::remote_pass(env, raw, n - 1);
        let (entry, more) = validate::remote_step(env, remotes, raw[n - 1]);
        assert(elsewhere(more));
        lemma_elsewhere_joined(notes, more);
    }
}

proof fn lemma_resolve_all(env: Env, texts: Seq<Seq<char>>, n: int)
    requires
        0 <= n <= texts.len(),
    ensures
        elsewhere(validate::resolve_all(env, texts, n).1),
    decreases n,
{
    if n > 0 {
        lemma_resolve_all(env, texts, n - 1);
    }
}

proof fn lemma_nested_row(watch: Seq<WatchView>, i: int, n: int, x: NoteView)
    requires
        0 <= n <= watch.len(),
        0 <= i < watch.len(),
    ensures
        validate::nested_row(watch, i, n).contains(x) <==> exists|j: int|
            0 <= j < n && (#[trigger] watch[j]).path.is_prefix_of(watch[i].path) && watch[j].path
                != watch[i].path && x == (NoteView {
                severity: Severity::Error,
                kind: KindView::NestedWatchedRoot {
                    inner: shown(watch[i].path),
                    outer: shown(watch[j].path),
                },
            }),
    decreases n,
{
    if n > 0 {
        lemma_nested_row(watch, i, n - 1, x);
        lemma_prefix(watch[n - 1].path, watch[i].path);
        lemma_one_more(
            validate::nested_row(watch, i, n - 1),
            check::error_of(
                KindView::NestedWatchedRoot {
                    inner: shown(watch[i].path),
                    outer: shown(watch[n - 1].path),
                },
            ),
            x,
        );
    }
}

proof fn lemma_prefix(a: Path, b: Path)
    ensures
        path::holds_path(a, b) <==> a.is_prefix_of(b),
{
    if a.len() <= b.len() {
        assert(b.take(a.len() as int) =~= b.subrange(0, a.len() as int));
    }
}

proof fn lemma_nested_rows(p: ProfileView, n: int, x: NoteView)
    requires
        0 <= n <= p.watch.len(),
    ensures
        validate::nested_rows(p.watch, n).contains(x) <==> exists|i: int, j: int|
            i < n && #[trigger] lies_inside(p, i, j) && x == (NoteView {
                severity: Severity::Error,
                kind: KindView::NestedWatchedRoot {
                    inner: shown(p.watch[i].path),
                    outer: shown(p.watch[j].path),
                },
            }),
    decreases n,
{
    if n > 0 {
        let watch = p.watch;
        let row = validate::nested_row(watch, n - 1, watch.len() as int);
        lemma_nested_rows(p, n - 1, x);
        lemma_nested_row(watch, n - 1, watch.len() as int, x);
        lemma_either(validate::nested_rows(watch, n - 1), row, x);
        if row.contains(x) {
            let j = choose|j: int|
                0 <= j < watch.len() && (#[trigger] watch[j]).path.is_prefix_of(watch[n - 1].path)
                    && watch[j].path != watch[n - 1].path && x == (NoteView {
                    severity: Severity::Error,
                    kind: KindView::NestedWatchedRoot {
                        inner: shown(watch[n - 1].path),
                        outer: shown(watch[j].path),
                    },
                });
            assert(lies_inside(p, n - 1, j));
        }
        if exists|i: int, j: int|
            i < n && #[trigger] lies_inside(p, i, j) && x == (NoteView {
                severity: Severity::Error,
                kind: KindView::NestedWatchedRoot {
                    inner: shown(p.watch[i].path),
                    outer: shown(p.watch[j].path),
                },
            }) {
            let (i, j) = choose|i: int, j: int|
                i < n && #[trigger] lies_inside(p, i, j) && x == (NoteView {
                    severity: Severity::Error,
                    kind: KindView::NestedWatchedRoot {
                        inner: shown(p.watch[i].path),
                        outer: shown(p.watch[j].path),
                    },
                });
            if i == n - 1 {
                assert(watch[j].path.is_prefix_of(watch[n - 1].path));
            }
        }
    }
}

proof fn lemma_redundant_row(p: ProfileView, i: int, n: int, x: NoteView)
    requires
        0 <= n <= p.watch.len(),
        0 <= i < p.watch.len(),
    ensures
        validate::redundant_row(p.watch, p.ignore_paths, i, n).contains(x) <==> exists|j: int|
            j < n && #[trigger] lies_inside(p, i, j) && whole(p, p.watch[j].path) && x == (NoteView {
                severity: Severity::Warning,
                kind: KindView::RedundantWatch {
                    path: shown(p.watch[i].path),
                    covered_by: shown(p.watch[j].path),
                },
            }),
    decreases n,
{
    if n > 0 {
        let watch = p.watch;
        let root = watch[n - 1].path;
        lemma_redundant_row(p, i, n - 1, x);
        lemma_prefix(root, watch[i].path);
        assert(validate::carved(p.ignore_paths, root) <==> !whole(p, root)) by {
            if validate::carved(p.ignore_paths, root) {
                let k = choose|k: int|
                    0 <= k < p.ignore_paths.len() && path::holds_path(
                        root,
                        #[trigger] p.ignore_paths[k],
                    );
                lemma_prefix(root, p.ignore_paths[k]);
            }
            if !whole(p, root) {
                let k = choose|k: int|
                    0 <= k < p.ignore_paths.len() && root.is_prefix_of(
                        #[trigger] p.ignore_paths[k],
                    );
                lemma_prefix(root, p.ignore_paths[k]);
            }
        }
        lemma_one_more(
            validate::redundant_row(watch, p.ignore_paths, i, n - 1),
            check::warning_of(
                KindView::RedundantWatch {
                    path: shown(watch[i].path),
                    covered_by: shown(root),
                },
            ),
            x,
        );
        assert(validate::nested(watch, i, n - 1) <==> lies_inside(p, i, n - 1));
    }
}

proof fn lemma_redundant_rows(p: ProfileView, n: int, x: NoteView)
    requires
        0 <= n <= p.watch.len(),
    ensures
        validate::redundant_rows(p.watch, p.ignore_paths, n).contains(x) <==> exists|i: int, j: int|
            i < n && #[trigger] lies_inside(p, i, j) && whole(p, p.watch[j].path) && x == (NoteView {
                severity: Severity::Warning,
                kind: KindView::RedundantWatch {
                    path: shown(p.watch[i].path),
                    covered_by: shown(p.watch[j].path),
                },
            }),
    decreases n,
{
    if n > 0 {
        lemma_redundant_rows(p, n - 1, x);
        lemma_redundant_row(p, n - 1, p.watch.len() as int, x);
        lemma_either(
            validate::redundant_rows(p.watch, p.ignore_paths, n - 1),
            validate::redundant_row(p.watch, p.ignore_paths, n - 1, p.watch.len() as int),
            x,
        );
    }
}

proof fn lemma_conflicts(ignore: Seq<Path>, wanted: Seq<Path>, n: int, x: NoteView)
    requires
        0 <= n <= wanted.len(),
    ensures
        validate::conflicts(ignore, wanted, n).contains(x) <==> exists|k: int|
            0 <= k < n && ignore.contains(#[trigger] wanted[k]) && x == (NoteView {
                severity: Severity::Error,
                kind: KindView::ConflictingRules { path: shown(wanted[k]) },
            }),
    decreases n,
{
    if n > 0 {
        lemma_conflicts(ignore, wanted, n - 1, x);
        lemma_one_more(
            validate::conflicts(ignore, wanted, n - 1),
            check::error_of(KindView::ConflictingRules { path: shown(wanted[n - 1]) }),
            x,
        );
    }
}

proof fn lemma_outside(p: ProfileView, n: int, x: NoteView)
    requires
        0 <= n <= p.ignore_paths.len(),
    ensures
        validate::outside_notes(p.watch, p.ignore_paths, n).contains(x) <==> exists|k: int|
            0 <= k < n && never_fires(p, #[trigger] p.ignore_paths[k]) && x == (NoteView {
                severity: Severity::Warning,
                kind: KindView::IgnoreOutsideEveryRoot { path: shown(p.ignore_paths[k]) },
            }),
    decreases n,
{
    if n > 0 {
        let at = p.ignore_paths[n - 1];
        lemma_outside(p, n - 1, x);
        lemma_one_more(
            validate::outside_notes(p.watch, p.ignore_paths, n - 1),
            check::warning_of(KindView::IgnoreOutsideEveryRoot { path: shown(at) }),
            x,
        );
        assert(p.ignore_paths.contains(at));
        assert(validate::watched(p.watch, at) <==> !never_fires(p, at)) by {
            if validate::watched(p.watch, at) {
                let w = choose|w: int|
                    0 <= w < p.watch.len() && path::holds_path((#[trigger] p.watch[w]).path, at);
                lemma_prefix(p.watch[w].path, at);
            }
            if !never_fires(p, at) {
                let w = choose|w: int|
                    0 <= w < p.watch.len() && (#[trigger] p.watch[w]).path.is_prefix_of(at);
                lemma_prefix(p.watch[w].path, at);
            }
        }
    }
}

proof fn lemma_inside_row(watch: Seq<WatchView>, what: Seq<char>, at: Path, n: int, x: NoteView)
    requires
        0 <= n <= watch.len(),
    ensures
        validate::inside_row(watch, what, at, n).contains(x) <==> exists|w: int|
            0 <= w < n && (#[trigger] watch[w]).path.is_prefix_of(at) && x == (NoteView {
                severity: Severity::Error,
                kind: KindView::PathInsideWatchedRoot {
                    what,
                    path: shown(at),
                    root: shown(watch[w].path),
                },
            }),
    decreases n,
{
    if n > 0 {
        lemma_inside_row(watch, what, at, n - 1, x);
        lemma_prefix(watch[n - 1].path, at);
        lemma_one_more(
            validate::inside_row(watch, what, at, n - 1),
            check::error_of(
                KindView::PathInsideWatchedRoot {
                    what,
                    path: shown(at),
                    root: shown(watch[n - 1].path),
                },
            ),
            x,
        );
    }
}

proof fn lemma_inside_remotes(watch: Seq<WatchView>, remotes: Seq<RemoteView>, n: int, x: NoteView)
    requires
        0 <= n <= remotes.len(),
    ensures
        validate::inside_remotes(watch, remotes, n).contains(x) <==> exists|r: int, w: int|
            0 <= r < n && 0 <= w < watch.len() && (#[trigger] watch[w]).path.is_prefix_of(
                (#[trigger] remotes[r]).path,
            ) && x == (NoteView {
                severity: Severity::Error,
                kind: KindView::PathInsideWatchedRoot {
                    what: "remote path"@,
                    path: shown(remotes[r].path),
                    root: shown(watch[w].path),
                },
            }),
    decreases n,
{
    if n > 0 {
        let row = validate::inside_row(
            watch,
            "remote path"@,
            remotes[n - 1].path,
            watch.len() as int,
        );
        lemma_inside_remotes(watch, remotes, n - 1, x);
        lemma_inside_row(watch, "remote path"@, remotes[n - 1].path, watch.len() as int, x);
        lemma_either(validate::inside_remotes(watch, remotes, n - 1), row, x);
        if row.contains(x) {
            let w = choose|w: int|
                0 <= w < watch.len() && (#[trigger] watch[w]).path.is_prefix_of(
                    remotes[n - 1].path,
                ) && x == (NoteView {
                    severity: Severity::Error,
                    kind: KindView::PathInsideWatchedRoot {
                        what: "remote path"@,
                        path: shown(remotes[n - 1].path),
                        root: shown(watch[w].path),
                    },
                });
            assert(remotes[n - 1] == remotes[n - 1]);
        }
    }
}

/// Of every finding about what a profile holds: it is made of a table that names a profile exactly
/// where the profile's own paths call for it.
proof fn lemma_notes(env: Env, name: Seq<char>, raw: RawProfile, x: NoteView)
    requires
        about_paths(x.kind),
    ensures
        validate::notes_of(env, name, raw).contains(x) <==> called_for(
            validate::profile_of(env, name, raw),
            x,
        ),
{
    let p = validate::profile_of(env, name, raw);
    let ignored = validate::path_like(env.vars.drives, text::views(raw.ignore@));
    let (watch, found) = validate::watch_pass(env, raw.watch@, raw.watch@.len() as int);
    let empty = if watch.len() == 0 {
        seq![check::error_of(KindView::EmptyWatch)]
    } else {
        Seq::empty()
    };
    let nested = validate::nested_rows(watch, watch.len() as int);
    lemma_watch_pass(env, raw.watch@, raw.watch@.len() as int);
    lemma_elsewhere(found, x);
    lemma_either(found, empty, x);
    lemma_either(found + empty, nested, x);
    lemma_nested_rows(p, p.watch.len() as int, x);
    assert(empty.contains(x) <==> watch.len() == 0 && x == check::error_of(KindView::EmptyWatch))
        by {
        if watch.len() == 0 && x == check::error_of(KindView::EmptyWatch) {
            assert(empty[0] == x);
        }
    }
    let s1 = validate::roots_of(env, raw).1;
    let s2 = validate::resolve_all(env, ignored, ignored.len() as int).1;
    let reincluded = text::views(raw.reinclude@);
    let s3 = validate::resolve_all(env, reincluded, raw.reinclude@.len() as int).1;
    lemma_resolve_all(env, ignored, ignored.len() as int);
    lemma_resolve_all(env, reincluded, raw.reinclude@.len() as int);
    lemma_elsewhere(s2, x);
    lemma_elsewhere(s3, x);
    let wanted = p.reinclude + config::watch_paths(p.watch);
    let c1 = validate::conflicts(p.ignore_paths, wanted, wanted.len() as int);
    let c2 = validate::outside_notes(p.watch, p.ignore_paths, p.ignore_paths.len() as int);
    let s4 = validate::rule_notes(p.watch, p.ignore_paths, p.reinclude);
    lemma_either(c1, c2, x);
    lemma_conflicts(p.ignore_paths, wanted, wanted.len() as int, x);
    lemma_outside(p, p.ignore_paths.len() as int, x);
    lemma_contested(p, x);
    lemma_silent(p, x);
    let (remotes, said) = validate::remote_pass(env, raw.remotes@, raw.remotes@.len() as int);
    lemma_remote_pass(env, raw.remotes@, raw.remotes@.len() as int);
    lemma_elsewhere(said, x);
    let none = if remotes.len() == 0 && !validate::or_else(raw.local_only, false) {
        seq![check::error_of(KindView::NoRemotes)]
    } else {
        Seq::empty()
    };
    lemma_either(said, none, x);
    assert(none.contains(x) <==> p.remotes.len() == 0 && !p.local_only && x == check::error_of(
        KindView::NoRemotes,
    )) by {
        if p.remotes.len() == 0 && !p.local_only && x == check::error_of(KindView::NoRemotes) {
            assert(none[0] == x);
        }
    }
    let s5 = validate::remotes_of(env, raw).1;
    let s6 = validate::schedule_step(raw.schedule).1;
    let s7 = validate::store_step(env, raw.store_path).1;
    assert(elsewhere(s6));
    assert(elsewhere(s7));
    lemma_elsewhere(s6, x);
    lemma_elsewhere(s7, x);
    let s8 = validate::inside_notes(p.watch, p.store_path, p.remotes);
    lemma_feeding(p, x);
    let s9 = validate::glob_notes(p.ignore_globs, p.use_default_ignores);
    assert(elsewhere(s9));
    lemma_elsewhere(s9, x);
    let s10 = validate::redundant_rows(p.watch, p.ignore_paths, p.watch.len() as int);
    lemma_redundant_rows(p, p.watch.len() as int, x);
    lemma_either(s1, s2, x);
    lemma_either(s1 + s2, s3, x);
    lemma_either(s1 + s2 + s3, s4, x);
    lemma_either(s1 + s2 + s3 + s4, s5, x);
    lemma_either(s1 + s2 + s3 + s4 + s5, s6, x);
    lemma_either(s1 + s2 + s3 + s4 + s5 + s6, s7, x);
    lemma_either(s1 + s2 + s3 + s4 + s5 + s6 + s7, s8, x);
    lemma_either(s1 + s2 + s3 + s4 + s5 + s6 + s7 + s8, s9, x);
    lemma_either(s1 + s2 + s3 + s4 + s5 + s6 + s7 + s8 + s9, s10, x);
    assert(validate::notes_of(env, name, raw) == s1 + s2 + s3 + s4 + s5 + s6 + s7 + s8 + s9 + s10);
    assert(s1.contains(x) <==> empty.contains(x) || nested.contains(x));
    assert(s4.contains(x) <==> c1.contains(x) || c2.contains(x));
    assert(s5.contains(x) <==> none.contains(x));
    let all = validate::notes_of(env, name, raw).contains(x);
    assert(all <==> empty.contains(x) || nested.contains(x) || c1.contains(x) || c2.contains(x)
        || none.contains(x) || s8.contains(x) || s10.contains(x));
    match x.kind {
        KindView::EmptyWatch => {
            assert(all <==> empty.contains(x));
        },
        KindView::NoRemotes => {
            assert(all <==> none.contains(x));
        },
        KindView::NestedWatchedRoot { inner, outer } => {
            assert(all <==> nested.contains(x));
        },
        KindView::RedundantWatch { path, covered_by } => {
            assert(all <==> s10.contains(x));
        },
        KindView::ConflictingRules { path } => {
            assert(all <==> c1.contains(x));
        },
        KindView::IgnoreOutsideEveryRoot { path } => {
            assert(all <==> c2.contains(x));
        },
        KindView::PathInsideWatchedRoot { what, path, root } => {
            assert(all <==> s8.contains(x));
        },
        _ => {},
    }
}

proof fn lemma_contested(p: ProfileView, x: NoteView)
    ensures
        ({
            let wanted = p.reinclude + config::watch_paths(p.watch);
            (exists|k: int|
                0 <= k < wanted.len() && p.ignore_paths.contains(#[trigger] wanted[k]) && x == (
                NoteView {
                    severity: Severity::Error,
                    kind: KindView::ConflictingRules { path: shown(wanted[k]) },
                })) <==> exists|at: Path| #[trigger]
                contested(p, at) && x == (NoteView {
                    severity: Severity::Error,
                    kind: KindView::ConflictingRules { path: shown(at) },
                })
        }),
{
    let wanted = p.reinclude + config::watch_paths(p.watch);
    let note = |at: Path|
        NoteView {
            severity: Severity::Error,
            kind: KindView::ConflictingRules { path: shown(at) },
        };
    if exists|k: int|
        0 <= k < wanted.len() && p.ignore_paths.contains(#[trigger] wanted[k]) && x == note(
            wanted[k],
        ) {
        let k = choose|k: int|
            0 <= k < wanted.len() && p.ignore_paths.contains(#[trigger] wanted[k]) && x == note(
                wanted[k],
            );
        if k < p.reinclude.len() {
            assert(p.reinclude[k] == wanted[k]);
        } else {
            assert(p.watch[k - p.reinclude.len()].path == wanted[k]);
        }
        assert(contested(p, wanted[k]));
    }
    if exists|at: Path| #[trigger] contested(p, at) && x == note(at) {
        let at = choose|at: Path| #[trigger] contested(p, at) && x == note(at);
        if p.reinclude.contains(at) {
            let k = choose|k: int| 0 <= k < p.reinclude.len() && p.reinclude[k] == at;
            assert(wanted[k] == at);
        } else {
            let w = choose|w: int| 0 <= w < p.watch.len() && (#[trigger] p.watch[w]).path == at;
            assert(wanted[p.reinclude.len() + w] == at);
        }
    }
}

proof fn lemma_silent(p: ProfileView, x: NoteView)
    ensures
        (exists|k: int|
            0 <= k < p.ignore_paths.len() && never_fires(p, #[trigger] p.ignore_paths[k]) && x == (
            NoteView {
                severity: Severity::Warning,
                kind: KindView::IgnoreOutsideEveryRoot { path: shown(p.ignore_paths[k]) },
            })) <==> exists|at: Path| #[trigger]
            never_fires(p, at) && x == (NoteView {
                severity: Severity::Warning,
                kind: KindView::IgnoreOutsideEveryRoot { path: shown(at) },
            }),
{
    if exists|at: Path| #[trigger]
        never_fires(p, at) && x == (NoteView {
            severity: Severity::Warning,
            kind: KindView::IgnoreOutsideEveryRoot { path: shown(at) },
        }) {
        let at = choose|at: Path| #[trigger]
            never_fires(p, at) && x == (NoteView {
                severity: Severity::Warning,
                kind: KindView::IgnoreOutsideEveryRoot { path: shown(at) },
            });
        let k = choose|k: int| 0 <= k < p.ignore_paths.len() && p.ignore_paths[k] == at;
        assert(never_fires(p, p.ignore_paths[k]));
    }
}

proof fn lemma_feeding(p: ProfileView, x: NoteView)
    ensures
        validate::inside_notes(p.watch, p.store_path, p.remotes).contains(x) <==> exists|
            what: Seq<char>,
            at: Path,
            w: int,
        | #[trigger]
            feeds_itself(p, what, at, w) && x == (NoteView {
                severity: Severity::Error,
                kind: KindView::PathInsideWatchedRoot {
                    what,
                    path: shown(at),
                    root: shown(p.watch[w].path),
                },
            }),
{
    let first = match p.store_path {
        Some(at) => validate::inside_row(p.watch, "store_path"@, at, p.watch.len() as int),
        None => Seq::empty(),
    };
    let rest = validate::inside_remotes(p.watch, p.remotes, p.remotes.len() as int);
    let n = p.watch.len() as int;
    lemma_either(first, rest, x);
    lemma_inside_remotes(p.watch, p.remotes, p.remotes.len() as int, x);
    if let Some(at) = p.store_path {
        lemma_inside_row(p.watch, "store_path"@, at, n, x);
        if first.contains(x) {
            let w = choose|w: int|
                0 <= w < n && (#[trigger] p.watch[w]).path.is_prefix_of(at) && x == (NoteView {
                    severity: Severity::Error,
                    kind: KindView::PathInsideWatchedRoot {
                        what: "store_path"@,
                        path: shown(at),
                        root: shown(p.watch[w].path),
                    },
                });
            assert(feeds_itself(p, "store_path"@, at, w));
        }
    }
    if rest.contains(x) {
        let (r, w) = choose|r: int, w: int|
            0 <= r < p.remotes.len() && 0 <= w < n && (#[trigger] p.watch[w]).path.is_prefix_of(
                (#[trigger] p.remotes[r]).path,
            ) && x == (NoteView {
                severity: Severity::Error,
                kind: KindView::PathInsideWatchedRoot {
                    what: "remote path"@,
                    path: shown(p.remotes[r].path),
                    root: shown(p.watch[w].path),
                },
            });
        assert(feeds_itself(p, "remote path"@, p.remotes[r].path, w));
    }
    if exists|what: Seq<char>, at: Path, w: int| #[trigger]
        feeds_itself(p, what, at, w) && x == (NoteView {
            severity: Severity::Error,
            kind: KindView::PathInsideWatchedRoot {
                what,
                path: shown(at),
                root: shown(p.watch[w].path),
            },
        }) {
        let (what, at, w) = choose|what: Seq<char>, at: Path, w: int| #[trigger]
            feeds_itself(p, what, at, w) && x == (NoteView {
                severity: Severity::Error,
                kind: KindView::PathInsideWatchedRoot {
                    what,
                    path: shown(at),
                    root: shown(p.watch[w].path),
                },
            });
        if what == "store_path"@ && p.store_path == Some(at) {
            assert(p.watch[w].path.is_prefix_of(at));
            assert(first.contains(x));
        } else {
            let r = choose|r: int| 0 <= r < p.remotes.len() && (#[trigger] p.remotes[r]).path == at;
            assert(p.watch[w].path.is_prefix_of(p.remotes[r].path));
            assert(rest.contains(x));
        }
    }
}

// ---------------------------------------------------------------------------
// Of a whole file
// ---------------------------------------------------------------------------

pub proof fn lemma_diag_either(a: Seq<DiagView>, b: Seq<DiagView>, x: DiagView)
    ensures
        (a + b).contains(x) <==> a.contains(x) || b.contains(x),
{
    if a.contains(x) {
        let i = choose|i: int| 0 <= i < a.len() && a[i] == x;
        assert((a + b)[i] == x);
    }
    if b.contains(x) {
        let i = choose|i: int| 0 <= i < b.len() && b[i] == x;
        assert((a + b)[a.len() + i] == x);
    }
}

pub proof fn lemma_stamped(profile: Option<Seq<char>>, notes: Seq<NoteView>, x: DiagView)
    ensures
        validate::stamped(profile, notes).contains(x) <==> x.profile == profile && notes.contains(
            NoteView { severity: x.severity, kind: x.kind },
        ),
{
    let all = validate::stamped(profile, notes);
    let note = NoteView { severity: x.severity, kind: x.kind };
    if all.contains(x) {
        let i = choose|i: int| 0 <= i < all.len() && all[i] == x;
        assert(notes[i] == note);
    }
    if x.profile == profile && notes.contains(note) {
        let i = choose|i: int| 0 <= i < notes.len() && notes[i] == note;
        assert(all[i] == x);
    }
}

/// Whether a profile among some has this name and calls for a finding.
pub open spec fn some_calls_for(profiles: Seq<ProfileView>, x: DiagView) -> bool {
    exists|i: int|
        0 <= i < profiles.len() && x.profile == Some((#[trigger] profiles[i]).name) && called_for(
            profiles[i],
            NoteView { severity: x.severity, kind: x.kind },
        )
}

proof fn lemma_tables(env: Env, raw: Seq<RawProfile>, n: int, x: DiagView)
    requires
        0 <= n <= raw.len(),
        about_paths(x.kind),
    ensures
        validate::table_pass(env, raw, n).1.contains(x) <==> some_calls_for(
            validate::table_pass(env, raw, n).0,
            x,
        ),
    decreases n,
{
    if n > 0 {
        lemma_tables(env, raw, n - 1, x);
        let (profiles, diags) = validate::table_pass(env, raw, n - 1);
        let table = raw[n - 1];
        let (profile, more) = validate::table_step(env, profiles, table);
        let note = NoteView { severity: x.severity, kind: x.kind };
        let keys = validate::unknown_notes("[[profile]]"@, text::views(table.unknown@));
        let (found, notes) = validate::profile_check(env, table);
        let twice = match found {
            Some(p) => validate::duplicate_notes(profiles, p),
            None => Seq::empty(),
        };
        lemma_diag_either(diags, more, x);
        lemma_stamped(text::view_opt(table.name), keys + notes + twice, x);
        lemma_either(keys, notes, note);
        lemma_either(keys + notes, twice, note);
        assert(elsewhere(keys));
        assert(elsewhere(twice)) by {
            if let Some(p) = found {
                let named = if validate::has_profile(profiles, p.name) {
                    seq![check::error_of(KindView::DuplicateProfile { name: p.name })]
                } else {
                    Seq::empty()
                };
                assert(elsewhere(named));
            }
        }
        lemma_elsewhere(keys, note);
        lemma_elsewhere(twice, note);
        let all = validate::table_pass(env, raw, n).0;
        match found {
            Some(p) => {
                lemma_notes(env, table.name->0@, table, note);
                assert(all == profiles.push(p));
                if some_calls_for(profiles, x) {
                    let i = choose|i: int|
                        0 <= i < profiles.len() && x.profile == Some(
                            (#[trigger] profiles[i]).name,
                        ) && called_for(profiles[i], note);
                    assert(all[i] == profiles[i]);
                }
                if more.contains(x) {
                    assert(all[profiles.len() as int] == p);
                }
                if some_calls_for(all, x) {
                    let i = choose|i: int|
                        0 <= i < all.len() && x.profile == Some((#[trigger] all[i]).name)
                            && called_for(all[i], note);
                    if i < profiles.len() {
                        assert(profiles[i] == all[i]);
                    }
                }
            },
            None => {
                assert(elsewhere(notes));
                lemma_elsewhere(notes, note);
            },
        }
    }
}

/// Of every finding about what a profile holds - that it watches nothing, or has nowhere to go;
/// that one root is inside another; that a path is ignored and watched at once; that an ignore can
/// never fire; that the store or a remote is inside what is backed up, and would be backed up into
/// itself without bound - checking a file reports it exactly where a profile that it returns calls
/// for it.
pub proof fn a_file_is_told_what_its_profiles_call_for(
    parsed: Parsed,
    raw: RawConfig,
    home: Option<Seq<char>>,
    vars: Vars,
    x: DiagView,
)
    requires
        validate::is_validation(parsed, raw, home, vars),
        about_paths(x.kind),
    ensures
        check::diag_views(parsed.diagnostics@).contains(x) <==> some_calls_for(
            config::profile_views(parsed.config.profiles@),
            x,
        ),
{
    let env = Env { home, vars };
    let n = raw.profile@.len() as int;
    let (profiles, diags) = validate::table_pass(env, raw.profile@, n);
    let top = validate::stamped(None, validate::top_notes(raw));
    let last = validate::stamped(None, validate::empty_notes(raw));
    let note = NoteView { severity: x.severity, kind: x.kind };
    lemma_tables(env, raw.profile@, n, x);
    lemma_diag_either(top, diags, x);
    lemma_diag_either(top + diags, last, x);
    lemma_stamped(None, validate::top_notes(raw), x);
    lemma_stamped(None, validate::empty_notes(raw), x);
    let a = validate::unknown_notes("the top-level table"@, text::views(raw.unknown@));
    let b = validate::unknown_notes("[settings]"@, text::views(raw.settings.unknown@));
    let c = validate::level_step(raw.settings.log_level).1;
    assert(elsewhere(a) && elsewhere(b) && elsewhere(c));
    lemma_elsewhere_joined(a, b);
    lemma_elsewhere_joined(a + b, c);
    lemma_elsewhere(validate::top_notes(raw), note);
    assert(elsewhere(validate::empty_notes(raw)));
    lemma_elsewhere(validate::empty_notes(raw), note);
}

} // verus!
