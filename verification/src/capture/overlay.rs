//! The part git cannot restore from history: uncommitted, untracked and gitignored
//! files, filtered through the profile's rule tree.

use crate::capture::{Contribution, ContributionView};
use crate::config::rules;
use crate::config::rules::{Path, RuleTree, TreeModel, Verdict};
use crate::git::read;
use crate::git::read::nul_fields;
use crate::octets;
use crate::octets::{copy_bytes, extend, range};
use crate::plan;
use crate::plan::{FileKind, RepoRoot};
use crate::primitives::path;
use crate::primitives::path::{holds_git, AbsPath, PathFault, TreePath, SLASH};
use crate::process;
use crate::process::{git, Call, Output, RunError, Timeout};
use crate::text;
use crate::text::cat3;
use vstd::prelude::*;
use vstd::utf8::*;

verus! {

/// A path git reported, and whether it is a directory it did not descend into.
#[derive(Debug)]
pub struct Reported {
    pub path: AbsPath,
    pub directory: bool,
}

pub open spec fn reported_views(v: Seq<Reported>) -> Seq<(Path, bool)> {
    v.map_values(|r: Reported| (r.path@, r.directory))
}

/// The call that lists what is not in a repository's history.
pub fn overlay_call(source: &AbsPath) -> (out: Call)
    ensures
        out@ == process::git_call(
            Some(source@),
            seq![
                "status"@,
                "--porcelain=v1"@,
                "-z"@,
                "--untracked-files=all"@,
                "--ignored=traditional"@,
            ],
            Timeout::Work,
        ),
{
    let args: Vec<&str> = vec![
        "status",
        "--porcelain=v1",
        "-z",
        "--untracked-files=all",
        "--ignored=traditional",
    ];
    assert(process::str_views(args@) =~= seq![
        "status"@,
        "--porcelain=v1"@,
        "-z"@,
        "--untracked-files=all"@,
        "--ignored=traditional"@,
    ]);
    git(Some(source), args, Timeout::Work)
}

/// Whether a record is followed by an old path, which is not a second entry.
pub open spec fn is_move(record: Seq<u8>) -> bool {
    record.len() > 0 && (record[0] == 82 || record[0] == 67)
}

/// The relative paths the records from `at` on report.
pub open spec fn reported_from(fields: Seq<Seq<u8>>, at: int) -> Seq<Seq<u8>>
    decreases fields.len() - at,
{
    if at >= fields.len() {
        Seq::empty()
    } else if fields[at].len() < 4 {
        reported_from(fields, at + 1)
    } else {
        seq![fields[at].skip(3)] + reported_from(
            fields,
            if is_move(fields[at]) && at + 2 <= fields.len() {
                at + 2
            } else {
                at + 1
            },
        )
    }
}

/// A relative path under a source, written out.
pub open spec fn located_raw(source: Path, relative: Seq<u8>) -> Seq<u8> {
    crate::primitives::path::written(source) + seq![crate::primitives::path::separator(source)]
        + relative
}

pub open spec fn located(source: Path, relative: Seq<u8>) -> Result<Path, PathFault> {
    let raw = located_raw(source, relative);
    crate::primitives::path::cleaned_on(
        crate::primitives::path::has_drive(source),
        raw,
        octets::lossy(raw),
    )
}

pub open spec fn ends_at_slash(relative: Seq<u8>) -> bool {
    relative.len() > 0 && relative.last() == SLASH
}

/// The first `n` of the relative paths as paths, and what is said of those that name none.
pub open spec fn placed(source: Path, relatives: Seq<Seq<u8>>, n: int) -> (
    Seq<(Path, bool)>,
    Seq<Seq<char>>,
)
    decreases n,
{
    if n <= 0 {
        (Seq::empty(), Seq::empty())
    } else {
        let before = placed(source, relatives, n - 1);
        let relative = relatives[n - 1];
        match located(source, relative) {
            Ok(p) => (before.0.push((p, ends_at_slash(relative))), before.1),
            Err(fault) => (
                before.0,
                before.1.push(
                    octets::lossy(located_raw(source, relative)) + ": "@ + fault.message(),
                ),
            ),
        }
    }
}

fn relatives_of(fields: &Vec<Vec<u8>>) -> (out: Vec<Vec<u8>>)
    ensures
        octets::byte_views(out@) == reported_from(octets::byte_views(fields@), 0),
{
    let ghost all = octets::byte_views(fields@);
    let ghost goal = reported_from(all, 0);
    let n: usize = fields.len();
    let mut out: Vec<Vec<u8>> = Vec::new();
    let mut at: usize = 0;
    assert(octets::byte_views(out@) + goal =~= goal);
    while at < n
        invariant
            at <= n == fields@.len(),
            all == octets::byte_views(fields@),
            octets::byte_views(out@) + reported_from(all, at as int) == goal,
        decreases n - at,
    {
        let record = &fields[at];
        assert(all[at as int] == record@);
        let len: usize = record.len();
        if len < 4 {
            at = at + 1;
            continue ;
        }
        let relative = range(record, 3, len);
        assert(relative@ =~= record@.skip(3));
        let moved = record[0] == 82 || record[0] == 67;
        let ghost before = octets::byte_views(out@);
        let ghost r = relative@;
        out.push(relative);
        let ghost next = if moved && n - at >= 2 {
            at + 2
        } else {
            at + 1
        };
        proof {
            assert(octets::byte_views(out@) =~= before.push(r));
            assert(before + (seq![r] + reported_from(all, next)) =~= octets::byte_views(out@)
                + reported_from(all, next));
        }
        if moved && n - at >= 2 {
            at = at + 2;
        } else {
            at = at + 1;
        }
    }
    assert(reported_from(all, at as int) =~= Seq::<Seq<u8>>::empty());
    assert(octets::byte_views(out@) + Seq::<Seq<u8>>::empty() =~= octets::byte_views(out@));
    out
}

/// What git reports beyond a repository's history: the paths to look at, and the warnings
/// beside them.
///
/// A call that ran and failed is a warning too: an empty overlay with no warning at all is the
/// failure this is built to prevent.
pub fn overlay(repo: &RepoRoot, status: Result<Output, RunError>) -> (out: (
    Vec<Reported>,
    Contribution,
))
    ensures
        out.1@.files.len() == 0,
        out.1@.generated.len() == 0,
        match status {
            Err(_) => {
                &&& out.0@.len() == 0
                &&& out.1@.warnings == seq![repo.key@ + ": could not read status"@]
            },
            Ok(o) => if !o.success {
                &&& out.0@.len() == 0
                &&& out.1@.warnings == seq![
                    repo.key@
                        + ": git status failed, so no uncommitted or gitignored file was captured from it: "@
                        + o.complaint(),
                ]
            } else {
                let relatives = reported_from(
                    read::filled_pieces(text::split(o.stdout@, 0u8)),
                    0,
                );
                let found = placed(repo.source@, relatives, relatives.len() as int);
                &&& reported_views(out.0@) == found.0
                &&& out.1@.warnings == found.1
            },
        },
{
    let mut contribution = Contribution::default();
    let mut reported: Vec<Reported> = Vec::new();
    let status = match status {
        Ok(status) => status,
        Err(_) => {
            contribution.warn(text::cat2(&repo.key, ": could not read status"));
            assert(contribution@.warnings =~= seq![repo.key@ + ": could not read status"@]);
            return (reported, contribution);
        },
    };
    if !status.success {
        contribution.warn(
            cat3(
                &repo.key,
                ": git status failed, so no uncommitted or gitignored file was captured from it: ",
                &status.error_text(),
            ),
        );
        assert(contribution@.warnings =~= seq![
            repo.key@
                + ": git status failed, so no uncommitted or gitignored file was captured from it: "@
                + status.complaint(),
        ]);
        return (reported, contribution);
    }
    let fields = nul_fields(&status.stdout);
    let relatives = relatives_of(&fields);
    let ghost all = octets::byte_views(relatives@);
    let base = repo.source.as_path();
    let mut i: usize = 0;
    assert(reported_views(reported@) =~= placed(repo.source@, all, 0).0);
    while i < relatives.len()
        invariant
            i <= relatives@.len(),
            all == octets::byte_views(relatives@),
            base@ == crate::primitives::path::written(repo.source@),
            contribution@.files.len() == 0,
            contribution@.generated.len() == 0,
            reported_views(reported@) == placed(repo.source@, all, i as int).0,
            contribution@.warnings == placed(repo.source@, all, i as int).1,
        decreases relatives@.len() - i,
    {
        let relative = &relatives[i];
        assert(all[i as int] == relative@);
        let mut full = copy_bytes(&base);
        full.push(repo.source.separator());
        extend(&mut full, relative);
        assert(full@ =~= located_raw(repo.source@, relative@));
        let directory = relative.len() > 0 && relative[relative.len() - 1] == SLASH;
        match AbsPath::from_absolute_on(repo.source.on_drive(), &full) {
            Ok(path) => {
                let ghost before = reported_views(reported@);
                let ghost row = (path@, directory);
                reported.push(Reported { path, directory });
                assert(reported_views(reported@) =~= before.push(row));
            },
            Err(error) => {
                let shown = octets::lossy_text(&full);
                contribution.warn(cat3(&shown, ": ", &error.text()));
            },
        }
        i += 1;
    }
    (reported, contribution)
}

// ---------------------------------------------------------------------------
// One file
// ---------------------------------------------------------------------------

/// Where a path of a repository is stored in its overlay.
pub open spec fn overlay_raw(key: Seq<char>, relative: Path) -> Seq<u8> {
    encode_utf8(".tycho/repos/"@ + key + "/overlay/"@) + text::join(relative, seq![SLASH])
}

/// What a path adds to a contribution: nothing unless the rules capture it and it can be stored
/// as a blob, and then itself or why it cannot be held.
///
/// `--ignored` reports every gitignored path, which on a working machine means tens of gigabytes
/// of build output. This filter is the only reason the overlay does not swallow it.
pub open spec fn taken(
    c: ContributionView,
    path: Path,
    kind: Option<FileKind>,
    source: Path,
    key: Seq<char>,
    t: TreeModel,
) -> ContributionView {
    let raw = overlay_raw(key, path.skip(source.len() as int));
    if t.resolved(path).verdict != Verdict::Capture || kind is None
        || kind->0.stored_mode() is None || !crate::primitives::path::holds_path(source, path) {
        c
    } else if crate::primitives::path::is_tree_path(raw) {
        ContributionView {
            files: c.files.push((path, crate::primitives::path::components(raw))),
            ..c
        }
    } else {
        c.warned(plan::shown(path) + ": "@ + crate::primitives::path::tree_fault(raw))
    }
}

/// What a path turned out to be, where that could be told.
pub open spec fn kind_of(kind: Result<FileKind, String>) -> Option<FileKind> {
    match kind {
        Ok(kind) => Some(kind),
        Err(_) => None,
    }
}

pub fn take(
    contribution: &mut Contribution,
    path: &AbsPath,
    kind: &Result<FileKind, String>,
    repo: &RepoRoot,
    rules: &RuleTree,
)
    requires
        rules@.wf(),
        path@.len() < usize::MAX,
    ensures
        final(contribution)@ == taken(
            old(contribution)@,
            path@,
            kind_of(*kind),
            repo.source@,
            repo.key@,
            rules@,
        ),
{
    if !rules.captures(path) {
        return ;
    }
    let kind = match kind {
        Ok(kind) => *kind,
        Err(_) => return ,
    };
    if kind.mode().is_none() {
        return ;
    }
    if !repo.source.contains(path) {
        return ;
    }
    let prefix = cat3(".tycho/repos/", &repo.key, "/overlay/");
    let mut joined = copy_bytes(prefix.as_str().as_bytes());
    let depth: usize = repo.source.depth();
    let parts = path.parts();
    let ghost relative = path@.skip(depth as int);
    let mut tail: Vec<Vec<u8>> = Vec::new();
    let mut i: usize = depth;
    assert(octets::byte_views(tail@) =~= relative.take(0));
    while i < parts.len()
        invariant
            depth <= i <= parts@.len(),
            octets::byte_views(parts@) == path@,
            relative == path@.skip(depth as int),
            octets::byte_views(tail@) == relative.take(i - depth),
        decreases parts@.len() - i,
    {
        let ghost before = octets::byte_views(tail@);
        tail.push(copy_bytes(&parts[i]));
        i += 1;
        proof {
            assert(octets::byte_views(parts@)[i - 1] == parts@[i - 1]@);
            assert(octets::byte_views(tail@) =~= before.push(parts@[i - 1]@));
            assert(octets::byte_views(tail@) =~= relative.take(i - depth));
        }
    }
    assert(relative.take(i - depth) =~= relative);
    let slash: Vec<u8> = vec![SLASH];
    assert(slash@ =~= seq![SLASH]);
    extend(&mut joined, &octets::join_bytes(&tail, &slash));
    let ghost raw = overlay_raw(repo.key@, relative);
    assert(joined@ == raw);
    match TreePath::parse(&joined) {
        Ok(stored) => {
            let ghost before = contribution@;
            let source = path.clone();
            let ghost row = (source@, stored@);
            contribution.files.push((source, stored));
            assert(contribution@.files =~= before.files.push(row));
        },
        Err(error) => {
            proof {
                path::lemma_tree_fault(raw, error);
            }
            contribution.warn(cat3(&path.text(), ": ", &error.text()));
        },
    }
}

// ---------------------------------------------------------------------------
// Whole directories
// ---------------------------------------------------------------------------

/// An entry of a directory's listing.
#[derive(Debug)]
pub struct Found {
    pub path: AbsPath,
    pub kind: Result<FileKind, String>,
}

/// Git reports an untracked directory - including an untracked nested repository -
/// as one collapsed entry and does not descend into it. Copying that wholesale would
/// put the nested repository's `.git` into the store tree as loose files, so Tycho
/// walks it itself and stops at any repository root the plan already found.
#[derive(Debug)]
pub struct Expansion {
    stack: Vec<AbsPath>,
}

/// The next directory that is no repository root, and what is left behind it.
pub open spec fn next_of(stack: Seq<Path>, nested: Seq<Path>) -> Option<(Path, Seq<Path>)>
    decreases stack.len(),
{
    if stack.len() == 0 {
        None
    } else if nested.contains(stack.last()) {
        next_of(stack.drop_last(), nested)
    } else {
        Some((stack.last(), stack.drop_last()))
    }
}

/// What one entry adds to a contribution and to the directories left to list.
pub open spec fn with_found(
    state: (ContributionView, Seq<Path>),
    path: Path,
    kind: Option<FileKind>,
    source: Path,
    key: Seq<char>,
    t: TreeModel,
) -> (ContributionView, Seq<Path>) {
    if crate::primitives::path::any_git(path) {
        state
    } else {
        match kind {
            None => (
                state.0.warned(key + ": could not read "@ + plan::shown(path)),
                state.1,
            ),
            Some(FileKind::Directory) => if t.resolved(path).verdict == Verdict::Capture
                || t.may_capture_under(path) {
                (state.0, state.1.push(path))
            } else {
                state
            },
            Some(_) => (taken(state.0, path, kind, source, key, t), state.1),
        }
    }
}

pub open spec fn with_found_all(
    state: (ContributionView, Seq<Path>),
    found: Seq<Found>,
    source: Path,
    key: Seq<char>,
    t: TreeModel,
    n: int,
) -> (ContributionView, Seq<Path>)
    decreases n,
{
    if n <= 0 {
        state
    } else {
        with_found(
            with_found_all(state, found, source, key, t, n - 1),
            found[n - 1].path@,
            kind_of(found[n - 1].kind),
            source,
            key,
            t,
        )
    }
}

impl View for Expansion {
    type V = Seq<Path>;

    closed spec fn view(&self) -> Seq<Path> {
        rules::path_views(self.stack@)
    }
}

fn any_path(paths: &[AbsPath], path: &AbsPath) -> (out: bool)
    ensures
        out == rules::path_views(paths@).contains(path@),
{
    let mut i: usize = 0;
    while i < paths.len()
        invariant
            i <= paths@.len(),
            forall|j: int| 0 <= j < i ==> rules::path_views(paths@)[j] != path@,
        decreases paths@.len() - i,
    {
        assert(rules::path_views(paths@)[i as int] == paths@[i as int]@);
        if paths[i].same(path) {
            return true;
        }
        i += 1;
    }
    false
}

impl Expansion {
    /// Begins with one directory.
    pub fn new(dir: &AbsPath) -> (out: Expansion)
        ensures
            out@ == seq![dir@],
    {
        let out = Expansion { stack: vec![dir.clone()] };
        assert(rules::path_views(out.stack@) =~= seq![dir@]);
        out
    }

    /// The next directory to list, passing over the repository roots the plan found.
    pub fn next(&mut self, nested: &[AbsPath]) -> (out: Option<AbsPath>)
        ensures
            match out {
                Some(dir) => next_of(old(self)@, rules::path_views(nested@)) == Some(
                    (dir@, final(self)@),
                ),
                None => next_of(old(self)@, rules::path_views(nested@)) is None,
            },
    {
        let ghost roots = rules::path_views(nested@);
        let ghost start = next_of(self@, roots);
        loop
            invariant
                roots == rules::path_views(nested@),
                start == next_of(old(self)@, roots),
                next_of(self@, roots) == start,
            decreases self.stack@.len(),
        {
            let ghost before = self@;
            let dir = match self.stack.pop() {
                None => return None,
                Some(dir) => dir,
            };
            proof {
                assert(before.last() == dir@);
                assert(self@ =~= before.drop_last());
            }
            if !any_path(nested, &dir) {
                return Some(dir);
            }
        }
    }

    /// Takes what listing a directory came to, or that it could not be listed.
    pub fn visit(
        &mut self,
        contribution: &mut Contribution,
        dir: &AbsPath,
        listing: Option<Vec<Found>>,
        repo: &RepoRoot,
        rules: &RuleTree,
    )
        requires
            rules@.wf(),
            listing matches Some(found) ==> forall|i: int|
                0 <= i < found@.len() ==> (#[trigger] found@[i]).path@.len() < usize::MAX,
        ensures
            match listing {
                None => {
                    &&& final(self)@ == old(self)@
                    &&& final(contribution)@ == old(contribution)@.warned(
                        repo.key@ + ": could not read "@ + plan::shown(dir@),
                    )
                },
                Some(found) => (final(contribution)@, final(self)@) == with_found_all(
                    (old(contribution)@, old(self)@),
                    found@,
                    repo.source@,
                    repo.key@,
                    rules@,
                    found@.len() as int,
                ),
            },
    {
        let found = match listing {
            None => {
                contribution.warn(cat3(&repo.key, ": could not read ", &dir.text()));
                return ;
            },
            Some(found) => found,
        };
        let ghost start = (contribution@, self@);
        let mut i: usize = 0;
        while i < found.len()
            invariant
                i <= found@.len(),
                rules@.wf(),
                forall|i: int|
                    0 <= i < found@.len() ==> (#[trigger] found@[i]).path@.len() < usize::MAX,
                start == (old(contribution)@, old(self)@),
                (contribution@, self@) == with_found_all(
                    start,
                    found@,
                    repo.source@,
                    repo.key@,
                    rules@,
                    i as int,
                ),
            decreases found@.len() - i,
        {
            let item = &found[i];
            let ghost before = self@;
            if !holds_git(item.path.parts()) {
                match &item.kind {
                    Ok(FileKind::Directory) => {
                        if rules.captures(&item.path) || rules.may_contain_captures(&item.path) {
                            self.stack.push(item.path.clone());
                            assert(self@ =~= before.push(item.path@));
                        }
                    },
                    Ok(_) => {
                        take(contribution, &item.path, &item.kind, repo, rules);
                    },
                    Err(_) => {
                        contribution.warn(
                            cat3(&repo.key, ": could not read ", &item.path.text()),
                        );
                    },
                }
            }
            i += 1;
        }
    }
}

// ---------------------------------------------------------------------------
// Laws
// ---------------------------------------------------------------------------

/// An expansion never lists a repository root the plan already found.
pub proof fn an_expansion_stops_at_repositories(stack: Seq<Path>, nested: Seq<Path>)
    ensures
        next_of(stack, nested) matches Some(next) ==> !nested.contains(next.0),
    decreases stack.len(),
{
    if stack.len() > 0 && nested.contains(stack.last()) {
        an_expansion_stops_at_repositories(stack.drop_last(), nested);
    }
}

/// Whether every file of a contribution is one the rules capture, and lies in the repository.
pub open spec fn only_captured(c: ContributionView, source: Path, t: TreeModel) -> bool {
    forall|i: int|
        0 <= i < c.files.len() ==> {
            let f = #[trigger] c.files[i];
            &&& t.resolved(f.0).verdict == Verdict::Capture
            &&& crate::primitives::path::holds_path(source, f.0)
            &&& !crate::primitives::path::any_git(f.1)
        }
}

/// However a directory lists, an overlay holds only files of the repository that the rules
/// capture, and none under a `.git` component.
pub proof fn an_overlay_holds_only_what_the_rules_capture(
    state: (ContributionView, Seq<Path>),
    found: Seq<Found>,
    source: Path,
    key: Seq<char>,
    t: TreeModel,
    n: int,
)
    requires
        only_captured(state.0, source, t),
        0 <= n <= found.len(),
    ensures
        only_captured(with_found_all(state, found, source, key, t, n).0, source, t),
    decreases n,
{
    if n > 0 {
        an_overlay_holds_only_what_the_rules_capture(state, found, source, key, t, n - 1);
        let before = with_found_all(state, found, source, key, t, n - 1);
        let after = with_found_all(state, found, source, key, t, n);
        assert forall|i: int| 0 <= i < after.0.files.len() implies {
            let f = #[trigger] after.0.files[i];
            &&& t.resolved(f.0).verdict == Verdict::Capture
            &&& crate::primitives::path::holds_path(source, f.0)
            &&& !crate::primitives::path::any_git(f.1)
        } by {
            if i < before.0.files.len() {
                assert(after.0.files[i] == before.0.files[i]);
            }
        }
    }
}

/// What a list of records reports does not depend on what stands before it.
proof fn lemma_reported_shift(fields: Seq<Seq<u8>>, at: int)
    requires
        0 <= at <= fields.len(),
    ensures
        reported_from(fields, at) == reported_from(fields.skip(at), 0),
{
    lemma_reported_same(fields, at, fields.skip(at), 0);
}

proof fn lemma_reported_same(a: Seq<Seq<u8>>, i: int, b: Seq<Seq<u8>>, j: int)
    requires
        0 <= i <= a.len(),
        0 <= j <= b.len(),
        a.len() - i == b.len() - j,
        forall|k: int| 0 <= k < a.len() - i ==> #[trigger] a[i + k] == b[j + k],
    ensures
        reported_from(a, i) == reported_from(b, j),
    decreases a.len() - i,
{
    if i < a.len() {
        assert(a[i + 0] == b[j + 0]);
        let step: int = if a[i].len() >= 4 && is_move(a[i]) && i + 2 <= a.len() {
            2
        } else {
            1
        };
        assert forall|k: int| 0 <= k < a.len() - (i + step) implies #[trigger] a[i + step + k] == b[j
            + step + k] by {
            assert(a[i + (step + k)] == b[j + (step + k)]);
        }
        lemma_reported_same(a, i + step, b, j + step);
    }
}

/// Every record that is no move reports the path behind its two letters and the space, in order.
pub proof fn records_report_their_paths(head: Seq<Seq<u8>>, more: Seq<Seq<u8>>)
    requires
        forall|i: int|
            0 <= i < head.len() ==> (#[trigger] head[i]).len() >= 4 && head[i][0] != 82
                && head[i][0] != 67,
    ensures
        reported_from(head + more, 0) == head.map_values(|r: Seq<u8>| r.skip(3)) + reported_from(
            more,
            0,
        ),
    decreases head.len(),
{
    let all = head + more;
    if head.len() == 0 {
        assert(all =~= more);
        assert(head.map_values(|r: Seq<u8>| r.skip(3)) + reported_from(more, 0) =~= reported_from(
            more,
            0,
        ));
    } else {
        let rest = head.skip(1);
        assert(all[0] == head[0]);
        lemma_reported_shift(all, 1);
        assert(all.skip(1) =~= rest + more);
        assert forall|i: int| 0 <= i < rest.len() implies (#[trigger] rest[i]).len() >= 4
            && rest[i][0] != 82 && rest[i][0] != 67 by {
            assert(rest[i] == head[i + 1]);
        }
        records_report_their_paths(rest, more);
        assert(seq![head[0].skip(3)] + (rest.map_values(|r: Seq<u8>| r.skip(3)) + reported_from(
            more,
            0,
        )) =~= head.map_values(|r: Seq<u8>| r.skip(3)) + reported_from(more, 0));
    }
}

/// A rename or a copy reports where it went, and not the old path behind it.
pub proof fn a_move_reports_where_it_went(record: Seq<u8>, old: Seq<u8>, more: Seq<Seq<u8>>)
    requires
        record.len() >= 4,
        record[0] == 82 || record[0] == 67,
    ensures
        reported_from(seq![record, old] + more, 0) == seq![record.skip(3)] + reported_from(more, 0),
{
    let all = seq![record, old] + more;
    assert(all[0] == record);
    lemma_reported_shift(all, 2);
    assert(all.skip(2) =~= more);
}

/// A reported path lies beneath its repository by the names between its slashes, unless one of them
/// is `..`.
pub proof fn a_reported_path_lies_beneath_its_repository(source: Path, relative: Seq<u8>)
    requires
        path::absolute_parts(source),
    ensures
        located(source, relative) is Ok == !path::components_under(source, relative).contains(
            seq![46u8, 46u8],
        ),
        located(source, relative) matches Ok(p) ==> source.is_prefix_of(p) && p.skip(
            source.len() as int,
        ) == path::components_under(source, relative),
{
    let raw = located_raw(source, relative);
    path::lemma_components_beneath(source, relative, octets::lossy(raw));
    let below = path::components_under(source, relative);
    assert(path::dot_dot() =~= seq![46u8, 46u8]);
    if let Ok(p) = located(source, relative) {
        assert(p == source + below);
        assert(source =~= p.subrange(0, source.len() as int));
        assert(p.skip(source.len() as int) =~= below);
    }
}

/// Each reported path is placed, or what is wrong with it is said: none is dropped, and their order
/// is kept.
pub proof fn every_report_is_placed_or_told(source: Path, relatives: Seq<Seq<u8>>, n: int)
    requires
        0 <= n <= relatives.len(),
    ensures
        placed(source, relatives, n).0.len() + placed(source, relatives, n).1.len() == n,
        forall|i: int|
            0 <= i < n ==> (located(source, #[trigger] relatives[i]) matches Ok(p) ==> placed(
                source,
                relatives,
                n,
            ).0.contains((p, relatives[i].len() > 0 && relatives[i].last() == SLASH))),
        forall|k: int|
            0 <= k < placed(source, relatives, n).0.len() ==> exists|i: int|
                0 <= i < n && located(source, #[trigger] relatives[i]) == Ok::<Path, PathFault>(
                    (#[trigger] placed(source, relatives, n).0[k]).0,
                ),
    decreases n,
{
    if n > 0 {
        every_report_is_placed_or_told(source, relatives, n - 1);
        let before = placed(source, relatives, n - 1);
        let after = placed(source, relatives, n);
        assert forall|i: int| 0 <= i < n implies (located(
            source,
            #[trigger] relatives[i],
        ) matches Ok(p) ==> after.0.contains(
            (p, relatives[i].len() > 0 && relatives[i].last() == SLASH),
        )) by {
            if let Ok(p) = located(source, relatives[i]) {
                let row = (p, relatives[i].len() > 0 && relatives[i].last() == SLASH);
                if i < n - 1 {
                    assert(before.0.contains(row));
                    let k = choose|k: int| 0 <= k < before.0.len() && before.0[k] == row;
                    assert(after.0[k] == row);
                } else {
                    assert(after.0[after.0.len() - 1] == row);
                }
            }
        }
        assert forall|k: int| 0 <= k < after.0.len() implies exists|i: int|
            0 <= i < n && located(source, #[trigger] relatives[i]) == Ok::<Path, PathFault>(
                (#[trigger] after.0[k]).0,
            ) by {
            if k < before.0.len() {
                assert(after.0[k] == before.0[k]);
                let i = choose|i: int|
                    0 <= i < n - 1 && located(source, #[trigger] relatives[i]) == Ok::<
                        Path,
                        PathFault,
                    >((#[trigger] before.0[k]).0);
                assert(located(source, relatives[i]) == Ok::<Path, PathFault>(after.0[k].0));
            } else {
                assert(located(source, relatives[n - 1]) == Ok::<Path, PathFault>(after.0[k].0));
            }
        }
    }
}

/// A file of an overlay is stored under its repository's key, by the components it has beneath the
/// repository.
pub proof fn an_overlay_mirrors_its_repository(key: Seq<char>, relative: Path)
    requires
        relative.len() > 0,
        path::all_components(relative),
    ensures
        path::components(overlay_raw(key, relative)) == seq![
            encode_utf8(".tycho"@),
            encode_utf8("repos"@),
        ] + path::components(encode_utf8(key)) + seq![encode_utf8("overlay"@)] + relative,
{
    let a = encode_utf8(".tycho"@);
    let b = encode_utf8("repos"@);
    let k = encode_utf8(key);
    let o = encode_utf8("overlay"@);
    let s = seq![SLASH];
    let body = text::join(relative, s);
    lemma_front(key);
    let raw = overlay_raw(key, relative);
    assert(raw =~= a + s + (b + s + (k + s + (o + s + body))));
    path::lemma_split_around(o, SLASH, body);
    path::lemma_split_around(k, SLASH, o + s + body);
    path::lemma_split_around(b, SLASH, k + s + (o + s + body));
    path::lemma_split_around(a, SLASH, b + s + (k + s + (o + s + body)));
    lemma_words();
    assert forall|i: int| 0 <= i < relative.len() implies !(#[trigger] relative[i]).contains(
        SLASH,
    ) by {
        assert(path::is_component(relative[i]));
    }
    path::lemma_split_join(relative, SLASH);
    path::lemma_named_keeps(relative);
    let ks = text::split(k, SLASH);
    path::lemma_named_keeps(seq![a]);
    path::lemma_named_keeps(seq![b]);
    path::lemma_named_keeps(seq![o]);
    path::lemma_named_add(seq![o], relative);
    path::lemma_named_add(ks, seq![o] + relative);
    path::lemma_named_add(seq![b], ks + (seq![o] + relative));
    path::lemma_named_add(seq![a], seq![b] + (ks + (seq![o] + relative)));
    assert(seq![a] + (seq![b] + (path::components(k) + (seq![o] + relative))) =~= seq![a, b]
        + path::components(k) + seq![o] + relative);
}

proof fn lemma_front(key: Seq<char>)
    ensures
        encode_utf8(".tycho/repos/"@ + key + "/overlay/"@) == encode_utf8(".tycho"@) + seq![SLASH]
            + (encode_utf8("repos"@) + seq![SLASH] + (encode_utf8(key) + seq![SLASH] + (encode_utf8(
            "overlay"@,
        ) + seq![SLASH]))),
{
    reveal_strlit(".tycho/repos/");
    reveal_strlit("/overlay/");
    reveal_strlit(".tycho");
    reveal_strlit("repos");
    reveal_strlit("overlay");
    let front = ".tycho/repos/"@;
    let back = "/overlay/"@;
    octets::lemma_encoded_together(front + key, back);
    octets::lemma_encoded_together(front, key);
    is_ascii_chars_encode_utf8(front);
    is_ascii_chars_encode_utf8(back);
    is_ascii_chars_encode_utf8(".tycho"@);
    is_ascii_chars_encode_utf8("repos"@);
    is_ascii_chars_encode_utf8("overlay"@);
    assert(encode_utf8(front) =~= encode_utf8(".tycho"@) + seq![SLASH] + encode_utf8("repos"@)
        + seq![SLASH]);
    assert(encode_utf8(back) =~= seq![SLASH] + encode_utf8("overlay"@) + seq![SLASH]);
    assert(encode_utf8(front + key + back) =~= encode_utf8(".tycho"@) + seq![SLASH] + (encode_utf8(
        "repos"@,
    ) + seq![SLASH] + (encode_utf8(key) + seq![SLASH] + (encode_utf8("overlay"@) + seq![SLASH]))));
}

proof fn lemma_words()
    ensures
        ({
            let a = encode_utf8(".tycho"@);
            let b = encode_utf8("repos"@);
            let o = encode_utf8("overlay"@);
            &&& path::is_component(a) && text::split(a, SLASH) == seq![a]
            &&& path::is_component(b) && text::split(b, SLASH) == seq![b]
            &&& path::is_component(o) && text::split(o, SLASH) == seq![o]
        }),
{
    reveal_strlit(".tycho");
    reveal_strlit("repos");
    reveal_strlit("overlay");
    is_ascii_chars_encode_utf8(".tycho"@);
    is_ascii_chars_encode_utf8("repos"@);
    is_ascii_chars_encode_utf8("overlay"@);
    lemma_word(encode_utf8(".tycho"@));
    lemma_word(encode_utf8("repos"@));
    lemma_word(encode_utf8("overlay"@));
}

proof fn lemma_word(w: Seq<u8>)
    requires
        w.len() > 2,
        forall|i: int| 0 <= i < w.len() ==> #[trigger] w[i] != SLASH,
    ensures
        path::is_component(w),
        text::split(w, SLASH) == seq![w],
{
    assert(seq![46u8].len() == 1 && path::dot_dot().len() == 2);
    assert(!w.contains(SLASH));
    path::lemma_split_join(seq![w], SLASH);
    assert(text::join(seq![w], seq![SLASH]) == w);
}

/// An expansion takes every file that the rules capture, or says why it cannot, and goes on into
/// every directory beneath which they capture anything. Only `.git` is passed over.
pub proof fn an_expansion_misses_nothing_captured(
    state: (ContributionView, Seq<Path>),
    file: Path,
    kind: Option<FileKind>,
    source: Path,
    key: Seq<char>,
    t: TreeModel,
    beneath: Path,
)
    requires
        !path::any_git(file),
        source.is_prefix_of(file),
    ensures
        ({
            let after = with_found(state, file, kind, source, key, t);
            &&& kind is None ==> after.0.warnings.len() == state.0.warnings.len() + 1
            &&& kind == Some(FileKind::Directory) && file.is_prefix_of(beneath) && t.resolved(
                beneath,
            ).verdict == Verdict::Capture ==> after.1 == state.1.push(file)
            &&& kind is Some && kind->0 != FileKind::Directory && !(kind->0 is Skip) && t.resolved(
                file,
            ).verdict == Verdict::Capture ==> after.0.files.len() == state.0.files.len() + 1
                && after.0.files.last().0 == file || after.0.warnings.len()
                == state.0.warnings.len() + 1
            &&& state.0.files.is_prefix_of(after.0.files)
            &&& state.1.is_prefix_of(after.1)
        }),
{
    path::containing_is_beginning_alike(source, file);
    path::containing_is_beginning_alike(file, beneath);
    if kind == Some(FileKind::Directory) && file.is_prefix_of(beneath) && t.resolved(file).verdict
        == Verdict::Skip && !t.may_capture_under(file) {
        crate::config::precedence::pruning_loses_nothing(t, file, beneath);
    }
}

/// The next directory is the topmost that is no repository; there is none only where every one left
/// is.
pub proof fn the_topmost_open_directory_is_next(stack: Seq<Path>, nested: Seq<Path>)
    ensures
        match next_of(stack, nested) {
            Some((dir, rest)) => exists|k: int|
                0 <= k < stack.len() && #[trigger] stack[k] == dir && rest == stack.take(k)
                    && !nested.contains(dir) && forall|j: int|
                    k < j < stack.len() ==> nested.contains(#[trigger] stack[j]),
            None => forall|k: int| 0 <= k < stack.len() ==> nested.contains(#[trigger] stack[k]),
        },
    decreases stack.len(),
{
    if stack.len() > 0 {
        let n = stack.len() - 1;
        let above = stack.drop_last();
        assert(stack[n] == stack.last());
        if nested.contains(stack.last()) {
            the_topmost_open_directory_is_next(above, nested);
            match next_of(above, nested) {
                Some((dir, rest)) => {
                    let k = choose|k: int|
                        0 <= k < above.len() && #[trigger] above[k] == dir && rest == above.take(k)
                            && !nested.contains(dir) && forall|j: int|
                            k < j < above.len() ==> nested.contains(#[trigger] above[j]);
                    assert(stack[k] == dir);
                    assert(stack.take(k) =~= above.take(k));
                    assert forall|j: int| k < j < stack.len() implies nested.contains(
                        #[trigger] stack[j],
                    ) by {
                        if j < n {
                            assert(above[j] == stack[j]);
                        }
                    }
                },
                None => {
                    assert forall|k: int| 0 <= k < stack.len() implies nested.contains(
                        #[trigger] stack[k],
                    ) by {
                        if k < n {
                            assert(above[k] == stack[k]);
                        }
                    }
                },
            }
        } else {
            assert(stack.take(n) =~= above);
            assert(stack[n] == stack.last());
        }
    }
}

/// An expansion passes over a directory that the rules skip with nothing beneath it that they
/// capture by name, and over every file that they skip.
pub proof fn an_expansion_takes_nothing_skipped(
    state: (ContributionView, Seq<Path>),
    found: Path,
    kind: FileKind,
    source: Path,
    key: Seq<char>,
    t: TreeModel,
)
    requires
        t.resolved(found).verdict == Verdict::Skip,
        forall|p: Path|
            #[trigger] t.explicit.dom().contains(p) && found.is_prefix_of(p)
                ==> t.explicit[p].verdict == Verdict::Skip,
    ensures
        with_found(state, found, Some(kind), source, key, t) == state,
{
    if t.may_capture_under(found) {
        let p = choose|p: Path|
            #[trigger] t.explicit.dom().contains(p) && path::holds_path(found, p)
                && t.explicit[p].verdict == Verdict::Capture;
        path::containing_is_beginning_alike(found, p);
        assert(t.explicit.dom().contains(p) && found.is_prefix_of(p));
    }
}

/// A file that an expansion takes is stored in the overlay of its repository, by the components it
/// has beneath the repository.
pub proof fn a_taken_file_is_stored_by_its_way_down(
    state: (ContributionView, Seq<Path>),
    source: Path,
    relative: Path,
    kind: FileKind,
    key: Seq<char>,
    t: TreeModel,
)
    requires
        relative.len() > 0,
        path::all_components(relative),
    ensures
        ({
            let after = with_found(state, source + relative, Some(kind), source, key, t);
            &&& state.0.files.is_prefix_of(after.0.files)
            &&& after.0.files.len() > state.0.files.len() ==> {
                &&& after.0.files.last().0 == source + relative
                &&& after.0.files.last().1 == seq![encode_utf8(".tycho"@), encode_utf8("repos"@)]
                    + path::components(encode_utf8(key)) + seq![encode_utf8("overlay"@)] + relative
            }
        }),
{
    let whole = source + relative;
    an_overlay_mirrors_its_repository(key, relative);
    assert(whole.skip(source.len() as int) =~= relative);
    let after = with_found(state, whole, Some(kind), source, key, t);
    assert(state.0.files =~= after.0.files.subrange(0, state.0.files.len() as int));
}

} // verus!
