//! The walk, entry classification, and the sanity gate that fails a run
//! whose root yielded nothing.

pub mod order;
pub mod traversal;
pub mod walk;

use crate::config::rules;
use crate::config::rules::{Hits, Path, RuleTree, Tier};
use crate::config::{Profile, WatchEntry};
use crate::octets;
use crate::primitives::bytes;
use crate::primitives::encode::FileMode;
use crate::primitives::names::BranchName;
use crate::primitives::oid::Oid;
use crate::primitives::path;
use crate::primitives::path::{AbsPath, TreePath};
use crate::text;
use crate::text::{cat3, cat7, decimal, same};
use crate::textmap;
use crate::textmap::TextMap;
use vstd::prelude::*;

verus! {

/// A root must lose more than half its entries before the guard fires, and only once
/// it had enough for the ratio to mean anything. Three files becoming one is noise;
/// eight thousand becoming three thousand is an event worth confirming once.
pub const SHRINK_RATIO_PERCENT: usize = 50;

pub const SHRINK_FLOOR: usize = 100;

/// How many repositories the dry run lists before it truncates.
pub const REPO_TABLE_ROWS: usize = 10;

#[derive(Debug, PartialEq, Eq)]
pub struct PlainFile {
    pub source: AbsPath,
    pub stored: TreePath,
    pub mode: FileMode,
    pub size: u64,
}

/// A captured repository. `key` is the store's identifier for it: the root alias,
/// then the repository's path relative to that root, each component percent-encoded
/// so it is legal in a refname.
#[derive(Debug, PartialEq, Eq)]
pub struct RepoRoot {
    pub source: AbsPath,
    pub key: String,
}

#[derive(Debug, PartialEq, Eq)]
pub enum Entry {
    Plain(PlainFile),
    Repo(RepoRoot),
}

/// Where a repository's `HEAD` points. A repository with no commits is `Unborn` -
/// not an error, and not representable as a missing branch name.
#[derive(Debug, PartialEq, Eq)]
pub enum RepoHead {
    Branch { name: BranchName, sha: Oid },
    Detached { sha: Oid },
    Unborn,
}

/// What the walk declines to store: neither a file, a link nor a directory.
#[derive(Clone, Copy, Debug, PartialEq, Eq, Structural)]
pub enum SkipReason {
    Socket,
    Fifo,
    Device,
}

/// What a path turned out to be.
#[derive(Clone, Copy, Debug, PartialEq, Eq, Structural)]
pub enum FileKind {
    Directory,
    Regular { executable: bool },
    Symlink,
    Skip(SkipReason),
}

/// A path the walk could not read, or deliberately did not store. Leaf failures are
/// warnings: one unreadable file is not a reason to lose the other fifty thousand.
#[allow(inconsistent_fields)]
#[derive(Debug, PartialEq, Eq)]
pub enum Warning {
    Unreadable { path: String, reason: String },
    Skipped { path: String, reason: SkipReason },
    NotStorable { path: String, reason: String },
}

#[derive(Debug, PartialEq, Eq)]
pub enum PlanError {
    RootUnreadable { root: String, reason: String },
    RootEmpty { root: String },
    RootShrank { root: String, before: usize, after: usize },
    BadAlias { root: String, reason: String },
}

#[derive(Debug)]
pub struct RootPlan {
    pub alias: String,
    pub root: AbsPath,
    pub entries: Vec<Entry>,
    pub warnings: Vec<Warning>,
    pub files: usize,
    pub bytes: u64,
}

/// Why a rule appears in the dry run's excluded table. The two halves answer
/// different questions, so each row says which.
#[derive(Clone, Copy, Debug, PartialEq, Eq, PartialOrd, Ord, Structural)]
pub enum ExcludeReason {
    IgnoreRule,
    GlobRule,
    DefaultJunk,
    MatchedNothing,
}

#[derive(Debug)]
pub struct Plan {
    pub roots: Vec<RootPlan>,
    /// What the rules threw away, and what they failed to throw away. A rule that
    /// matched nothing is the row that earns `--dry-run`: a typo'd ignore path is
    /// otherwise a silent no-op that commits gigabytes into permanent history.
    ///
    /// Only rules a person wrote can be reported as matching nothing. Most of the
    /// default junk patterns match nothing on any given tree, and listing
    /// them would bury the one row that matters.
    pub excluded: Vec<(String, ExcludeReason)>,
}

// ---------------------------------------------------------------------------
// What the types say
// ---------------------------------------------------------------------------

pub enum EntryView {
    Plain { source: Path, stored: Path, mode: FileMode, size: u64 },
    Repo { source: Path, key: Seq<char> },
}

impl View for Entry {
    type V = EntryView;

    open spec fn view(&self) -> EntryView {
        match self {
            Entry::Plain(f) => EntryView::Plain {
                source: f.source@,
                stored: f.stored@,
                mode: f.mode,
                size: f.size,
            },
            Entry::Repo(r) => EntryView::Repo { source: r.source@, key: r.key@ },
        }
    }
}

impl EntryView {
    pub open spec fn source(self) -> Path {
        match self {
            EntryView::Plain { source, .. } => source,
            EntryView::Repo { source, .. } => source,
        }
    }
}

pub open spec fn entry_views(entries: Seq<Entry>) -> Seq<EntryView> {
    entries.map_values(|e: Entry| e@)
}

#[allow(inconsistent_fields)]
pub enum WarningView {
    Unreadable { path: Seq<char>, reason: Seq<char> },
    Skipped { path: Seq<char>, reason: SkipReason },
    NotStorable { path: Seq<char>, reason: Seq<char> },
}

impl View for Warning {
    type V = WarningView;

    open spec fn view(&self) -> WarningView {
        match self {
            Warning::Unreadable { path, reason } => WarningView::Unreadable {
                path: path@,
                reason: reason@,
            },
            Warning::Skipped { path, reason } => WarningView::Skipped {
                path: path@,
                reason: *reason,
            },
            Warning::NotStorable { path, reason } => WarningView::NotStorable {
                path: path@,
                reason: reason@,
            },
        }
    }
}

pub open spec fn warning_views(warnings: Seq<Warning>) -> Seq<WarningView> {
    warnings.map_values(|w: Warning| w@)
}

/// A path as text.
pub open spec fn shown(p: Path) -> Seq<char> {
    octets::lossy(crate::primitives::path::written(p))
}

pub enum HeadView {
    Branch { name: Seq<char>, sha: Oid },
    Detached { sha: Oid },
    Unborn,
}

impl View for RepoHead {
    type V = HeadView;

    open spec fn view(&self) -> HeadView {
        match self {
            RepoHead::Branch { name, sha } => HeadView::Branch { name: name@, sha: *sha },
            RepoHead::Detached { sha } => HeadView::Detached { sha: *sha },
            RepoHead::Unborn => HeadView::Unborn,
        }
    }
}

impl FileKind {
    /// The mode a kind is stored under, where it is stored as a blob at all.
    pub open spec fn stored_mode(self) -> Option<FileMode> {
        match self {
            FileKind::Regular { executable } => Some(
                if executable {
                    FileMode::Executable
                } else {
                    FileMode::Regular
                },
            ),
            FileKind::Symlink => Some(FileMode::Symlink),
            _ => None,
        }
    }

    #[must_use]
    pub fn mode(self) -> (out: Option<FileMode>)
        ensures
            out == self.stored_mode(),
    {
        match self {
            FileKind::Regular { executable } => {
                if executable {
                    Some(FileMode::Executable)
                } else {
                    Some(FileMode::Regular)
                }
            },
            FileKind::Symlink => Some(FileMode::Symlink),
            _ => None,
        }
    }
}

impl PlanError {
    pub open spec fn message(self) -> Seq<char> {
        match self {
            PlanError::RootUnreadable { root, reason } => "watched root "@ + root@
                + " could not be read: "@ + reason@,
            PlanError::RootEmpty { root } => "watched root "@ + root@
                + " yielded nothing to back up; refusing to record an empty backup for it"@,
            PlanError::RootShrank { root, before, after } => "watched root "@ + root@
                + " dropped from "@ + text::decimal_text(before as nat) + " entries to "@
                + text::decimal_text(after as nat)
                + "; pass --allow-shrink if that is intended"@,
            PlanError::BadAlias { root, reason } => "watched root "@ + root@
                + " has no usable alias: "@ + reason@,
        }
    }

    pub fn text(&self) -> (out: String)
        ensures
            out@ == self.message(),
    {
        match self {
            PlanError::RootUnreadable { root, reason } => {
                text::cat4("watched root ", root, " could not be read: ", reason)
            },
            PlanError::RootEmpty { root } => cat3(
                "watched root ",
                root,
                " yielded nothing to back up; refusing to record an empty backup for it",
            ),
            PlanError::RootShrank { root, before, after } => cat7(
                "watched root ",
                root,
                " dropped from ",
                &decimal(*before as u64),
                " entries to ",
                &decimal(*after as u64),
                "; pass --allow-shrink if that is intended",
            ),
            PlanError::BadAlias { root, reason } => {
                text::cat4("watched root ", root, " has no usable alias: ", reason)
            },
        }
    }
}

impl ExcludeReason {
    pub open spec fn words(self) -> Seq<char> {
        match self {
            ExcludeReason::IgnoreRule => "ignore rule"@,
            ExcludeReason::GlobRule => "glob rule"@,
            ExcludeReason::DefaultJunk => "default junk"@,
            ExcludeReason::MatchedNothing => "matched nothing"@,
        }
    }

    #[must_use]
    pub fn label(self) -> (out: &'static str)
        ensures
            out@ == self.words(),
    {
        match self {
            ExcludeReason::IgnoreRule => "ignore rule",
            ExcludeReason::GlobRule => "glob rule",
            ExcludeReason::DefaultJunk => "default junk",
            ExcludeReason::MatchedNothing => "matched nothing",
        }
    }
}

/// The rules that decided a skip, by their text.
pub type Fired = TextMap<ExcludeReason>;

pub type Row = (Seq<char>, ExcludeReason);

/// The reason a rule of this tier gives for a skip.
pub open spec fn reason_of(tier: Tier) -> ExcludeReason {
    match tier {
        Tier::ExplicitPath => ExcludeReason::IgnoreRule,
        Tier::Glob => ExcludeReason::GlobRule,
        Tier::Junk => ExcludeReason::DefaultJunk,
    }
}

// ---------------------------------------------------------------------------
// Counting
// ---------------------------------------------------------------------------

/// How many of some entries are repositories.
pub open spec fn repos_in(entries: Seq<EntryView>) -> Seq<EntryView> {
    entries.filter(|e: EntryView| e is Repo)
}

pub open spec fn total_files(roots: Seq<RootPlan>) -> nat
    decreases roots.len(),
{
    if roots.len() == 0 {
        0
    } else {
        total_files(roots.drop_last()) + roots.last().files as nat
    }
}

pub open spec fn total_bytes(roots: Seq<RootPlan>) -> nat
    decreases roots.len(),
{
    if roots.len() == 0 {
        0
    } else {
        total_bytes(roots.drop_last()) + roots.last().bytes as nat
    }
}

pub open spec fn total_repos(roots: Seq<RootPlan>) -> nat
    decreases roots.len(),
{
    if roots.len() == 0 {
        0
    } else {
        total_repos(roots.drop_last()) + repos_in(entry_views(roots.last().entries@)).len()
    }
}

pub open spec fn all_warnings(roots: Seq<RootPlan>) -> Seq<WarningView>
    decreases roots.len(),
{
    if roots.len() == 0 {
        Seq::empty()
    } else {
        all_warnings(roots.drop_last()) + warning_views(roots.last().warnings@)
    }
}

/// What a list of borrowed repositories holds.
pub open spec fn repo_views(repos: Seq<&RepoRoot>) -> Seq<EntryView> {
    repos.map_values(|r: &RepoRoot| EntryView::Repo { source: r.source@, key: r.key@ })
}

impl RootPlan {
    /// Plain files plus repositories. What the sanity gate counts, because a root
    /// entirely inside a repository has no plain files and is still not empty.
    #[must_use]
    pub fn capturable(&self) -> (out: usize)
        ensures
            out == self.entries@.len(),
    {
        self.entries.len()
    }

    /// The repositories among the entries, in order.
    #[must_use]
    pub fn repos(&self) -> (out: Vec<&RepoRoot>)
        ensures
            repo_views(out@) == repos_in(entry_views(self.entries@)),
    {
        let ghost all = entry_views(self.entries@);
        let ghost keep = |e: EntryView| e is Repo;
        let mut out: Vec<&RepoRoot> = Vec::new();
        let mut i: usize = 0;
        proof {
            assert(all.take(0) =~= Seq::<EntryView>::empty());
            reveal(Seq::filter);
            assert(repo_views(out@) =~= all.take(0).filter(keep));
        }
        while i < self.entries.len()
            invariant
                i <= self.entries@.len(),
                all == entry_views(self.entries@),
                keep == (|e: EntryView| e is Repo),
                repo_views(out@) == all.take(i as int).filter(keep),
            decreases self.entries@.len() - i,
        {
            let ghost before = repo_views(out@);
            proof {
                reveal(Seq::filter);
                assert(all.take(i + 1).drop_last() =~= all.take(i as int));
                assert(all.take(i + 1).last() == self.entries@[i as int]@);
            }
            match &self.entries[i] {
                Entry::Repo(repo) => {
                    out.push(repo);
                    assert(repo_views(out@) =~= before.push(self.entries@[i as int]@));
                },
                Entry::Plain(_) => {},
            }
            i += 1;
        }
        assert(all.take(i as int) =~= all);
        out
    }
}

proof fn lemma_files_grow(roots: Seq<RootPlan>, n: int)
    requires
        0 <= n <= roots.len(),
    ensures
        total_files(roots.take(n)) <= total_files(roots),
        total_bytes(roots.take(n)) <= total_bytes(roots),
        total_repos(roots.take(n)) <= total_repos(roots),
    decreases roots.len() - n,
{
    if n < roots.len() {
        lemma_files_grow(roots, n + 1);
        assert(roots.take(n + 1).drop_last() =~= roots.take(n));
    } else {
        assert(roots.take(n) =~= roots);
    }
}

impl Plan {
    /// The plain files of every root.
    #[must_use]
    pub fn files(&self) -> (out: usize)
        requires
            total_files(self.roots@) <= usize::MAX,
        ensures
            out == total_files(self.roots@),
    {
        let mut total: usize = 0;
        let mut i: usize = 0;
        while i < self.roots.len()
            invariant
                i <= self.roots@.len(),
                total_files(self.roots@) <= usize::MAX,
                total == total_files(self.roots@.take(i as int)),
            decreases self.roots@.len() - i,
        {
            proof {
                assert(self.roots@.take(i + 1).drop_last() =~= self.roots@.take(i as int));
                lemma_files_grow(self.roots@, i + 1);
            }
            total = total + self.roots[i].files;
            i += 1;
        }
        assert(self.roots@.take(i as int) =~= self.roots@);
        total
    }

    /// The size of every root's plain files together.
    #[must_use]
    pub fn bytes(&self) -> (out: u64)
        requires
            total_bytes(self.roots@) <= u64::MAX,
        ensures
            out == total_bytes(self.roots@),
    {
        let mut total: u64 = 0;
        let mut i: usize = 0;
        while i < self.roots.len()
            invariant
                i <= self.roots@.len(),
                total_bytes(self.roots@) <= u64::MAX,
                total == total_bytes(self.roots@.take(i as int)),
            decreases self.roots@.len() - i,
        {
            proof {
                assert(self.roots@.take(i + 1).drop_last() =~= self.roots@.take(i as int));
                lemma_files_grow(self.roots@, i + 1);
            }
            total = total + self.roots[i].bytes;
            i += 1;
        }
        assert(self.roots@.take(i as int) =~= self.roots@);
        total
    }

    /// The repositories of every root.
    #[must_use]
    pub fn repo_count(&self) -> (out: usize)
        requires
            total_repos(self.roots@) <= usize::MAX,
        ensures
            out == total_repos(self.roots@),
    {
        let mut total: usize = 0;
        let mut i: usize = 0;
        while i < self.roots.len()
            invariant
                i <= self.roots@.len(),
                total_repos(self.roots@) <= usize::MAX,
                total == total_repos(self.roots@.take(i as int)),
            decreases self.roots@.len() - i,
        {
            let repos = self.roots[i].repos();
            let count: usize = repos.len();
            proof {
                assert(self.roots@.take(i + 1).drop_last() =~= self.roots@.take(i as int));
                lemma_files_grow(self.roots@, i + 1);
                assert(repo_views(repos@).len() == count);
            }
            total = total + count;
            i += 1;
        }
        assert(self.roots@.take(i as int) =~= self.roots@);
        total
    }

    /// Every root's warnings, in the order the roots were walked.
    #[must_use]
    pub fn warnings(&self) -> (out: Vec<&Warning>)
        ensures
            out@.map_values(|w: &Warning| w@) == all_warnings(self.roots@),
    {
        let ghost seen = |w: &Warning| w@;
        let mut out: Vec<&Warning> = Vec::new();
        let mut i: usize = 0;
        assert(out@.map_values(seen) =~= all_warnings(self.roots@.take(0)));
        while i < self.roots.len()
            invariant
                i <= self.roots@.len(),
                seen == (|w: &Warning| w@),
                out@.map_values(seen) == all_warnings(self.roots@.take(i as int)),
            decreases self.roots@.len() - i,
        {
            let warnings = &self.roots[i].warnings;
            let ghost before = out@.map_values(seen);
            let ghost views = warning_views(warnings@);
            let mut j: usize = 0;
            assert(out@.map_values(seen) =~= before + views.take(0));
            while j < warnings.len()
                invariant
                    j <= warnings@.len(),
                    seen == (|w: &Warning| w@),
                    views == warning_views(warnings@),
                    out@.map_values(seen) == before + views.take(j as int),
                decreases warnings@.len() - j,
            {
                let ghost prior = out@.map_values(seen);
                out.push(&warnings[j]);
                j += 1;
                assert(out@.map_values(seen) =~= prior.push(warnings@[j - 1]@));
                assert(views.take(j as int) =~= views.take(j - 1).push(views[j - 1]));
                assert(out@.map_values(seen) =~= before + views.take(j as int));
            }
            proof {
                assert(views.take(j as int) =~= views);
                assert(self.roots@.take(i + 1).drop_last() =~= self.roots@.take(i as int));
            }
            i += 1;
        }
        assert(self.roots@.take(i as int) =~= self.roots@);
        out
    }
}

// ---------------------------------------------------------------------------
// The guard
// ---------------------------------------------------------------------------

/// Whether a drop is large enough to be worth confirming once: the ratio of the two counts, as
/// floating point holds them, is under a half. Under 2^53 a count is held exactly.
pub open spec fn is_shrink(before: nat, after: nat) -> bool {
    before >= SHRINK_FLOOR && 2 * bytes::rounded(after, 1) < bytes::rounded(before, 1)
}

/// Whether a drop is large enough to be worth confirming once.
#[must_use]
pub fn shrank(before: usize, after: usize) -> (out: bool)
    ensures
        out == is_shrink(before as nat, after as nat),
{
    let was: u128 = bytes::round_quotient(before as u128, 1);
    let is: u128 = bytes::round_quotient(after as u128, 1);
    before >= SHRINK_FLOOR && is * 100 < was * (SHRINK_RATIO_PERCENT as u128)
}

/// How many entries a root had last time, where it was there last time.
pub open spec fn previous_of(previous: Seq<(String, usize)>, alias: Seq<char>) -> Option<usize>
    decreases previous.len(),
{
    if previous.len() == 0 {
        None
    } else if previous[0].0@ == alias {
        Some(previous[0].1)
    } else {
        previous_of(previous.skip(1), alias)
    }
}

fn before_of(previous: &[(String, usize)], alias: &str) -> (out: Option<usize>)
    ensures
        out == previous_of(previous@, alias@),
{
    let mut i: usize = 0;
    assert(previous@.skip(0) =~= previous@);
    while i < previous.len()
        invariant
            i <= previous@.len(),
            previous_of(previous@, alias@) == previous_of(previous@.skip(i as int), alias@),
        decreases previous@.len() - i,
    {
        if same(&previous[i].0, alias) {
            return Some(previous[i].1);
        }
        assert(previous@.skip(i as int).skip(1) =~= previous@.skip(i + 1));
        i += 1;
    }
    None
}

/// Whether this is what the guard says of a walked root.
pub open spec fn gate_says(
    root: RootPlan,
    previous: Seq<(String, usize)>,
    allow_shrink: bool,
    said: Option<PlanError>,
) -> bool {
    let after = root.entries@.len();
    let before = previous_of(previous, root.alias@);
    if after == 0 {
        said matches Some(PlanError::RootEmpty { root: name }) && name@ == shown(root.root@)
    } else if !allow_shrink && before is Some && is_shrink(before->0 as nat, after) {
        said matches Some(PlanError::RootShrank { root: name, before: b, after: a }) && name@
            == shown(root.root@) && b == before->0 && a == after
    } else {
        said is None
    }
}

/// The sanity gate: a root that yielded nothing, or far less than last time, fails the run
/// rather than recording an empty backup.
pub fn gate(root: &RootPlan, previous: &[(String, usize)], allow_shrink: bool) -> (out: Option<
    PlanError,
>)
    ensures
        gate_says(*root, previous@, allow_shrink, out),
{
    let after: usize = root.capturable();
    if after == 0 {
        return Some(PlanError::RootEmpty { root: root.root.text() });
    }
    if allow_shrink {
        return None;
    }
    match before_of(previous, &root.alias) {
        Some(before) => {
            if shrank(before, after) {
                Some(PlanError::RootShrank { root: root.root.text(), before, after })
            } else {
                None
            }
        },
        None => None,
    }
}

/// The rules a person wrote that matched nothing, as rows: the paths that are not there, then
/// the globs that never fired.
pub open spec fn missing_rows(paths: Seq<Path>, present: Seq<bool>, n: int) -> Seq<Row>
    decreases n,
{
    if n <= 0 {
        Seq::empty()
    } else if present[n - 1] {
        missing_rows(paths, present, n - 1)
    } else {
        missing_rows(paths, present, n - 1).push(
            (shown(paths[n - 1]), ExcludeReason::MatchedNothing),
        )
    }
}

pub open spec fn silent_globs(patterns: Seq<Seq<char>>, hit: Seq<usize>, n: int) -> Seq<Row>
    decreases n,
{
    if n <= 0 {
        Seq::empty()
    } else if hit.contains((n - 1) as usize) {
        silent_globs(patterns, hit, n - 1)
    } else {
        silent_globs(patterns, hit, n - 1).push((patterns[n - 1], ExcludeReason::MatchedNothing))
    }
}

/// The texts of a tree's global globs.
pub open spec fn glob_texts(t: rules::TreeModel) -> Seq<Seq<char>> {
    Seq::new(t.glob_ids.len(), |i: int| t.metas[t.glob_ids[i].0 as int].text)
}

pub open spec fn unfired_rows(
    profile: Profile,
    t: rules::TreeModel,
    hit: Seq<usize>,
    present: Seq<bool>,
) -> Seq<Row> {
    let paths = rules::path_views(profile.ignore_paths@) + rules::path_views(
        profile.reinclude@,
    );
    missing_rows(paths, present, paths.len() as int) + silent_globs(
        glob_texts(t),
        hit,
        glob_texts(t).len() as int,
    )
}

fn holds_index(v: &[usize], x: usize) -> (out: bool)
    ensures
        out == v@.contains(x),
{
    let mut i: usize = 0;
    while i < v.len()
        invariant
            i <= v@.len(),
            forall|j: int| 0 <= j < i ==> v@[j] != x,
        decreases v@.len() - i,
    {
        if v[i] == x {
            return true;
        }
        i += 1;
    }
    false
}

fn push_missing(
    out: &mut Vec<(String, ExcludeReason)>,
    paths: &Vec<AbsPath>,
    present: &[bool],
    from: usize,
    Ghost(all): Ghost<Seq<Path>>,
)
    requires
        from + paths@.len() <= present@.len(),
        all.len() == present@.len(),
        all.subrange(from as int, from + paths@.len()) == rules::path_views(paths@),
        textmap::row_views(old(out)@) == missing_rows(all, present@, from as int),
    ensures
        textmap::row_views(final(out)@) == missing_rows(all, present@, from + paths@.len()),
{
    let mut i: usize = 0;
    let bound: usize = present.len();
    while i < paths.len()
        invariant
            i <= paths@.len(),
            bound == present@.len() == all.len(),
            from + paths@.len() <= bound,
            all.subrange(from as int, from + paths@.len()) == rules::path_views(paths@),
            textmap::row_views(out@) == missing_rows(all, present@, from + i),
        decreases paths@.len() - i,
    {
        let ghost before = textmap::row_views(out@);
        proof {
            assert(all[from + i] == all.subrange(from as int, from + paths@.len())[i as int]);
            assert(rules::path_views(paths@)[i as int] == paths@[i as int]@);
        }
        if !present[from + i] {
            out.push((paths[i].text(), ExcludeReason::MatchedNothing));
            assert(textmap::row_views(out@) =~= before.push(
                (shown(all[from + i]), ExcludeReason::MatchedNothing),
            ));
        }
        i += 1;
    }
}

/// Rules a person wrote that matched nothing: an ignore or reinclude path that does
/// not exist, and a glob that never fired. The default junk list is left out on
/// purpose - most of its patterns match nothing on any given tree, and
/// listing them would bury the one row that matters.
///
/// `present` says of each ignore path and then of each reinclude path whether it is there.
pub fn unfired(profile: &Profile, tree: &RuleTree, hits: &Hits, present: &[bool]) -> (out: Vec<
    (String, ExcludeReason),
>)
    requires
        tree@.wf(),
        present@.len() == profile.ignore_paths@.len() + profile.reinclude@.len(),
    ensures
        textmap::row_views(out@) == unfired_rows(*profile, tree@, hits.globs@, present@),
{
    let ghost all = rules::path_views(profile.ignore_paths@) + rules::path_views(
        profile.reinclude@,
    );
    let mut out: Vec<(String, ExcludeReason)> = Vec::new();
    let n: usize = profile.ignore_paths.len();
    proof {
        assert(all.subrange(0, n as int) =~= rules::path_views(profile.ignore_paths@));
        assert(all.subrange(n as int, n + profile.reinclude@.len()) =~= rules::path_views(
            profile.reinclude@,
        ));
        assert(textmap::row_views(out@) =~= missing_rows(all, present@, 0));
    }
    push_missing(&mut out, &profile.ignore_paths, present, 0, Ghost(all));
    push_missing(&mut out, &profile.reinclude, present, n, Ghost(all));
    let patterns = tree.glob_patterns();
    let ghost texts = glob_texts(tree@);
    let ghost missing = textmap::row_views(out@);
    let mut i: usize = 0;
    assert(missing + silent_globs(texts, hits.globs@, 0) =~= missing);
    while i < patterns.len()
        invariant
            i <= patterns@.len(),
            texts == glob_texts(tree@),
            patterns@.len() == tree@.glob_ids.len(),
            forall|j: int|
                0 <= j < patterns@.len() ==> (#[trigger] patterns@[j])@
                    == tree@.metas[tree@.glob_ids[j].0 as int].text,
            textmap::row_views(out@) == missing + silent_globs(texts, hits.globs@, i as int),
        decreases patterns@.len() - i,
    {
        let ghost before = silent_globs(texts, hits.globs@, i as int);
        if !holds_index(&hits.globs, i) {
            out.push((patterns[i].clone(), ExcludeReason::MatchedNothing));
            proof {
                assert(texts[i as int] == patterns@[i as int]@);
                let row = (texts[i as int], ExcludeReason::MatchedNothing);
                assert(textmap::row_views(out@) =~= (missing + before).push(row));
                assert((missing + before).push(row) =~= missing + before.push(row));
            }
        }
        i += 1;
    }
    out
}

/// The first root of a list that the guard refuses or that could not be walked.
pub open spec fn first_refused(
    walked: Seq<Result<RootPlan, PlanError>>,
    previous: Seq<(String, usize)>,
    allow_shrink: bool,
    at: int,
    e: PlanError,
) -> bool {
    &&& 0 <= at < walked.len()
    &&& forall|i: int| 0 <= i < at ==> passes(#[trigger] walked[i], previous, allow_shrink)
    &&& match walked[at] {
        Ok(root) => gate_says(root, previous, allow_shrink, Some(e)),
        Err(error) => e == error,
    }
}

pub open spec fn passes(
    walked: Result<RootPlan, PlanError>,
    previous: Seq<(String, usize)>,
    allow_shrink: bool,
) -> bool {
    walked matches Ok(root) && gate_says(root, previous, allow_shrink, None)
}

/// Whether the rows of an excluded table are the first `n` by rule, one for each that fired, and
/// behind them the given ones.
pub open spec fn excluded_as(
    rows: Seq<Row>,
    n: int,
    fired: Map<Seq<char>, ExcludeReason>,
    silent: Seq<Row>,
) -> bool {
    &&& 0 <= n <= rows.len()
    &&& text::sorted(textmap::row_keys(rows.take(n)))
    &&& textmap::row_map(rows.take(n)) == fired
    &&& rows.skip(n) == silent
}

/// The watched root that is walked next, by its place in the profile: the one behind those that
/// have been walked, and none once a root could not be walked.
pub fn next_root(profile: &Profile, walked: &[Result<RootPlan, PlanError>]) -> (out: Option<usize>)
    ensures
        out == if walked@.len() < profile.watch@.len() && (walked@.len() > 0 ==> walked@.last() is Ok) {
            Some(walked@.len() as usize)
        } else {
            None
        },
{
    let n: usize = walked.len();
    if n >= profile.watch.len() {
        return None;
    }
    if n > 0 && walked[n - 1].is_err() {
        return None;
    }
    Some(n)
}

/// Whether these are the watched roots of a profile as they were walked, in its order: every one
/// of them, or those up to the first that could not be.
pub open spec fn walked_roots(profile: Profile, walked: Seq<Result<RootPlan, PlanError>>) -> bool {
    &&& walked.len() <= profile.watch@.len()
    &&& walked.len() < profile.watch@.len() ==> walked.len() > 0 && walked.last() is Err
    &&& forall|i: int|
        0 <= i < walked.len() ==> ((#[trigger] walked[i]) matches Ok(root) ==> is_root_of(
            root,
            profile.watch@[i],
        ))
}

/// Whether a walked root is a watched one, under the name the store knows it by.
pub open spec fn is_root_of(root: RootPlan, entry: WatchEntry) -> bool {
    root.root@ == entry@.path && entry@.alias() == Some(root.alias@)
}

/// Puts the walked roots of a profile together and applies the guard to each in turn.
///
/// `walked` holds what each watched root's walk came to, in the profile's order; `fired` and
/// `hits` are what the walks recorded, and `present` is as for [`unfired`].
///
/// # Errors
///
/// If a root could not be read, yielded nothing, or shrank past the threshold without
/// `allow_shrink`.
pub fn build(
    profile: &Profile,
    tree: &RuleTree,
    walked: Vec<Result<RootPlan, PlanError>>,
    fired: Fired,
    hits: &Hits,
    present: &[bool],
    previous: &[(String, usize)],
    allow_shrink: bool,
) -> (out: Result<Plan, PlanError>)
    requires
        tree@.wf(),
        walked_roots(*profile, walked@),
        present@.len() == profile.ignore_paths@.len() + profile.reinclude@.len(),
    ensures
        match out {
            Ok(plan) => {
                &&& plan.roots@.len() == walked@.len()
                &&& plan.roots@.len() == profile.watch@.len()
                &&& forall|i: int|
                    0 <= i < plan.roots@.len() ==> is_root_of(
                        #[trigger] plan.roots@[i],
                        profile.watch@[i],
                    )
                &&& forall|i: int|
                    0 <= i < walked@.len() ==> #[trigger] walked@[i] == Ok::<RootPlan, PlanError>(
                        plan.roots@[i],
                    ) && passes(walked@[i], previous@, allow_shrink)
                &&& exists|n: int|
                    #[trigger] excluded_as(
                        textmap::row_views(plan.excluded@),
                        n,
                        fired@,
                        unfired_rows(*profile, tree@, hits.globs@, present@),
                    )
            },
            Err(e) => exists|at: int|
                #[trigger] first_refused(walked@, previous@, allow_shrink, at, e),
        },
{
    let ghost all = walked@;
    let mut roots: Vec<RootPlan> = Vec::new();
    let mut rest = walked;
    let ghost mut done: int = 0;
    let total: usize = rest.len();
    while rest.len() > 0
        invariant
            total == all.len(),
            all == walked@,
            roots@.len() + rest@.len() == all.len(),
            done == roots@.len(),
            rest@ == all.skip(done),
            forall|i: int|
                0 <= i < done ==> #[trigger] all[i] == Ok::<RootPlan, PlanError>(roots@[i])
                    && passes(all[i], previous@, allow_shrink),
        decreases rest@.len(),
    {
        let next = rest.remove(0);
        assert(next == all[done]);
        match next {
            Err(e) => {
                assert(first_refused(all, previous@, allow_shrink, done, e));
                return Err(e);
            },
            Ok(root) => {
                if let Some(e) = gate(&root, previous, allow_shrink) {
                    assert(first_refused(all, previous@, allow_shrink, done, e));
                    return Err(e);
                }
                roots.push(root);
            },
        }
        proof {
            assert(rest@ =~= all.skip(done + 1));
            done = done + 1;
        }
    }
    let mut excluded = fired.into_rows();
    let more = unfired(profile, tree, hits, present);
    let ghost rows = textmap::row_views(excluded@);
    let ghost added = textmap::row_views(more@);
    let ghost n = excluded@.len() as int;
    append_rows(&mut excluded, more);
    proof {
        let whole = textmap::row_views(excluded@);
        assert(whole.take(n) =~= rows);
        assert(whole.skip(n) =~= added);
        assert(excluded_as(
            whole,
            n,
            fired@,
            unfired_rows(*profile, tree@, hits.globs@, present@),
        ));
    }
    assert(roots@.len() == walked@.len());
    assert forall|i: int| 0 <= i < walked@.len() implies #[trigger] walked@[i] == Ok::<
        RootPlan,
        PlanError,
    >(roots@[i]) && passes(walked@[i], previous@, allow_shrink) by {
        assert(all[i] == walked@[i]);
    }
    proof {
        if walked@.len() < profile.watch@.len() {
            assert(walked@[walked@.len() - 1] is Ok);
        }
    }
    assert forall|i: int| 0 <= i < roots@.len() implies is_root_of(
        #[trigger] roots@[i],
        profile.watch@[i],
    ) by {
        assert(walked@[i] is Ok);
    }
    let plan = Plan { roots, excluded };
    assert(excluded_as(
        textmap::row_views(plan.excluded@),
        n,
        fired@,
        unfired_rows(*profile, tree@, hits.globs@, present@),
    ));
    Ok(plan)
}

fn append_rows(out: &mut Vec<(String, ExcludeReason)>, more: Vec<(String, ExcludeReason)>)
    ensures
        textmap::row_views(final(out)@) == textmap::row_views(old(out)@) + textmap::row_views(more@),
{
    let ghost rows = textmap::row_views(out@);
    let ghost added = textmap::row_views(more@);
    let mut i: usize = 0;
    assert(textmap::row_views(out@) =~= rows + added.take(0));
    while i < more.len()
        invariant
            i <= more@.len(),
            added == textmap::row_views(more@),
            textmap::row_views(out@) == rows + added.take(i as int),
        decreases more@.len() - i,
    {
        let ghost prior = textmap::row_views(out@);
        let rule = more[i].0.clone();
        out.push((rule, more[i].1));
        i += 1;
        assert(textmap::row_views(out@) =~= prior.push(added[i - 1]));
        assert(added.take(i as int) =~= added.take(i - 1).push(added[i - 1]));
        assert(textmap::row_views(out@) =~= rows + added.take(i as int));
    }
    assert(added.take(i as int) =~= added);
}

// ---------------------------------------------------------------------------
// Laws
// ---------------------------------------------------------------------------

/// Of counts that floating point holds exactly, a drop is a shrink just where fewer than half
/// are left of at least a hundred: losing nothing never is one, and losing more never makes one
/// stop being one.
pub proof fn shrinking_is_losing_half(before: nat, after: nat, fewer: nat)
    requires
        before < bytes::WIDE,
        after < bytes::WIDE,
        fewer <= after,
    ensures
        is_shrink(before, after) == (before >= SHRINK_FLOOR && 2 * after < before),
        !is_shrink(before, before),
        is_shrink(before, after) ==> is_shrink(before, fewer),
{
    bytes::lemma_small_is_exact(before);
    bytes::lemma_small_is_exact(after);
    bytes::lemma_small_is_exact(fewer);
}

/// No plan that passes the guard holds a root with nothing in it.
pub proof fn an_empty_root_never_passes(
    root: RootPlan,
    previous: Seq<(String, usize)>,
    allow_shrink: bool,
)
    requires
        passes(Ok(root), previous, allow_shrink),
    ensures
        root.entries@.len() > 0,
        !allow_shrink ==> (previous_of(previous, root.alias@) matches Some(before) ==> !is_shrink(
            before as nat,
            root.entries@.len(),
        )),
{
}

/// A root passes exactly where it holds something and, unless shrinking is allowed, has not lost
/// more than half of a hundred entries or more since last time.
pub proof fn a_root_passes_unless_it_emptied_or_shrank(
    root: RootPlan,
    previous: Seq<(String, usize)>,
    allow_shrink: bool,
    said: Option<PlanError>,
)
    requires
        gate_says(root, previous, allow_shrink, said),
        root.entries@.len() < bytes::WIDE,
        forall|i: int| 0 <= i < previous.len() ==> (#[trigger] previous[i]).1 < bytes::WIDE,
    ensures
        said is None == (root.entries@.len() > 0 && (allow_shrink || forall|i: int|
            0 <= i < previous.len() && (#[trigger] previous[i]).0@ == root.alias@ && (forall|j: int|
                0 <= j < i ==> (#[trigger] previous[j]).0@ != root.alias@) ==> previous[i].1 < 100
                || previous[i].1 <= 2 * root.entries@.len())),
        root.entries@.len() == 0 ==> (said matches Some(e) && e is RootEmpty),
        root.entries@.len() > 0 ==> (said matches Some(e) ==> e is RootShrank),
{
    let alias = root.alias@;
    lemma_previous(previous, alias);
    if let Some(n) = previous_of(previous, alias) {
        let i = choose|i: int|
            0 <= i < previous.len() && (#[trigger] previous[i]).0@ == alias && previous[i].1 == n
                && forall|j: int| 0 <= j < i ==> (#[trigger] previous[j]).0@ != alias;
        shrinking_is_losing_half(n as nat, root.entries@.len(), 0);
        assert(previous[i].0@ == root.alias@);
        if said is None && !allow_shrink {
            assert forall|k: int|
                0 <= k < previous.len() && (#[trigger] previous[k]).0@ == root.alias@ && (forall|
                    j: int,
                |
                    0 <= j < k ==> (#[trigger] previous[j]).0@ != root.alias@) implies previous[k].1
                < 100 || previous[k].1 <= 2 * root.entries@.len() by {
                if k < i {
                    assert(previous[k].0@ != alias);
                } else if i < k {
                    assert(previous[i].0@ != root.alias@);
                }
            }
        }
    }
}

proof fn lemma_previous(previous: Seq<(String, usize)>, alias: Seq<char>)
    ensures
        match previous_of(previous, alias) {
            Some(n) => exists|i: int|
                0 <= i < previous.len() && (#[trigger] previous[i]).0@ == alias && previous[i].1
                    == n && forall|j: int| 0 <= j < i ==> (#[trigger] previous[j]).0@ != alias,
            None => forall|i: int|
                0 <= i < previous.len() ==> (#[trigger] previous[i]).0@ != alias,
        },
    decreases previous.len(),
{
    if previous.len() > 0 && previous[0].0@ != alias {
        let rest = previous.skip(1);
        lemma_previous(rest, alias);
        match previous_of(rest, alias) {
            Some(n) => {
                let i = choose|i: int|
                    0 <= i < rest.len() && (#[trigger] rest[i]).0@ == alias && rest[i].1 == n
                        && forall|j: int| 0 <= j < i ==> (#[trigger] rest[j]).0@ != alias;
                assert(previous[i + 1] == rest[i]);
                assert forall|j: int| 0 <= j < i + 1 implies (#[trigger] previous[j]).0@
                    != alias by {
                    if j > 0 {
                        assert(rest[j - 1] == previous[j]);
                    }
                }
            },
            None => {
                assert forall|i: int| 0 <= i < previous.len() implies (#[trigger] previous[i]).0@
                    != alias by {
                    if i > 0 {
                        assert(rest[i - 1] == previous[i]);
                    }
                }
            },
        }
    } else if previous.len() > 0 {
        assert(previous[0].0@ == alias);
    }
}

/// A rule is reported as matching nothing exactly where its path is not there, or its glob never
/// fired.
pub proof fn a_rule_that_matched_nothing_is_reported(
    profile: Profile,
    t: rules::TreeModel,
    hit: Seq<usize>,
    present: Seq<bool>,
    row: Row,
)
    requires
        present.len() == profile.ignore_paths@.len() + profile.reinclude@.len(),
        t.glob_ids.len() <= usize::MAX,
    ensures
        unfired_rows(profile, t, hit, present).contains(row) == (row.1
            == ExcludeReason::MatchedNothing && ({
            ||| exists|i: int|
                0 <= i < profile.ignore_paths@.len() && !present[i] && row.0 == shown(
                    (#[trigger] profile.ignore_paths@[i])@,
                )
            ||| exists|i: int|
                0 <= i < profile.reinclude@.len() && !present[profile.ignore_paths@.len() + i]
                    && row.0 == shown((#[trigger] profile.reinclude@[i])@)
            ||| exists|i: int|
                0 <= i < t.glob_ids.len() && !hit.contains(i as usize) && row.0
                    == t.metas[(#[trigger] t.glob_ids[i]).0 as int].text
        })),
{
    let a = rules::path_views(profile.ignore_paths@);
    let b = rules::path_views(profile.reinclude@);
    let paths = a + b;
    let globs = glob_texts(t);
    let n = paths.len() as int;
    let k = globs.len() as int;
    lemma_missing(paths, present, n, row);
    lemma_silent(globs, hit, k, row);
    let first = missing_rows(paths, present, n);
    let second = silent_globs(globs, hit, k);
    lemma_either(first, second, row);
    if first.contains(row) {
        let i = choose|i: int|
            0 <= i < n && !present[i] && row == (
                shown(#[trigger] paths[i]),
                ExcludeReason::MatchedNothing,
            );
        if i < a.len() {
            assert(paths[i] == profile.ignore_paths@[i]@);
        } else {
            assert(paths[i] == profile.reinclude@[i - a.len()]@);
        }
    }
    if second.contains(row) {
        let i = choose|i: int|
            0 <= i < k && !hit.contains(i as usize) && row == (
                #[trigger] globs[i],
                ExcludeReason::MatchedNothing,
            );
        assert(globs[i] == t.metas[t.glob_ids[i].0 as int].text);
    }
    if row.1 == ExcludeReason::MatchedNothing {
        if exists|i: int|
            0 <= i < profile.ignore_paths@.len() && !present[i] && row.0 == shown(
                (#[trigger] profile.ignore_paths@[i])@,
            ) {
            let i = choose|i: int|
                0 <= i < profile.ignore_paths@.len() && !present[i] && row.0 == shown(
                    (#[trigger] profile.ignore_paths@[i])@,
                );
            assert(paths[i] == profile.ignore_paths@[i]@);
            assert(first.contains(row));
        }
        if exists|i: int|
            0 <= i < profile.reinclude@.len() && !present[profile.ignore_paths@.len() + i] && row.0
                == shown((#[trigger] profile.reinclude@[i])@) {
            let i = choose|i: int|
                0 <= i < profile.reinclude@.len() && !present[profile.ignore_paths@.len() + i]
                    && row.0 == shown((#[trigger] profile.reinclude@[i])@);
            assert(paths[a.len() + i] == profile.reinclude@[i]@);
            assert(first.contains(row));
        }
        if exists|i: int|
            0 <= i < t.glob_ids.len() && !hit.contains(i as usize) && row.0
                == t.metas[(#[trigger] t.glob_ids[i]).0 as int].text {
            let i = choose|i: int|
                0 <= i < t.glob_ids.len() && !hit.contains(i as usize) && row.0
                    == t.metas[(#[trigger] t.glob_ids[i]).0 as int].text;
            assert(globs[i] == row.0);
            assert(second.contains(row));
        }
    }
}

proof fn lemma_either(a: Seq<Row>, b: Seq<Row>, row: Row)
    ensures
        (a + b).contains(row) == (a.contains(row) || b.contains(row)),
{
    let all = a + b;
    if all.contains(row) {
        let i = choose|i: int| 0 <= i < all.len() && all[i] == row;
        if i < a.len() {
            assert(a[i] == row);
        } else {
            assert(b[i - a.len()] == row);
        }
    }
    if a.contains(row) {
        let i = choose|i: int| 0 <= i < a.len() && a[i] == row;
        assert(all[i] == row);
    }
    if b.contains(row) {
        let i = choose|i: int| 0 <= i < b.len() && b[i] == row;
        assert(all[a.len() + i] == row);
    }
}

proof fn lemma_missing(paths: Seq<Path>, present: Seq<bool>, n: int, row: Row)
    requires
        0 <= n <= paths.len(),
    ensures
        missing_rows(paths, present, n).contains(row) == exists|i: int|
            0 <= i < n && !present[i] && row == (
                shown(#[trigger] paths[i]),
                ExcludeReason::MatchedNothing,
            ),
    decreases n,
{
    if n > 0 {
        lemma_missing(paths, present, n - 1, row);
        let before = missing_rows(paths, present, n - 1);
        let last = (shown(paths[n - 1]), ExcludeReason::MatchedNothing);
        if !present[n - 1] {
            assert(before.push(last) =~= before + seq![last]);
            lemma_either(before, seq![last], row);
            assert(seq![last].contains(row) == (row == last)) by {
                assert(seq![last][0] == last);
            }
        }
    }
}

proof fn lemma_silent(patterns: Seq<Seq<char>>, hit: Seq<usize>, n: int, row: Row)
    requires
        0 <= n <= patterns.len(),
    ensures
        silent_globs(patterns, hit, n).contains(row) == exists|i: int|
            0 <= i < n && !hit.contains(i as usize) && row == (
                #[trigger] patterns[i],
                ExcludeReason::MatchedNothing,
            ),
    decreases n,
{
    if n > 0 {
        lemma_silent(patterns, hit, n - 1, row);
        let before = silent_globs(patterns, hit, n - 1);
        let last = (patterns[n - 1], ExcludeReason::MatchedNothing);
        if !hit.contains((n - 1) as usize) {
            assert(before.push(last) =~= before + seq![last]);
            lemma_either(before, seq![last], row);
            assert(seq![last].contains(row) == (row == last)) by {
                assert(seq![last][0] == last);
            }
        }
    }
}

/// The totals of two lists of roots together are those of each together, and one root's are its
/// own.
pub proof fn totals_are_sums(a: Seq<RootPlan>, b: Seq<RootPlan>, one: RootPlan)
    ensures
        total_files(a + b) == total_files(a) + total_files(b),
        total_bytes(a + b) == total_bytes(a) + total_bytes(b),
        total_repos(a + b) == total_repos(a) + total_repos(b),
        all_warnings(a + b) == all_warnings(a) + all_warnings(b),
        total_files(seq![one]) == one.files,
        total_bytes(seq![one]) == one.bytes,
        total_repos(seq![one]) == entry_views(one.entries@).filter(
            |e: EntryView| e is Repo,
        ).len(),
        all_warnings(seq![one]) == warning_views(one.warnings@),
    decreases b.len(),
{
    let alone = seq![one];
    assert(alone.drop_last() =~= Seq::<RootPlan>::empty());
    assert(alone.last() == one);
    assert(total_files(alone.drop_last()) == 0 && total_bytes(alone.drop_last()) == 0);
    assert(total_repos(alone.drop_last()) == 0);
    assert(all_warnings(alone.drop_last()) =~= Seq::<WarningView>::empty());
    assert(all_warnings(alone) =~= warning_views(one.warnings@));
    if b.len() == 0 {
        assert(a + b =~= a);
        assert(all_warnings(a) + all_warnings(b) =~= all_warnings(a));
    } else {
        totals_are_sums(a, b.drop_last(), one);
        assert((a + b).drop_last() =~= a + b.drop_last());
        assert((a + b).last() == b.last());
        assert(all_warnings(a + b) =~= all_warnings(a) + all_warnings(b));
    }
}

} // verus!
