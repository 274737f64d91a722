//! One traversal in two modes.
//!
//! Outside a repository it looks at every entry, so plain files become blobs. Inside
//! one it descends **directories only**, because that repository's tracked content is
//! captured as history and its uncommitted content comes from the overlay - so the
//! walk is there purely to find nested `.git` markers.
//!
//! The traversal decides and nothing more: [`Walk::next`] names the directory to list, and
//! [`Walk::visit`] takes what the listing came to.

use crate::config::precedence;
use crate::config::rules;
use crate::config::rules::{Decision, Hits, Path, RuleId, RuleTree, TreeModel, Verdict};
use crate::config::WatchEntry;
use crate::octets;
use crate::octets::{copy_bytes, extend};
use crate::plan;
use crate::plan::order;
use crate::plan::order::path_order;
use crate::plan::{
    Entry, EntryView, ExcludeReason, FileKind, Fired, PlainFile, PlanError, RepoRoot, RootPlan,
    Warning, WarningView,
};
use crate::primitives::encode;
use crate::primitives::encode::percent_component;
use crate::primitives::names::{AliasError, RootAlias};
use crate::primitives::path;
use crate::primitives::path::{AbsPath, TreePath, TreePathError, SLASH};
use crate::text;
use crate::text::cat3;
use vstd::prelude::*;
use vstd::utf8::*;

verus! {

/// One entry of a listing.
#[derive(Debug)]
pub struct Seen {
    pub path: AbsPath,
    /// What the path is, or why that could not be told.
    pub kind: Result<FileKind, String>,
    /// Whether a directory holds a `.git` of either form. A submodule's `.git` is a *file*
    /// holding a `gitdir:` pointer, and detecting only the directory form would miss all
    /// of them.
    pub repository: bool,
    pub size: u64,
}

#[derive(Debug)]
pub enum Item {
    Seen(Seen),
    /// An entry the listing could not read.
    Unreadable(String),
}

/// A directory to list, and whether it lies inside a repository.
#[derive(Debug)]
pub struct Place {
    pub dir: AbsPath,
    pub inside_repo: bool,
    /// Whether this is the root itself.
    pub first: bool,
}

/// What a traversal has found so far.
#[verifier::ext_equal]
pub struct WalkModel {
    pub entries: Seq<EntryView>,
    pub warnings: Seq<WarningView>,
    pub files: nat,
    pub bytes: nat,
    pub stack: Seq<(Path, bool)>,
    pub fired: Map<Seq<char>, ExcludeReason>,
}

pub enum ItemView {
    Seen { path: Path, kind: Result<FileKind, Seq<char>>, repository: bool, size: u64 },
    Unreadable(Seq<char>),
}

pub open spec fn kind_view(kind: Result<FileKind, String>) -> Result<FileKind, Seq<char>> {
    match kind {
        Ok(kind) => Ok(kind),
        Err(reason) => Err(reason@),
    }
}

impl View for Item {
    type V = ItemView;

    open spec fn view(&self) -> ItemView {
        match self {
            Item::Seen(seen) => ItemView::Seen {
                path: seen.path@,
                kind: kind_view(seen.kind),
                repository: seen.repository,
                size: seen.size,
            },
            Item::Unreadable(reason) => ItemView::Unreadable(reason@),
        }
    }
}

pub open spec fn item_views(items: Seq<Item>) -> Seq<ItemView> {
    items.map_values(|i: Item| i@)
}

// ---------------------------------------------------------------------------
// Where an entry is stored
// ---------------------------------------------------------------------------

/// `<alias>/<path relative to the root>`, raw bytes. Only the refname key is
/// encoded; the tree mirrors what is on disk.
pub open spec fn stored_raw(path: Path, root: Path, alias: Seq<char>) -> Seq<u8> {
    if crate::primitives::path::holds_path(root, path) && path.len() > root.len() {
        encode_utf8(alias) + seq![SLASH] + text::join(path.skip(root.len() as int), seq![SLASH])
    } else {
        encode_utf8(alias)
    }
}

/// The key is the alias, then each component of the repository's path relative to
/// the root, percent-encoded so the whole thing is legal inside a refname.
pub open spec fn repo_key(alias: Seq<char>, relative: Path) -> Seq<char>
    decreases relative.len(),
{
    if relative.len() == 0 {
        alias
    } else {
        repo_key(alias, relative.drop_last()) + "/"@ + encode::percent_encoded(relative.last())
    }
}

pub fn stored_path(path: &AbsPath, root: &AbsPath, alias: &RootAlias) -> (out: Result<
    TreePath,
    TreePathError,
>)
    ensures
        match out {
            Ok(stored) => path::is_tree_path(stored_raw(path@, root@, alias@)) && stored@
                == path::components(stored_raw(path@, root@, alias@)),
            Err(e) => e.refuses(stored_raw(path@, root@, alias@)),
        },
{
    let mut joined = copy_bytes(alias.as_str().as_bytes());
    let depth: usize = root.depth();
    if root.contains(path) && path.depth() > depth {
        let parts = path.parts();
        let mut relative: Vec<Vec<u8>> = Vec::new();
        let mut i: usize = depth;
        assert(octets::byte_views(relative@) =~= path@.subrange(depth as int, i as int));
        while i < parts.len()
            invariant
                depth <= i <= parts@.len(),
                octets::byte_views(parts@) == path@,
                octets::byte_views(relative@) == path@.subrange(depth as int, i as int),
            decreases parts@.len() - i,
        {
            let ghost before = octets::byte_views(relative@);
            relative.push(copy_bytes(&parts[i]));
            i += 1;
            proof {
                assert(octets::byte_views(parts@)[i - 1] == parts@[i - 1]@);
                assert(octets::byte_views(relative@) =~= before.push(parts@[i - 1]@));
                assert(octets::byte_views(relative@) =~= path@.subrange(depth as int, i as int));
            }
        }
        let slash: Vec<u8> = vec![SLASH];
        assert(slash@ =~= seq![SLASH]);
        assert(path@.subrange(depth as int, i as int) =~= path@.skip(depth as int));
        extend(&mut joined, &slash);
        extend(&mut joined, &octets::join_bytes(&relative, &slash));
    }
    TreePath::parse(&joined)
}

/// The repository at a path under a root.
///
/// # Errors
///
/// If the path does not lie under the root.
pub fn repo_root(path: &AbsPath, root: &AbsPath, alias: &RootAlias) -> (out: Result<
    RepoRoot,
    String,
>)
    ensures
        match out {
            Ok(repo) => path::holds_path(root@, path@) && repo.source@ == path@ && repo.key@
                == repo_key(alias@, path@.skip(root@.len() as int)),
            Err(e) => !path::holds_path(root@, path@) && e@
                == "the repository is not under its root"@,
        },
{
    if !root.contains(path) {
        return Err("the repository is not under its root".to_owned());
    }
    let mut key = alias.as_str().to_owned();
    let depth: usize = root.depth();
    let parts = path.parts();
    let ghost relative = path@.skip(depth as int);
    let mut i: usize = depth;
    assert(relative.take(0) =~= Seq::<Seq<u8>>::empty());
    while i < parts.len()
        invariant
            depth <= i <= parts@.len(),
            octets::byte_views(parts@) == path@,
            relative == path@.skip(depth as int),
            key@ == repo_key(alias@, relative.take(i - depth)),
        decreases parts@.len() - i,
    {
        let encoded = percent_component(&parts[i]);
        key = cat3(&key, "/", &encoded);
        i += 1;
        proof {
            assert(octets::byte_views(parts@)[i - 1] == parts@[i - 1]@);
            let now = relative.take(i - depth);
            assert(now.drop_last() =~= relative.take(i - 1 - depth));
            assert(now.last() == parts@[i - 1]@);
        }
    }
    assert(relative.take(i - depth) =~= relative);
    Ok(RepoRoot { source: path.clone(), key })
}

// ---------------------------------------------------------------------------
// What one entry does
// ---------------------------------------------------------------------------

/// Everything a step reads besides what has been found: the rules, the root and its alias.
pub struct Context {
    pub rules: TreeModel,
    pub root: Path,
    pub alias: Seq<char>,
}

/// The rules fired once a decision has been noted.
pub open spec fn noted(
    t: TreeModel,
    fired: Map<Seq<char>, ExcludeReason>,
    d: Decision,
) -> Map<Seq<char>, ExcludeReason> {
    match d.rule {
        None => fired,
        Some(id) => fired.insert(t.metas[id.0 as int].text, plan::reason_of(d.tier)),
    }
}

/// Whether a name is one of git's own, in any case.
pub open spec fn is_marker(path: Path) -> bool {
    path.len() > 0 && path::is_git_name(path.last())
}

pub open spec fn warned(m: WalkModel, w: WarningView) -> WalkModel {
    WalkModel { warnings: m.warnings.push(w), ..m }
}

/// What a file adds.
pub open spec fn with_file(
    c: Context,
    m: WalkModel,
    path: Path,
    kind: FileKind,
    size: u64,
) -> WalkModel {
    let d = c.rules.resolved(path);
    let raw = stored_raw(path, c.root, c.alias);
    if d.verdict == Verdict::Skip {
        WalkModel { fired: noted(c.rules, m.fired, d), ..m }
    } else {
        match kind.stored_mode() {
            None => match kind {
                FileKind::Skip(reason) => warned(
                    m,
                    WarningView::Skipped { path: plan::shown(path), reason },
                ),
                _ => m,
            },
            Some(mode) => if crate::primitives::path::is_tree_path(raw) {
                WalkModel {
                    entries: m.entries.push(
                        EntryView::Plain {
                            source: path,
                            stored: crate::primitives::path::components(raw),
                            mode,
                            size,
                        },
                    ),
                    files: m.files + 1,
                    bytes: m.bytes + size as nat,
                    ..m
                }
            } else {
                warned(
                    m,
                    WarningView::NotStorable {
                        path: plan::shown(path),
                        reason: crate::primitives::path::tree_fault(raw),
                    },
                )
            },
        }
    }
}

/// What a directory adds: itself to what is left to list unless nothing beneath it can be
/// captured, and a repository where it is one.
pub open spec fn with_directory(
    c: Context,
    m: WalkModel,
    path: Path,
    repository: bool,
    inside_repo: bool,
) -> WalkModel {
    let d = c.rules.resolved(path);
    let after = if d.verdict == Verdict::Skip {
        WalkModel { fired: noted(c.rules, m.fired, d), ..m }
    } else {
        m
    };
    if d.verdict == Verdict::Skip && !c.rules.may_capture_under(path) {
        after
    } else if repository {
        let found = if crate::primitives::path::holds_path(c.root, path) {
            WalkModel {
                entries: after.entries.push(
                    EntryView::Repo {
                        source: path,
                        key: repo_key(c.alias, path.skip(c.root.len() as int)),
                    },
                ),
                ..after
            }
        } else {
            warned(
                after,
                WarningView::NotStorable {
                    path: plan::shown(path),
                    reason: "the repository is not under its root"@,
                },
            )
        };
        WalkModel { stack: found.stack.push((path, true)), ..found }
    } else {
        WalkModel { stack: after.stack.push((path, inside_repo)), ..after }
    }
}

/// What one entry of a listing adds.
pub open spec fn with_item(
    c: Context,
    m: WalkModel,
    dir: Path,
    inside_repo: bool,
    item: ItemView,
) -> WalkModel {
    match item {
        ItemView::Unreadable(reason) => warned(
            m,
            WarningView::Unreadable { path: plan::shown(dir), reason },
        ),
        ItemView::Seen { path, kind, repository, size } => if is_marker(path) {
            m
        } else {
            match kind {
                Err(reason) => warned(
                    m,
                    WarningView::Unreadable { path: plan::shown(path), reason },
                ),
                Ok(FileKind::Directory) => with_directory(c, m, path, repository, inside_repo),
                Ok(kind) => if inside_repo {
                    m
                } else {
                    with_file(c, m, path, kind, size)
                },
            }
        },
    }
}

/// What the first `n` entries of a listing add.
pub open spec fn with_items(
    c: Context,
    m: WalkModel,
    dir: Path,
    inside_repo: bool,
    items: Seq<ItemView>,
    n: int,
) -> WalkModel
    decreases n,
{
    if n <= 0 {
        m
    } else {
        with_item(
            c,
            with_items(c, m, dir, inside_repo, items, n - 1),
            dir,
            inside_repo,
            items[n - 1],
        )
    }
}

/// The sizes of the first `n` entries of a listing together.
pub open spec fn listed_bytes(items: Seq<ItemView>, n: int) -> nat
    decreases n,
{
    if n <= 0 {
        0
    } else {
        listed_bytes(items, n - 1) + match items[n - 1] {
            ItemView::Seen { size, .. } => size as nat,
            ItemView::Unreadable(_) => 0,
        }
    }
}

/// Whether the paths of a listing are short enough to count their components.
pub open spec fn countable(items: Seq<ItemView>) -> bool {
    forall|i: int|
        0 <= i < items.len() ==> (#[trigger] items[i] matches ItemView::Seen { path, .. }
            ==> path.len() < usize::MAX)
}

/// Whether a listing holds an entry on whose way down the global glob at this index matches.
pub open spec fn listing_fires(t: TreeModel, items: Seq<ItemView>, n: int, glob: usize) -> bool {
    exists|i: int, k: int|
        0 <= i < n && #[trigger] entry_fires(t, items[i], k, glob)
}

pub open spec fn entry_fires(t: TreeModel, item: ItemView, k: int, glob: usize) -> bool {
    item matches ItemView::Seen { path, .. } && !is_marker(path) && 0 <= k <= path.len()
        && t.fires(glob, path.take(k))
}

/// Whether a listing holds an entry on whose way down the glob of a local file matches.
pub open spec fn listing_fires_local(t: TreeModel, items: Seq<ItemView>, n: int, id: RuleId) -> bool {
    exists|i: int, k: int|
        0 <= i < n && #[trigger] entry_fires_local(t, items[i], k, id)
}

pub open spec fn entry_fires_local(t: TreeModel, item: ItemView, k: int, id: RuleId) -> bool {
    item matches ItemView::Seen { path, .. } && !is_marker(path) && 0 <= k <= path.len()
        && t.local_fires(id, path.take(k))
}

// ---------------------------------------------------------------------------
// The traversal
// ---------------------------------------------------------------------------

/// A traversal under way.
#[derive(Debug)]
pub struct Walk {
    plan: RootPlan,
    alias: RootAlias,
    // An explicit stack rather than recursion, so a pathological depth is not a
    // stack overflow.
    stack: Vec<(AbsPath, bool)>,
    first: bool,
}

pub open spec fn stack_views(stack: Seq<(AbsPath, bool)>) -> Seq<(Path, bool)> {
    stack.map_values(|s: (AbsPath, bool)| (s.0@, s.1))
}

spec fn found_in(p: RootPlan, stack: Seq<(AbsPath, bool)>, fired: Map<Seq<char>, ExcludeReason>) -> WalkModel {
    WalkModel {
        entries: plan::entry_views(p.entries@),
        warnings: plan::warning_views(p.warnings@),
        files: p.files as nat,
        bytes: p.bytes as nat,
        stack: stack_views(stack),
        fired,
    }
}

/// Records the rule that decided a skip, so the dry run can say what was thrown
/// away and by what.
fn note(fired: &mut Fired, tree: &RuleTree, decision: Decision, path: &AbsPath)
    requires
        tree@.wf(),
        decision == tree@.resolved(path@),
    ensures
        final(fired)@ == noted(tree@, old(fired)@, decision),
{
    proof {
        precedence::a_decision_names_a_known_rule(tree@, path@);
    }
    match decision.rule {
        Some(id) => {
            let reason = match decision.tier {
                rules::Tier::ExplicitPath => ExcludeReason::IgnoreRule,
                rules::Tier::Glob => ExcludeReason::GlobRule,
                rules::Tier::Junk => ExcludeReason::DefaultJunk,
            };
            fired.insert(tree.rule_text(id).to_owned(), reason);
        },
        None => {},
    }
}

fn warn(p: &mut RootPlan, w: Warning)
    ensures
        final(p).warnings@ == old(p).warnings@.push(w),
        plan::warning_views(final(p).warnings@) == plan::warning_views(old(p).warnings@).push(w@),
        final(p).entries == old(p).entries,
        final(p).files == old(p).files,
        final(p).bytes == old(p).bytes,
        final(p).root == old(p).root,
        final(p).alias == old(p).alias,
{
    p.warnings.push(w);
    assert(plan::warning_views(p.warnings@) =~= plan::warning_views(old(p).warnings@).push(w@));
}

fn take_file(
    p: &mut RootPlan,
    alias: &RootAlias,
    tree: &RuleTree,
    hits: &mut Hits,
    fired: &mut Fired,
    path: &AbsPath,
    kind: FileKind,
    size: u64,
)
    requires
        tree@.wf(),
        path@.len() < usize::MAX,
        old(p).files <= old(p).entries@.len(),
        old(p).bytes + size <= u64::MAX,
    ensures
        final(p).root@ == old(p).root@,
        final(p).alias@ == old(p).alias@,
        final(p).files <= final(p).entries@.len(),
        found_in(*final(p), Seq::empty(), final(fired)@) == with_file(
            Context { rules: tree@, root: old(p).root@, alias: alias@ },
            found_in(*old(p), Seq::empty(), old(fired)@),
            path@,
            kind,
            size,
        ),
        forall|i: usize|
            #[trigger] final(hits).globs@.contains(i) <==> old(hits).globs@.contains(i)
                || exists|k: int|
                0 <= k <= path@.len() && #[trigger] tree@.fires(i, path@.take(k)),
        forall|id: RuleId|
            #[trigger] final(hits).local@.contains(id) <==> old(hits).local@.contains(id)
                || exists|k: int|
                0 <= k <= path@.len() && #[trigger] tree@.local_fires(id, path@.take(k)),
{
    let ghost before = found_in(*p, Seq::empty(), fired@);
    let ghost raw = stored_raw(path@, p.root@, alias@);
    tree.record_hits(path, hits);
    let decision = tree.resolve(path);
    if decision.verdict == Verdict::Skip {
        note(fired, tree, decision, path);
        return ;
    }
    let mode = match kind.mode() {
        Some(mode) => mode,
        None => {
            if let FileKind::Skip(reason) = kind {
                warn(p, Warning::Skipped { path: path.text(), reason });
            }
            return ;
        },
    };
    let stored = match stored_path(path, &p.root, alias) {
        Ok(stored) => stored,
        Err(reason) => {
            proof {
                path::lemma_tree_fault(raw, reason);
            }
            warn(p, Warning::NotStorable { path: path.text(), reason: reason.text() });
            return ;
        },
    };
    let held: usize = p.entries.len();
    let ghost entries = plan::entry_views(p.entries@);
    let entry = Entry::Plain(PlainFile { source: path.clone(), stored, mode, size });
    p.entries.push(entry);
    p.bytes = p.bytes + size;
    let now: usize = p.entries.len();
    p.files = p.files + 1;
    proof {
        assert(plan::entry_views(p.entries@) =~= entries.push(entry@));
    }
}

fn copy_entry(e: &Entry) -> (out: Entry)
    ensures
        out@ == e@,
{
    match e {
        Entry::Plain(f) => Entry::Plain(
            PlainFile { source: f.source.clone(), stored: f.stored.clone(), mode: f.mode, size: f.size },
        ),
        Entry::Repo(r) => Entry::Repo(RepoRoot { source: r.source.clone(), key: r.key.clone() }),
    }
}

fn source_of(entry: &Entry) -> (out: &AbsPath)
    ensures
        out@ == entry@.source(),
{
    match entry {
        Entry::Plain(file) => &file.source,
        Entry::Repo(repo) => &repo.source,
    }
}

pub open spec fn sources(entries: Seq<EntryView>) -> Seq<Path> {
    entries.map_values(|e: EntryView| e.source())
}

/// Whether some entries are others in the order of their paths.
pub open spec fn in_path_order(out: Seq<EntryView>, entries: Seq<EntryView>, order: Seq<usize>) -> bool {
    &&& order::covers(order, 0, entries.len() as int)
    &&& order::ascending(sources(entries), order)
    &&& out.len() == entries.len()
    &&& forall|i: int| 0 <= i < out.len() ==> #[trigger] out[i] == entries[order[i] as int]
}

fn ordered(entries: &Vec<Entry>) -> (out: Vec<Entry>)
    ensures
        exists|order: Seq<usize>|
            #[trigger] in_path_order(
                plan::entry_views(out@),
                plan::entry_views(entries@),
                order,
            ),
{
    let mut paths: Vec<AbsPath> = Vec::new();
    let mut i: usize = 0;
    while i < entries.len()
        invariant
            i <= entries@.len(),
            paths@.len() == i,
            forall|j: int| 0 <= j < i ==> (#[trigger] paths@[j])@ == entries@[j]@.source(),
        decreases entries@.len() - i,
    {
        paths.push(source_of(&entries[i]).clone());
        i += 1;
    }
    let order = path_order(&paths);
    proof {
        assert(order::path_keys(paths@) =~= sources(plan::entry_views(entries@)));
    }
    let mut out: Vec<Entry> = Vec::new();
    let mut k: usize = 0;
    while k < order.len()
        invariant
            k <= order@.len(),
            order@.len() == entries@.len(),
            order::covers(order@, 0, entries@.len() as int),
            out@.len() == k,
            forall|j: int|
                0 <= j < k ==> (#[trigger] out@[j])@ == entries@[order@[j] as int]@,
        decreases order@.len() - k,
    {
        assert(order@.contains(order@[k as int]));
        out.push(copy_entry(&entries[order[k]]));
        k += 1;
    }
    proof {
        let a = plan::entry_views(out@);
        let b = plan::entry_views(entries@);
        assert forall|j: int| 0 <= j < a.len() implies #[trigger] a[j] == b[order@[j] as int] by {
            assert(a[j] == out@[j]@);
            assert(order@.contains(order@[j]));
        }
        assert(in_path_order(a, b, order@));
    }
    out
}

/// What beginning a traversal comes to. A root that is no directory has nothing to list, and is
/// taken as the one file it is.
pub open spec fn started(
    out: Result<Walk, PlanError>,
    root: Path,
    alias: Seq<char>,
    kind: Result<FileKind, String>,
    size: u64,
    t: TreeModel,
    before: Hits,
    after: Hits,
    fired_before: Map<Seq<char>, ExcludeReason>,
    fired_after: Map<Seq<char>, ExcludeReason>,
) -> bool {
    match out {
        Err(e) => {
            &&& kind is Err
            &&& e matches PlanError::RootUnreadable { root: name, reason }
            &&& name@ == plan::shown(root)
            &&& reason@ == kind->Err_0@
            &&& fired_after == fired_before
            &&& after == before
        },
        Ok(walk) => {
            let empty = WalkModel {
                entries: Seq::empty(),
                warnings: Seq::empty(),
                files: 0,
                bytes: 0,
                stack: Seq::empty(),
                fired: fired_before,
            };
            &&& kind is Ok
            &&& walk.wf()
            &&& walk.at_root()
            &&& walk.context(t) == (Context {
                rules: t,
                root: root,
                alias: alias,
            })
            &&& if kind->Ok_0 == FileKind::Directory {
                &&& walk.model(fired_after) == (WalkModel {
                    stack: seq![(root, false)],
                    ..empty
                })
                &&& after == before
            } else {
                &&& walk.model(fired_after) == with_file(
                    walk.context(t),
                    empty,
                    root,
                    kind->Ok_0,
                    size,
                )
                &&& forall|i: usize|
                    #[trigger] after.globs@.contains(i) <==> before.globs@.contains(i) || exists|k: int|
                        0 <= k <= root.len() && #[trigger] t.fires(i, root.take(k))
                &&& forall|id: RuleId|
                    #[trigger] after.local@.contains(id) <==> before.local@.contains(id) || exists|k: int|
                        0 <= k <= root.len() && #[trigger] t.local_fires(
                            id,
                            root.take(k),
                        )
            }
        },
    }
}

impl Walk {
    /// What has been found, beside the rules that fired.
    pub closed spec fn model(self, fired: Map<Seq<char>, ExcludeReason>) -> WalkModel {
        found_in(self.plan, self.stack@, fired)
    }

    /// What has been found, leaving the rules that fired aside.
    pub closed spec fn found(self) -> WalkModel {
        self.model(Map::empty())
    }

    pub closed spec fn context(self, t: TreeModel) -> Context {
        Context { rules: t, root: self.plan.root@, alias: self.alias@ }
    }

    /// Whether the root itself is still to be listed.
    pub closed spec fn at_root(self) -> bool {
        self.first
    }

    pub closed spec fn wf(self) -> bool {
        &&& self.plan.files <= self.plan.entries@.len()
        &&& self.plan.alias@ == self.alias@
    }

    /// Begins a traversal. A watch entry may name a file rather than a directory - the escape
    /// hatch for re-including one file a glob would otherwise exclude - and then there is
    /// nothing to list.
    ///
    /// # Errors
    ///
    /// If it could not be told what the root is.
    pub fn start(
        root: &AbsPath,
        alias: &RootAlias,
        kind: Result<FileKind, String>,
        size: u64,
        tree: &RuleTree,
        hits: &mut Hits,
        fired: &mut Fired,
    ) -> (out: Result<Walk, PlanError>)
        requires
            tree@.wf(),
            root@.len() < usize::MAX,
        ensures
            started(
                out,
                root@,
                alias@,
                kind,
                size,
                tree@,
                *old(hits),
                *final(hits),
                old(fired)@,
                final(fired)@,
            ),
    {
        let kind = match kind {
            Ok(kind) => kind,
            Err(reason) => {
                return Err(PlanError::RootUnreadable { root: root.text(), reason });
            },
        };
        let mut p = RootPlan {
            alias: alias.as_str().to_owned(),
            root: root.clone(),
            entries: Vec::new(),
            warnings: Vec::new(),
            files: 0,
            bytes: 0,
        };
        let mut stack: Vec<(AbsPath, bool)> = Vec::new();
        let ghost empty = found_in(p, stack@, fired@);
        proof {
            assert(empty.entries =~= Seq::empty());
            assert(empty.warnings =~= Seq::empty());
            assert(empty.stack =~= Seq::empty());
            assert(stack@ =~= Seq::empty());
        }
        if kind == FileKind::Directory {
            stack.push((root.clone(), false));
            assert(stack_views(stack@) =~= seq![(root@, false)]);
        } else {
            take_file(&mut p, alias, tree, hits, fired, root, kind, size);
        }
        Ok(Walk { plan: p, alias: alias.clone(), stack, first: true })
    }

    /// Begins the traversal of a watched root, under the name its content is stored under.
    ///
    /// # Errors
    ///
    /// If the root's last component is not usable as that name, or it could not be told what the
    /// root is.
    pub fn begin(
        entry: &WatchEntry,
        kind: Result<FileKind, String>,
        size: u64,
        tree: &RuleTree,
        hits: &mut Hits,
        fired: &mut Fired,
    ) -> (out: Result<Walk, PlanError>)
        requires
            tree@.wf(),
            entry@.path.len() < usize::MAX,
        ensures
            match entry@.alias() {
                Some(alias) => started(
                    out,
                    entry@.path,
                    alias,
                    kind,
                    size,
                    tree@,
                    *old(hits),
                    *final(hits),
                    old(fired)@,
                    final(fired)@,
                ),
                None => {
                    &&& out matches Err(PlanError::BadAlias { root, reason })
                    &&& root@ == plan::shown(entry@.path)
                    &&& exists|e: AliasError|
                        #[trigger] entry@.alias_refused(e) && reason@ == e.message()
                    &&& *final(hits) == *old(hits)
                    &&& final(fired)@ == old(fired)@
                },
            },
    {
        let root = entry.path();
        match entry.alias() {
            Ok(alias) => Walk::start(root, &alias, kind, size, tree, hits, fired),
            Err(e) => {
                assert(entry@.alias_refused(e));
                Err(PlanError::BadAlias { root: root.text(), reason: e.text() })
            },
        }
    }

    /// The next directory to list, or nothing when the traversal is done.
    pub fn next(&mut self) -> (out: Option<Place>)
        requires
            old(self).wf(),
        ensures
            final(self).wf(),
            forall|t: TreeModel| #[trigger] final(self).context(t) == old(self).context(t),
            forall|fired: Map<Seq<char>, ExcludeReason>|
                match out {
                    Some(place) => {
                        let stack = old(self).model(fired).stack;
                        &&& stack.len() > 0
                        &&& stack.last() == (place.dir@, place.inside_repo)
                        &&& place.first == old(self).at_root()
                        &&& !final(self).at_root()
                        &&& #[trigger] final(self).model(fired) == (WalkModel {
                            stack: stack.drop_last(),
                            ..old(self).model(fired)
                        })
                    },
                    None => {
                        &&& old(self).model(fired).stack.len() == 0
                        &&& #[trigger] final(self).model(fired) == old(self).model(fired)
                    },
                },
    {
        let ghost before = stack_views(self.stack@);
        match self.stack.pop() {
            Some((dir, inside_repo)) => {
                let first = self.first;
                self.first = false;
                assert(stack_views(self.stack@) =~= before.drop_last());
                Some(Place { dir, inside_repo, first })
            },
            None => None,
        }
    }

    fn take_directory(
        &mut self,
        tree: &RuleTree,
        fired: &mut Fired,
        path: &AbsPath,
        repository: bool,
        inside_repo: bool,
    )
        requires
            old(self).wf(),
            tree@.wf(),
            path@.len() < usize::MAX,
        ensures
            final(self).wf(),
            final(self).at_root() == old(self).at_root(),
            final(self).plan.bytes == old(self).plan.bytes,
            final(self).context(tree@) == old(self).context(tree@),
            final(self).model(final(fired)@) == with_directory(
                old(self).context(tree@),
                old(self).model(old(fired)@),
                path@,
                repository,
                inside_repo,
            ),
    {
        let decision = tree.resolve(path);
        if decision.verdict == Verdict::Skip {
            note(fired, tree, decision, path);
            if !tree.may_contain_captures(path) {
                return ;
            }
        }
        let ghost stack = stack_views(self.stack@);
        if repository {
            match repo_root(path, &self.plan.root, &self.alias) {
                Ok(repo) => {
                    let ghost entries = plan::entry_views(self.plan.entries@);
                    let entry = Entry::Repo(repo);
                    self.plan.entries.push(entry);
                    assert(plan::entry_views(self.plan.entries@) =~= entries.push(entry@));
                },
                Err(reason) => {
                    warn(&mut self.plan, Warning::NotStorable { path: path.text(), reason });
                },
            }
            self.stack.push((path.clone(), true));
            assert(stack_views(self.stack@) =~= stack.push((path@, true)));
        } else {
            self.stack.push((path.clone(), inside_repo));
            assert(stack_views(self.stack@) =~= stack.push((path@, inside_repo)));
        }
    }

    fn take_item(
        &mut self,
        place: &Place,
        item: &Item,
        tree: &RuleTree,
        hits: &mut Hits,
        fired: &mut Fired,
    )
        requires
            old(self).wf(),
            tree@.wf(),
            item@ matches ItemView::Seen { path, size, .. } ==> path.len() < usize::MAX && old(
                self,
            ).plan.bytes + size <= u64::MAX,
        ensures
            final(self).wf(),
            final(self).at_root() == old(self).at_root(),
            final(self).context(tree@) == old(self).context(tree@),
            final(self).plan.bytes <= old(self).plan.bytes + match item@ {
                ItemView::Seen { size, .. } => size as int,
                ItemView::Unreadable(_) => 0,
            },
            final(self).model(final(fired)@) == with_item(
                old(self).context(tree@),
                old(self).model(old(fired)@),
                place.dir@,
                place.inside_repo,
                item@,
            ),
            forall|i: usize|
                #[trigger] final(hits).globs@.contains(i) <==> old(hits).globs@.contains(i)
                    || exists|k: int| #[trigger] entry_fires(tree@, item@, k, i),
            forall|id: RuleId|
                #[trigger] final(hits).local@.contains(id) <==> old(hits).local@.contains(id)
                    || exists|k: int| #[trigger] entry_fires_local(tree@, item@, k, id),
    {
        match item {
            Item::Unreadable(reason) => {
                let reason = reason.clone();
                warn(&mut self.plan, Warning::Unreadable { path: place.dir.text(), reason });
            },
            Item::Seen(seen) => {
                if names_git(&seen.path) {
                    return ;
                }
                let ghost item_view = item@;
                tree.record_hits(&seen.path, hits);
                let ghost recorded = hits.globs@;
                let ghost locals = hits.local@;
                proof {
                    assert forall|i: usize|
                        #[trigger] hits.globs@.contains(i) <==> old(hits).globs@.contains(i)
                            || exists|k: int| #[trigger] entry_fires(tree@, item_view, k, i) by {
                        if exists|k: int|
                            0 <= k <= seen.path@.len() && #[trigger] tree@.fires(
                                i,
                                seen.path@.take(k),
                            ) {
                            let k = choose|k: int|
                                0 <= k <= seen.path@.len() && #[trigger] tree@.fires(
                                    i,
                                    seen.path@.take(k),
                                );
                            assert(entry_fires(tree@, item_view, k, i));
                        }
                        if exists|k: int| #[trigger] entry_fires(tree@, item_view, k, i) {
                            let k = choose|k: int| #[trigger] entry_fires(tree@, item_view, k, i);
                            assert(tree@.fires(i, seen.path@.take(k)));
                        }
                    }
                    assert forall|id: RuleId|
                        #[trigger] hits.local@.contains(id) <==> old(hits).local@.contains(id)
                            || exists|k: int| #[trigger] entry_fires_local(tree@, item_view, k, id) by {
                        if exists|k: int|
                            0 <= k <= seen.path@.len() && #[trigger] tree@.local_fires(
                                id,
                                seen.path@.take(k),
                            ) {
                            let k = choose|k: int|
                                0 <= k <= seen.path@.len() && #[trigger] tree@.local_fires(
                                    id,
                                    seen.path@.take(k),
                                );
                            assert(entry_fires_local(tree@, item_view, k, id));
                        }
                        if exists|k: int| #[trigger] entry_fires_local(tree@, item_view, k, id) {
                            let k = choose|k: int| #[trigger] entry_fires_local(tree@, item_view, k, id);
                            assert(tree@.local_fires(id, seen.path@.take(k)));
                        }
                    }
                }
                match &seen.kind {
                    Err(reason) => {
                        let reason = reason.clone();
                        warn(
                            &mut self.plan,
                            Warning::Unreadable { path: seen.path.text(), reason },
                        );
                    },
                    Ok(FileKind::Directory) => {
                        self.take_directory(
                            tree,
                            fired,
                            &seen.path,
                            seen.repository,
                            place.inside_repo,
                        );
                    },
                    Ok(kind) => {
                        // Inside a repository only directories matter; its files are history.
                        if place.inside_repo {
                            return ;
                        }
                        take_file(
                            &mut self.plan,
                            &self.alias,
                            tree,
                            hits,
                            fired,
                            &seen.path,
                            *kind,
                            seen.size,
                        );
                        proof {
                            assert forall|i: usize|
                                #[trigger] hits.globs@.contains(i) <==> recorded.contains(i) by {
                                if exists|k: int|
                                    0 <= k <= seen.path@.len() && #[trigger] tree@.fires(
                                        i,
                                        seen.path@.take(k),
                                    ) {
                                    let k = choose|k: int|
                                        0 <= k <= seen.path@.len() && #[trigger] tree@.fires(
                                            i,
                                            seen.path@.take(k),
                                        );
                                    assert(entry_fires(tree@, item_view, k, i));
                                }
                            }
                            assert forall|id: RuleId|
                                #[trigger] hits.local@.contains(id) <==> locals.contains(id) by {
                                if exists|k: int|
                                    0 <= k <= seen.path@.len() && #[trigger] tree@.local_fires(
                                        id,
                                        seen.path@.take(k),
                                    ) {
                                    let k = choose|k: int|
                                        0 <= k <= seen.path@.len() && #[trigger] tree@.local_fires(
                                            id,
                                            seen.path@.take(k),
                                        );
                                    assert(entry_fires_local(tree@, item_view, k, id));
                                }
                            }
                        }
                    },
                }
            },
        }
    }

    /// Takes what listing a directory came to.
    ///
    /// # Errors
    ///
    /// If the root's own listing failed: a root that cannot be read must never become a green
    /// empty backup. Any other listing that fails is a warning.
    pub fn visit(
        &mut self,
        place: &Place,
        listing: Result<Vec<Item>, String>,
        tree: &RuleTree,
        hits: &mut Hits,
        fired: &mut Fired,
    ) -> (out: Result<(), PlanError>)
        requires
            old(self).wf(),
            tree@.wf(),
            listing matches Ok(items) ==> countable(item_views(items@)) && old(self).model(
                old(fired)@,
            ).bytes + listed_bytes(item_views(items@), items@.len() as int) <= u64::MAX,
        ensures
            final(self).wf(),
            final(self).at_root() == old(self).at_root(),
            final(self).context(tree@) == old(self).context(tree@),
            match listing {
                Err(reason) => {
                    &&& *final(hits) == *old(hits)
                    &&& if place.first {
                        &&& out matches Err(PlanError::RootUnreadable { root, reason: said })
                        &&& root@ == plan::shown(old(self).context(tree@).root)
                        &&& said@ == reason@
                        &&& final(self).model(final(fired)@) == old(self).model(old(fired)@)
                    } else {
                        &&& out is Ok
                        &&& final(self).model(final(fired)@) == warned(
                            old(self).model(old(fired)@),
                            WarningView::Unreadable {
                                path: plan::shown(place.dir@),
                                reason: reason@,
                            },
                        )
                    }
                },
                Ok(items) => {
                    &&& out is Ok
                    &&& final(self).model(final(fired)@) == with_items(
                        old(self).context(tree@),
                        old(self).model(old(fired)@),
                        place.dir@,
                        place.inside_repo,
                        item_views(items@),
                        items@.len() as int,
                    )
                    &&& forall|i: usize|
                        #[trigger] final(hits).globs@.contains(i) <==> old(
                            hits,
                        ).globs@.contains(i) || listing_fires(
                            tree@,
                            item_views(items@),
                            items@.len() as int,
                            i,
                        )
                    &&& forall|id: RuleId|
                        #[trigger] final(hits).local@.contains(id) <==> old(
                            hits,
                        ).local@.contains(id) || listing_fires_local(
                            tree@,
                            item_views(items@),
                            items@.len() as int,
                            id,
                        )
                },
            },
    {
        let items = match listing {
            Err(reason) => {
                if place.first {
                    return Err(PlanError::RootUnreadable { root: self.plan.root.text(), reason });
                }
                warn(&mut self.plan, Warning::Unreadable { path: place.dir.text(), reason });
                return Ok(());
            },
            Ok(items) => items,
        };
        let ghost all = item_views(items@);
        let ghost c = self.context(tree@);
        let ghost start = self.model(fired@);
        let ghost n = all.len() as int;
        let mut done: usize = 0;
        while done < items.len()
            invariant
                done <= items@.len(),
                n == items@.len(),
                all == item_views(items@),
                self.wf(),
                tree@.wf(),
                countable(all),
                self.at_root() == old(self).at_root(),
                self.context(tree@) == c,
                c == old(self).context(tree@),
                start == old(self).model(old(fired)@),
                start.bytes + listed_bytes(all, n) <= u64::MAX,
                self.plan.bytes <= start.bytes + listed_bytes(all, done as int),
                self.model(fired@) == with_items(
                    c,
                    start,
                    place.dir@,
                    place.inside_repo,
                    all,
                    done as int,
                ),
                forall|i: usize|
                    #[trigger] hits.globs@.contains(i) <==> old(hits).globs@.contains(i)
                        || listing_fires(tree@, all, done as int, i),
                forall|id: RuleId|
                    #[trigger] hits.local@.contains(id) <==> old(hits).local@.contains(id)
                        || listing_fires_local(tree@, all, done as int, id),
            decreases items@.len() - done,
        {
            let item = &items[done];
            let ghost view = item@;
            let ghost held = hits.globs@;
            let ghost kept = hits.local@;
            proof {
                assert(all[done as int] == view);
                lemma_listed_grows(all, done + 1, n);
            }
            self.take_item(place, item, tree, hits, fired);
            proof {
                assert forall|i: usize|
                    #[trigger] hits.globs@.contains(i) <==> old(hits).globs@.contains(i)
                        || listing_fires(tree@, all, done + 1, i) by {
                    assert(hits.globs@.contains(i) <==> held.contains(i) || exists|k: int|
                        #[trigger] entry_fires(tree@, view, k, i));
                    if listing_fires(tree@, all, done as int, i) {
                        let (j, k) = choose|j: int, k: int|
                            0 <= j < done && #[trigger] entry_fires(tree@, all[j], k, i);
                        assert(0 <= j < done + 1 && entry_fires(tree@, all[j], k, i));
                    }
                    if exists|k: int| #[trigger] entry_fires(tree@, view, k, i) {
                        let k = choose|k: int| #[trigger] entry_fires(tree@, view, k, i);
                        assert(entry_fires(tree@, all[done as int], k, i));
                    }
                    if listing_fires(tree@, all, done + 1, i) {
                        let (j, k) = choose|j: int, k: int|
                            0 <= j < done + 1 && #[trigger] entry_fires(tree@, all[j], k, i);
                        if j == done {
                            assert(entry_fires(tree@, view, k, i));
                        } else {
                            assert(listing_fires(tree@, all, done as int, i));
                        }
                    }
                }
                assert forall|id: RuleId|
                    #[trigger] hits.local@.contains(id) <==> old(hits).local@.contains(id)
                        || listing_fires_local(tree@, all, done + 1, id) by {
                    assert(hits.local@.contains(id) <==> kept.contains(id) || exists|k: int|
                        #[trigger] entry_fires_local(tree@, view, k, id));
                    if listing_fires_local(tree@, all, done as int, id) {
                        let (j, k) = choose|j: int, k: int|
                            0 <= j < done && #[trigger] entry_fires_local(tree@, all[j], k, id);
                        assert(0 <= j < done + 1 && entry_fires_local(tree@, all[j], k, id));
                    }
                    if exists|k: int| #[trigger] entry_fires_local(tree@, view, k, id) {
                        let k = choose|k: int| #[trigger] entry_fires_local(tree@, view, k, id);
                        assert(entry_fires_local(tree@, all[done as int], k, id));
                    }
                    if listing_fires_local(tree@, all, done + 1, id) {
                        let (j, k) = choose|j: int, k: int|
                            0 <= j < done + 1 && #[trigger] entry_fires_local(tree@, all[j], k, id);
                        if j == done {
                            assert(entry_fires_local(tree@, view, k, id));
                        } else {
                            assert(listing_fires_local(tree@, all, done as int, id));
                        }
                    }
                }
            }
            done += 1;
        }
        Ok(())
    }

    /// The root's plan, its entries in the order of their paths.
    pub fn finish(self) -> (out: RootPlan)
        requires
            self.wf(),
        ensures
            forall|t: TreeModel| #[trigger]
                self.context(t).alias == out.alias@ && self.context(t).root == out.root@,
            plan::warning_views(out.warnings@) == self.found().warnings,
            out.files == self.found().files,
            out.bytes == self.found().bytes,
            exists|order: Seq<usize>|
                #[trigger] in_path_order(
                    plan::entry_views(out.entries@),
                    self.found().entries,
                    order,
                ),
            forall|fired: Map<Seq<char>, ExcludeReason>| #[trigger]
                self.model(fired) == (WalkModel { fired, ..self.found() }),
    {
        let ghost before = plan::entry_views(self.plan.entries@);
        let p = self.plan;
        let entries = ordered(&p.entries);
        let ghost order = choose|order: Seq<usize>|
            #[trigger] in_path_order(plan::entry_views(entries@), before, order);
        let out = RootPlan {
            alias: p.alias,
            root: p.root,
            entries,
            warnings: p.warnings,
            files: p.files,
            bytes: p.bytes,
        };
        assert(in_path_order(plan::entry_views(out.entries@), before, order));
        out
    }
}

proof fn lemma_listed_grows(items: Seq<ItemView>, k: int, n: int)
    requires
        0 <= k <= n,
    ensures
        listed_bytes(items, k) <= listed_bytes(items, n),
    decreases n - k,
{
    if k < n {
        lemma_listed_grows(items, k, n - 1);
    }
}

fn names_git(path: &AbsPath) -> (out: bool)
    ensures
        out == is_marker(path@),
{
    let parts = path.parts();
    if parts.len() == 0 {
        return false;
    }
    let last = &parts[parts.len() - 1];
    assert(octets::byte_views(parts@)[parts@.len() - 1] == last@);
    last.len() == 4 && last[0] == 46 && (last[1] == 71 || last[1] == 103) && (last[2] == 73
        || last[2] == 105) && (last[3] == 84 || last[3] == 116)
}

// ---------------------------------------------------------------------------
// Laws
// ---------------------------------------------------------------------------

/// Whether every plain file found is one the rules capture, and no entry is a `.git` marker.
pub open spec fn only_captured(c: Context, m: WalkModel) -> bool {
    forall|i: int|
        0 <= i < m.entries.len() ==> {
            let e = #[trigger] m.entries[i];
            &&& !is_marker(e.source())
            &&& e matches EntryView::Plain { source, stored, .. } ==> c.rules.resolved(
                source,
            ).verdict == Verdict::Capture && !path::any_git(stored)
        }
}

/// However a directory lists, a traversal stores only files the rules capture, never a `.git`
/// marker, and nothing under a `.git` component.
pub proof fn only_what_the_rules_capture_is_stored(
    c: Context,
    m: WalkModel,
    dir: Path,
    inside_repo: bool,
    items: Seq<ItemView>,
    n: int,
)
    requires
        only_captured(c, m),
        0 <= n <= items.len(),
    ensures
        only_captured(c, with_items(c, m, dir, inside_repo, items, n)),
    decreases n,
{
    if n > 0 {
        only_what_the_rules_capture_is_stored(c, m, dir, inside_repo, items, n - 1);
        let before = with_items(c, m, dir, inside_repo, items, n - 1);
        let after = with_item(c, before, dir, inside_repo, items[n - 1]);
        assert forall|i: int| 0 <= i < after.entries.len() implies {
            let e = #[trigger] after.entries[i];
            &&& !is_marker(e.source())
            &&& e matches EntryView::Plain { source, stored, .. } ==> c.rules.resolved(
                source,
            ).verdict == Verdict::Capture && !path::any_git(stored)
        } by {
            if i < before.entries.len() {
                assert(after.entries[i] == before.entries[i]);
            }
        }
    }
}

/// Inside a repository a listing adds no plain file: its files are history.
pub proof fn a_repository_yields_no_plain_files(
    c: Context,
    m: WalkModel,
    dir: Path,
    items: Seq<ItemView>,
    n: int,
)
    requires
        0 <= n <= items.len(),
    ensures
        with_items(c, m, dir, true, items, n).files == m.files,
        with_items(c, m, dir, true, items, n).bytes == m.bytes,
    decreases n,
{
    if n > 0 {
        a_repository_yields_no_plain_files(c, m, dir, items, n - 1);
    }
}

/// A file outside a repository that the rules capture is stored, or its loss is warned about.
pub proof fn a_captured_file_is_never_dropped_in_silence(
    c: Context,
    m: WalkModel,
    dir: Path,
    item: ItemView,
)
    requires
        item matches ItemView::Seen { path, kind: Ok(kind), .. } && !is_marker(path) && kind
            != FileKind::Directory && c.rules.resolved(path).verdict == Verdict::Capture,
    ensures
        ({
            let after = with_item(c, m, dir, false, item);
            ||| after.entries.len() == m.entries.len() + 1 && after.entries.last().source()
                == item->path
            ||| after.warnings.len() == m.warnings.len() + 1
        }),
{
}

/// A directory that is not listed holds nothing the rules capture.
pub proof fn an_unlisted_directory_holds_no_capture(
    c: Context,
    m: WalkModel,
    dir: Path,
    inside_repo: bool,
    item: ItemView,
    beneath: Path,
)
    requires
        item matches ItemView::Seen { path, kind: Ok(FileKind::Directory), .. } && !is_marker(path)
            && path::holds_path(path, beneath),
        with_item(c, m, dir, inside_repo, item).stack == m.stack,
    ensures
        c.rules.resolved(beneath).verdict == Verdict::Skip,
{
    let p = item->path;
    let after = with_item(c, m, dir, inside_repo, item);
    if c.rules.resolved(p).verdict == Verdict::Skip && !c.rules.may_capture_under(p) {
        precedence::pruning_loses_nothing(c.rules, p, beneath);
    } else {
        assert(after.stack.len() == m.stack.len() + 1);
    }
}

/// The number of plain files found is that of the plain entries.
pub open spec fn tallied(m: WalkModel) -> bool {
    &&& m.files == m.entries.filter(|e: EntryView| e is Plain).len()
    &&& m.files <= m.entries.len()
}

/// The sizes of the plain files among the first `n` entries together.
pub open spec fn plain_bytes(entries: Seq<EntryView>, n: int) -> nat
    decreases n,
{
    if n <= 0 {
        0
    } else {
        plain_bytes(entries, n - 1) + match entries[n - 1] {
            EntryView::Plain { size, .. } => size as nat,
            EntryView::Repo { .. } => 0,
        }
    }
}

proof fn lemma_plain_bytes(entries: Seq<EntryView>, more: EntryView, n: int)
    requires
        n <= entries.len(),
    ensures
        plain_bytes(entries.push(more), n) == plain_bytes(entries, n),
    decreases n,
{
    if n > 0 {
        lemma_plain_bytes(entries, more, n - 1);
    }
}

/// The bytes found are the sizes of the plain entries together, however a directory lists.
pub proof fn bytes_are_those_of_the_files(
    c: Context,
    m: WalkModel,
    dir: Path,
    inside_repo: bool,
    items: Seq<ItemView>,
    n: int,
)
    requires
        m.bytes == plain_bytes(m.entries, m.entries.len() as int),
        0 <= n <= items.len(),
    ensures
        ({
            let after = with_items(c, m, dir, inside_repo, items, n);
            after.bytes == plain_bytes(after.entries, after.entries.len() as int)
        }),
    decreases n,
{
    if n > 0 {
        bytes_are_those_of_the_files(c, m, dir, inside_repo, items, n - 1);
        let before = with_items(c, m, dir, inside_repo, items, n - 1);
        let after = with_item(c, before, dir, inside_repo, items[n - 1]);
        if after.entries != before.entries {
            let count = before.entries.len() as int;
            assert(after.entries =~= before.entries.push(after.entries.last()));
            lemma_plain_bytes(before.entries, after.entries.last(), count);
        }
    }
}

/// Every plain file is counted once, however a directory lists.
pub proof fn files_are_counted_once(
    c: Context,
    m: WalkModel,
    dir: Path,
    inside_repo: bool,
    items: Seq<ItemView>,
    n: int,
)
    requires
        tallied(m),
        0 <= n <= items.len(),
    ensures
        tallied(with_items(c, m, dir, inside_repo, items, n)),
    decreases n,
{
    if n > 0 {
        files_are_counted_once(c, m, dir, inside_repo, items, n - 1);
        let before = with_items(c, m, dir, inside_repo, items, n - 1);
        let after = with_item(c, before, dir, inside_repo, items[n - 1]);
        let plain = |e: EntryView| e is Plain;
        if after.entries != before.entries {
            reveal(Seq::filter);
            assert(after.entries.drop_last() =~= before.entries);
        }
    }
}

} // verus!
