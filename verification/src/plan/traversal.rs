//! What a whole traversal finds, of whatever the directories hold.
//!
//! The disk is a function from a directory to its listing. A traversal is the states a walk goes
//! through: it takes the directory on top of its stack, and adds what that directory lists.

use crate::config::precedence;
use crate::config::rules::{Hits, Path, Tier, TreeModel, Verdict};
use crate::plan;
use crate::plan::walk;
use crate::plan::walk::{Context, ItemView, WalkModel};
use crate::plan::{EntryView, ExcludeReason, FileKind, PlanError, WarningView};
use crate::primitives::encode;
use crate::primitives::encode::FileMode;
use crate::primitives::path;
use crate::text;
use vstd::prelude::*;
use vstd::utf8::*;

verus! {

/// What every directory lists.
pub type Disk = spec_fn(Path) -> Seq<ItemView>;

/// A listing names things directly beneath its directory, each once.
pub open spec fn is_listing(dir: Path, items: Seq<ItemView>) -> bool {
    &&& forall|i: int|
        0 <= i < items.len() ==> ((#[trigger] items[i]) matches ItemView::Seen { path, .. }
            ==> path.len() == dir.len() + 1 && path.drop_last() == dir)
    &&& forall|i: int, j: int|
        0 <= i < j < items.len() && (#[trigger] items[i]) is Seen && (#[trigger] items[j]) is Seen
            ==> items[i]->path != items[j]->path
}

pub open spec fn is_disk(disk: Disk) -> bool {
    forall|dir: Path| is_listing(dir, #[trigger] disk(dir))
}

/// Whether a path is a directory, and whether it is a repository.
pub open spec fn is_dir(disk: Disk, path: Path, repository: bool) -> bool {
    exists|size: u64|
        disk(path.drop_last()).contains(
            #[trigger] dir_item(path, repository, size),
        )
}

pub open spec fn dir_item(path: Path, repository: bool, size: u64) -> ItemView {
    ItemView::Seen { path, kind: Ok(FileKind::Directory), repository, size }
}

/// Whether a path is something other than a directory, of this kind and this size.
pub open spec fn is_file(disk: Disk, path: Path, kind: FileKind, size: u64) -> bool {
    kind != FileKind::Directory && exists|repository: bool|
        disk(path.drop_last()).contains(#[trigger] file_item(path, kind, repository, size))
}

pub open spec fn file_item(path: Path, kind: FileKind, repository: bool, size: u64) -> ItemView {
    ItemView::Seen { path, kind: Ok(kind), repository, size }
}

/// Whether a name is `.git`, in any mixture of capitals and small letters.
pub open spec fn is_git(name: Seq<u8>) -> bool {
    &&& name.len() == 4
    &&& name[0] == 46
    &&& (name[1] == 103 || name[1] == 71)
    &&& (name[2] == 105 || name[2] == 73)
    &&& (name[3] == 116 || name[3] == 84)
}

/// Whether a path lies beneath the root, with directories all the way down to what holds it, and
/// no `.git` among them.
pub open spec fn reachable(disk: Disk, root: Path, path: Path) -> bool {
    &&& root.is_prefix_of(path)
    &&& forall|k: int|
        root.len() < k < path.len() ==> !is_git((#[trigger] path.take(k)).last()) && (is_dir(
            disk,
            path.take(k),
            true,
        ) || is_dir(disk, path.take(k), false))
}

/// Whether a directory beneath the root and above a path is a repository.
pub open spec fn in_repository(disk: Disk, root: Path, path: Path) -> bool {
    exists|k: int| root.len() < k < path.len() && is_dir(disk, #[trigger] path.take(k), true)
}

/// The state once the directory on top of the stack has been taken off it.
pub open spec fn taken(m: WalkModel) -> WalkModel {
    WalkModel { stack: m.stack.drop_last(), ..m }
}

/// One directory that was listed.
pub open spec fn listed(c: Context, disk: Disk, a: WalkModel, b: WalkModel) -> bool {
    &&& a.stack.len() > 0
    &&& ({
        let (dir, inside) = a.stack.last();
        b == walk::with_items(c, taken(a), dir, inside, disk(dir), disk(dir).len() as int)
    })
}

/// One directory that could not be listed.
pub open spec fn failed(a: WalkModel, b: WalkModel) -> bool {
    a.stack.len() > 0 && exists|w: WarningView| b == #[trigger] walk::warned(taken(a), w)
}

pub open spec fn begins(c: Context, m: WalkModel) -> bool {
    m.entries.len() == 0 && m.stack == seq![(c.root, false)]
}

/// A traversal as far as it has come.
pub open spec fn traversal(c: Context, disk: Disk, states: Seq<WalkModel>) -> bool {
    &&& states.len() > 0
    &&& begins(c, states[0])
    &&& forall|k: int|
        0 < k < states.len() ==> listed(c, disk, states[k - 1], #[trigger] states[k]) || failed(
            states[k - 1],
            states[k],
        )
}

/// A traversal that is done, and that could list every directory.
pub open spec fn complete(c: Context, disk: Disk, states: Seq<WalkModel>) -> bool {
    &&& states.len() > 0
    &&& begins(c, states[0])
    &&& forall|k: int|
        0 < k < states.len() ==> listed(c, disk, states[k - 1], #[trigger] states[k])
    &&& states.last().stack.len() == 0
}

// ---------------------------------------------------------------------------
// What a traversal finds is there
// ---------------------------------------------------------------------------

/// A directory that may be listed: it is reached, itself included, and it is inside a repository
/// just where it is said to be.
spec fn place_ok(disk: Disk, root: Path, dir: Path, inside: bool) -> bool {
    &&& root.is_prefix_of(dir)
    &&& forall|k: int|
        root.len() < k <= dir.len() ==> !is_git((#[trigger] dir.take(k)).last()) && (is_dir(
            disk,
            dir.take(k),
            true,
        ) || is_dir(disk, dir.take(k), false))
    &&& inside <==> exists|k: int|
        root.len() < k <= dir.len() && is_dir(disk, #[trigger] dir.take(k), true)
}

spec fn entry_ok(c: Context, disk: Disk, e: EntryView) -> bool {
    match e {
        EntryView::Plain { source, stored, mode, size } => {
            &&& reachable(disk, c.root, source)
            &&& source.len() > c.root.len()
            &&& !is_git(source.last())
            &&& !in_repository(disk, c.root, source)
            &&& c.rules.resolved(source).verdict == Verdict::Capture
            &&& exists|kind: FileKind| #[trigger]
                is_file(disk, source, kind, size) && blob_mode(kind) == Some(mode)
        },
        EntryView::Repo { source, key } => {
            &&& reachable(disk, c.root, source)
            &&& source.len() > c.root.len()
            &&& !is_git(source.last())
            &&& is_dir(disk, source, true)
        },
    }
}

/// The mode a file is stored under: a regular one by its execute bit, a link as one. Nothing else
/// is stored.
pub open spec fn blob_mode(kind: FileKind) -> Option<FileMode> {
    match kind {
        FileKind::Regular { executable: true } => Some(FileMode::Executable),
        FileKind::Regular { executable: false } => Some(FileMode::Regular),
        FileKind::Symlink => Some(FileMode::Symlink),
        FileKind::Directory => None,
        FileKind::Skip(_) => None,
    }
}

spec fn found_ok(c: Context, disk: Disk, m: WalkModel) -> bool {
    &&& forall|i: int|
        0 <= i < m.stack.len() ==> place_ok(
            disk,
            c.root,
            (#[trigger] m.stack[i]).0,
            m.stack[i].1,
        )
    &&& forall|i: int| 0 <= i < m.entries.len() ==> entry_ok(c, disk, #[trigger] m.entries[i])
}

/// One path is said to be one thing only.
proof fn lemma_one_item(disk: Disk, dir: Path, a: ItemView, b: ItemView)
    requires
        is_disk(disk),
        disk(dir).contains(a),
        disk(dir).contains(b),
        a is Seen,
        b is Seen,
        a->path == b->path,
    ensures
        a == b,
{
    assert(is_listing(dir, disk(dir)));
    let items = disk(dir);
    let i = choose|i: int| 0 <= i < items.len() && items[i] == a;
    let j = choose|j: int| 0 <= j < items.len() && items[j] == b;
    if i < j {
        assert(items[i]->path != items[j]->path);
    } else if j < i {
        assert(items[j]->path != items[i]->path);
    }
}

proof fn lemma_child_place(
    disk: Disk,
    root: Path,
    dir: Path,
    inside: bool,
    child: Path,
    repository: bool,
)
    requires
        is_disk(disk),
        place_ok(disk, root, dir, inside),
        child.len() == dir.len() + 1,
        child.drop_last() == dir,
        !is_git(child.last()),
        is_dir(disk, child, repository),
    ensures
        place_ok(disk, root, child, inside || repository),
{
    let now = inside || repository;
    assert(child.take(child.len() as int) =~= child);
    assert(root.is_prefix_of(child)) by {
        assert(root =~= child.subrange(0, root.len() as int));
    }
    assert forall|k: int| root.len() < k <= child.len() implies !is_git(
        (#[trigger] child.take(k)).last(),
    ) && (is_dir(disk, child.take(k), true) || is_dir(disk, child.take(k), false)) by {
        if k < child.len() {
            assert(child.take(k) =~= dir.take(k));
        }
    }
    if now {
        if repository {
            assert(is_dir(disk, child.take(child.len() as int), true));
        } else {
            let k = choose|k: int|
                root.len() < k <= dir.len() && is_dir(disk, #[trigger] dir.take(k), true);
            assert(child.take(k) =~= dir.take(k));
            assert(is_dir(disk, child.take(k), true));
        }
    } else {
        assert forall|k: int| root.len() < k <= child.len() implies !is_dir(
            disk,
            #[trigger] child.take(k),
            true,
        ) by {
            if k < child.len() {
                assert(child.take(k) =~= dir.take(k));
                assert(!is_dir(disk, dir.take(k), true));
            } else if is_dir(disk, child, true) {
                let a = choose|s: u64| disk(dir).contains(#[trigger] dir_item(child, true, s));
                let b = choose|s: u64| disk(dir).contains(#[trigger] dir_item(child, false, s));
                lemma_one_item(disk, dir, dir_item(child, true, a), dir_item(child, false, b));
            }
        }
    }
}

/// What holds a child is reached by way of its directory.
proof fn lemma_child_reached(disk: Disk, root: Path, dir: Path, inside: bool, child: Path)
    requires
        place_ok(disk, root, dir, inside),
        child.len() == dir.len() + 1,
        child.drop_last() == dir,
    ensures
        reachable(disk, root, child),
        inside <==> in_repository(disk, root, child),
{
    assert(root.is_prefix_of(child)) by {
        assert(root =~= child.subrange(0, root.len() as int));
    }
    assert forall|k: int| root.len() < k < child.len() implies !is_git(
        (#[trigger] child.take(k)).last(),
    ) && (is_dir(disk, child.take(k), true) || is_dir(disk, child.take(k), false)) by {
        assert(child.take(k) =~= dir.take(k));
    }
    if inside {
        let k = choose|k: int|
            root.len() < k <= dir.len() && is_dir(disk, #[trigger] dir.take(k), true);
        assert(child.take(k) =~= dir.take(k));
        assert(is_dir(disk, child.take(k), true));
    }
    if in_repository(disk, root, child) {
        let k = choose|k: int|
            root.len() < k < child.len() && is_dir(disk, #[trigger] child.take(k), true);
        assert(child.take(k) =~= dir.take(k));
        assert(is_dir(disk, dir.take(k), true));
    }
}

proof fn lemma_item_ok(
    c: Context,
    disk: Disk,
    m: WalkModel,
    dir: Path,
    inside: bool,
    item: ItemView,
)
    requires
        is_disk(disk),
        place_ok(disk, c.root, dir, inside),
        found_ok(c, disk, m),
        disk(dir).contains(item),
    ensures
        found_ok(c, disk, walk::with_item(c, m, dir, inside, item)),
{
    let after = walk::with_item(c, m, dir, inside, item);
    assert(is_listing(dir, disk(dir)));
    let at = choose|i: int| 0 <= i < disk(dir).len() && #[trigger] disk(dir)[i] == item;
    if let ItemView::Seen { path: p, kind, repository, size } = item {
        assert(disk(dir)[at]->path == p);
        assert(p.len() == dir.len() + 1 && p.drop_last() == dir);
        if !walk::is_marker(p) {
            assert(!is_git(p.last()));
            lemma_child_reached(disk, c.root, dir, inside, p);
            match kind {
                Err(_) => {},
                Ok(FileKind::Directory) => {
                    assert(item == dir_item(p, repository, size));
                    assert(is_dir(disk, p, repository));
                    lemma_child_place(disk, c.root, dir, inside, p, repository);
                },
                Ok(kind) => {
                    assert(item == file_item(p, kind, repository, size));
                    assert(is_file(disk, p, kind, size));
                },
            }
        }
    }
    assert forall|i: int| 0 <= i < after.entries.len() implies entry_ok(
        c,
        disk,
        #[trigger] after.entries[i],
    ) by {
        if i < m.entries.len() {
            assert(after.entries[i] == m.entries[i]);
        } else if let ItemView::Seen { path: p, kind: Ok(kind), repository, size } = item {
            if kind != FileKind::Directory {
                assert(after.entries[i] is Plain);
                assert(is_file(disk, p, kind, size));
                assert(blob_mode(kind) == kind.stored_mode());
                let e = after.entries[i];
                assert(e->Plain_source == p);
                assert(reachable(disk, c.root, p));
                assert(!is_git(p.last()));
                assert(!inside);
                assert(!in_repository(disk, c.root, p));
                assert(p.len() > c.root.len());
                assert(c.rules.resolved(p).verdict == Verdict::Capture);
                assert(e->size == size);
                assert(blob_mode(kind) == Some(e->mode));
                assert(entry_ok(c, disk, e));
            } else {
                assert(after.entries[i] is Repo);
            }
        }
    }
    assert forall|i: int| 0 <= i < after.stack.len() implies place_ok(
        disk,
        c.root,
        (#[trigger] after.stack[i]).0,
        after.stack[i].1,
    ) by {
        if i < m.stack.len() {
            assert(after.stack[i] == m.stack[i]);
        }
    }
}

proof fn lemma_items_ok(c: Context, disk: Disk, m: WalkModel, dir: Path, inside: bool, n: int)
    requires
        is_disk(disk),
        place_ok(disk, c.root, dir, inside),
        found_ok(c, disk, m),
        0 <= n <= disk(dir).len(),
    ensures
        found_ok(c, disk, walk::with_items(c, m, dir, inside, disk(dir), n)),
    decreases n,
{
    if n > 0 {
        lemma_items_ok(c, disk, m, dir, inside, n - 1);
        let before = walk::with_items(c, m, dir, inside, disk(dir), n - 1);
        assert(disk(dir).contains(disk(dir)[n - 1]));
        lemma_item_ok(c, disk, before, dir, inside, disk(dir)[n - 1]);
    }
}

proof fn lemma_traversal_ok(c: Context, disk: Disk, states: Seq<WalkModel>, k: int)
    requires
        is_disk(disk),
        traversal(c, disk, states),
        0 <= k < states.len(),
    ensures
        found_ok(c, disk, states[k]),
    decreases k,
{
    if k == 0 {
        let root = c.root;
        assert(root.is_prefix_of(root)) by {
            assert(root =~= root.subrange(0, root.len() as int));
        }
        assert(place_ok(disk, root, root, false));
    } else {
        lemma_traversal_ok(c, disk, states, k - 1);
        let a = states[k - 1];
        let b = states[k];
        assert(a.stack.last() == a.stack[a.stack.len() - 1]);
        let m = taken(a);
        assert forall|i: int| 0 <= i < m.stack.len() implies place_ok(
            disk,
            c.root,
            (#[trigger] m.stack[i]).0,
            m.stack[i].1,
        ) by {
            assert(m.stack[i] == a.stack[i]);
        }
        assert(found_ok(c, disk, m));
        if listed(c, disk, a, b) {
            let (dir, inside) = a.stack.last();
            lemma_items_ok(c, disk, m, dir, inside, disk(dir).len() as int);
        } else {
            let w = choose|w: WarningView| b == #[trigger] walk::warned(m, w);
            assert(b.stack == m.stack && b.entries == m.entries);
        }
    }
}

/// A file that is stored is on the disk, beneath the root and in no repository, with no `.git` on
/// the way to it; the rules capture it, and it is stored with its own size, under the mode of
/// what it is.
pub proof fn a_stored_file_is_there(
    c: Context,
    disk: Disk,
    states: Seq<WalkModel>,
    source: Path,
    stored: Path,
    mode: FileMode,
    size: u64,
)
    requires
        is_disk(disk),
        traversal(c, disk, states),
        states.last().entries.contains(EntryView::Plain { source, stored, mode, size }),
    ensures
        reachable(disk, c.root, source),
        source.len() > c.root.len(),
        !is_git(source.last()),
        !in_repository(disk, c.root, source),
        c.rules.resolved(source).verdict == Verdict::Capture,
        exists|kind: FileKind| #[trigger]
            is_file(disk, source, kind, size) && blob_mode(kind) == Some(mode),
{
    lemma_traversal_ok(c, disk, states, states.len() - 1);
    let m = states.last();
    let e = EntryView::Plain { source, stored, mode, size };
    let i = choose|i: int| 0 <= i < m.entries.len() && m.entries[i] == e;
    assert(entry_ok(c, disk, m.entries[i]));
}

/// A repository that is captured is one on the disk, beneath the root.
pub proof fn a_captured_repository_is_there(
    c: Context,
    disk: Disk,
    states: Seq<WalkModel>,
    source: Path,
    key: Seq<char>,
)
    requires
        is_disk(disk),
        traversal(c, disk, states),
        states.last().entries.contains(EntryView::Repo { source, key }),
    ensures
        reachable(disk, c.root, source),
        source.len() > c.root.len(),
        !is_git(source.last()),
        is_dir(disk, source, true),
{
    lemma_traversal_ok(c, disk, states, states.len() - 1);
    let m = states.last();
    let i = choose|i: int| 0 <= i < m.entries.len() && m.entries[i] == EntryView::Repo {
        source,
        key,
    };
    assert(entry_ok(c, disk, m.entries[i]));
}

/// Nothing inside a repository is stored as a plain file: its content is history.
pub proof fn nothing_in_a_repository_is_stored_twice(
    c: Context,
    disk: Disk,
    states: Seq<WalkModel>,
    repository: Path,
    key: Seq<char>,
    source: Path,
    stored: Path,
    mode: FileMode,
    size: u64,
)
    requires
        is_disk(disk),
        traversal(c, disk, states),
        states.last().entries.contains(EntryView::Repo { source: repository, key }),
        states.last().entries.contains(EntryView::Plain { source, stored, mode, size }),
    ensures
        !repository.is_prefix_of(source),
{
    a_stored_file_is_there(c, disk, states, source, stored, mode, size);
    a_captured_repository_is_there(c, disk, states, repository, key);
    if repository.is_prefix_of(source) {
        let k = repository.len() as int;
        assert(source.take(k) =~= repository);
        if k < source.len() {
            assert(is_dir(disk, source.take(k), true));
        } else {
            assert(source =~= repository);
            let dir = source.drop_last();
            let kind = choose|kind: FileKind| #[trigger] is_file(disk, source, kind, size);
            let r = choose|r: bool|
                disk(dir).contains(#[trigger] file_item(source, kind, r, size));
            let s = choose|s: u64| disk(dir).contains(#[trigger] dir_item(source, true, s));
            lemma_one_item(disk, dir, file_item(source, kind, r, size), dir_item(source, true, s));
        }
    }
}

/// Inside a repository every directory is inside it too, and no file is stored: whatever one
/// entry of such a listing is, it puts nothing on the stack that is said to be outside.
pub proof fn what_is_inside_stays_inside(c: Context, m: WalkModel, dir: Path, item: ItemView)
    ensures
        ({
            let after = walk::with_item(c, m, dir, true, item);
            &&& m.stack.is_prefix_of(after.stack)
            &&& forall|k: int|
                m.stack.len() <= k < after.stack.len() ==> (#[trigger] after.stack[k]).1
            &&& forall|k: int|
                m.entries.len() <= k < after.entries.len() ==> (#[trigger] after.entries[k]) is Repo
        }),
{
    let after = walk::with_item(c, m, dir, true, item);
    assert(m.stack =~= after.stack.subrange(0, m.stack.len() as int));
}

// ---------------------------------------------------------------------------
// What is there is found
// ---------------------------------------------------------------------------

/// Whether something on the disk is to be found, and is not yet.
spec fn due(
    c: Context,
    disk: Disk,
    m: WalkModel,
    path: Path,
    dir: Path,
    from: int,
) -> bool {
    ||| exists|s: int|
        0 <= s < m.stack.len() && (#[trigger] m.stack[s]).0.len() < path.len() && m.stack[s].0
            == path.take(m.stack[s].0.len() as int)
    ||| dir.len() < path.len() && dir == path.take(dir.len() as int) && exists|i: int|
        from <= i < disk(dir).len() && (#[trigger] disk(dir)[i]) is Seen && disk(dir)[i]->path
            == path.take(dir.len() as int + 1)
}

/// Whether a path is worth listing: the rules capture it or something explicitly beneath it.
spec fn wanted(c: Context, path: Path) -> bool {
    c.rules.resolved(path).verdict == Verdict::Capture || c.rules.may_capture_under(path)
}

proof fn lemma_wanted_above(c: Context, path: Path, k: int)
    requires
        wanted(c, path),
        0 <= k <= path.len(),
    ensures
        wanted(c, path.take(k)),
{
    let above = path.take(k);
    assert(path::holds_path(above, path));
    if !wanted(c, above) {
        precedence::pruning_loses_nothing(c.rules, above, path);
        let t = c.rules;
        let p = choose|p: Path|
            #[trigger] t.explicit.dom().contains(p) && path::holds_path(path, p)
                && t.explicit[p].verdict == Verdict::Capture;
        assert(path::holds_path(above, p)) by {
            assert(p.take(k) =~= p.take(path.len() as int).take(k));
        }
        assert(t.may_capture_under(above));
    }
}

proof fn lemma_top_place(
    disk: Disk,
    root: Path,
    path: Path,
    n: int,
    inside: bool,
)
    requires
        0 <= n < path.len(),
        place_ok(disk, root, path.take(n), inside),
        !in_repository(disk, root, path),
    ensures
        !inside,
{
    if inside {
        let dir = path.take(n);
        let k = choose|k: int|
            root.len() < k <= dir.len() && is_dir(disk, #[trigger] dir.take(k), true);
        assert(dir.take(k) =~= path.take(k));
        assert(is_dir(disk, path.take(k), true));
    }
}

spec fn stored_as(m: WalkModel, path: Path, size: u64, kind: FileKind) -> bool {
    exists|stored: Path, mode: FileMode|
        m.entries.contains(#[trigger] plain_entry(path, stored, mode, size)) && blob_mode(kind)
            == Some(mode)
}

pub open spec fn plain_entry(source: Path, stored: Path, mode: FileMode, size: u64) -> EntryView {
    EntryView::Plain { source, stored, mode, size }
}

spec fn captured_as(m: WalkModel, path: Path) -> bool {
    exists|key: Seq<char>| m.entries.contains(#[trigger] repo_entry(path, key))
}

pub open spec fn repo_entry(source: Path, key: Seq<char>) -> EntryView {
    EntryView::Repo { source, key }
}

proof fn lemma_entries_grow(c: Context, m: WalkModel, dir: Path, inside: bool, item: ItemView)
    ensures
        ({
            let after = walk::with_item(c, m, dir, inside, item);
            &&& forall|e: EntryView| m.entries.contains(e) ==> #[trigger] after.entries.contains(e)
            &&& forall|s: int|
                0 <= s < m.stack.len() ==> s < after.stack.len() && after.stack[s]
                    == #[trigger] m.stack[s]
        }),
{
    let after = walk::with_item(c, m, dir, inside, item);
    assert forall|e: EntryView| m.entries.contains(e) implies #[trigger] after.entries.contains(
        e,
    ) by {
        let i = choose|i: int| 0 <= i < m.entries.len() && m.entries[i] == e;
        assert(after.entries[i] == e);
    }
}

/// What is to be found of a path: a file in no repository that the rules capture and the store
/// can hold, or a repository that is worth looking into.
spec fn is_target(c: Context, disk: Disk, path: Path, kind: FileKind, size: u64) -> bool {
    &&& reachable(disk, c.root, path)
    &&& path.len() > c.root.len()
    &&& !is_git(path.last())
    &&& wanted(c, path)
    &&& if kind == FileKind::Directory {
        is_dir(disk, path, true)
    } else {
        &&& is_file(disk, path, kind, size)
        &&& blob_mode(kind) is Some
        &&& !in_repository(disk, c.root, path)
        &&& c.rules.resolved(path).verdict == Verdict::Capture
        &&& path::is_tree_path(walk::stored_raw(path, c.root, c.alias))
    }
}

spec fn is_found(m: WalkModel, path: Path, kind: FileKind, size: u64) -> bool {
    if kind == FileKind::Directory {
        captured_as(m, path)
    } else {
        stored_as(m, path, size, kind)
    }
}

proof fn lemma_item_found(
    c: Context,
    disk: Disk,
    m: WalkModel,
    dir: Path,
    inside: bool,
    n: int,
    path: Path,
    kind: FileKind,
    size: u64,
)
    requires
        is_disk(disk),
        place_ok(disk, c.root, dir, inside),
        0 <= n < disk(dir).len(),
        is_target(c, disk, path, kind, size),
        is_found(m, path, kind, size) || due(c, disk, m, path, dir, n),
    ensures
        ({
            let after = walk::with_item(c, m, dir, inside, disk(dir)[n]);
            is_found(after, path, kind, size) || due(c, disk, after, path, dir, n + 1)
        }),
{
    let item = disk(dir)[n];
    let after = walk::with_item(c, m, dir, inside, item);
    lemma_entries_grow(c, m, dir, inside, item);
    assert(disk(dir).contains(item));
    assert(is_listing(dir, disk(dir)));
    if is_found(m, path, kind, size) {
        if kind == FileKind::Directory {
            let key = choose|key: Seq<char>|
                m.entries.contains(#[trigger] repo_entry(path, key));
            assert(after.entries.contains(repo_entry(path, key)));
        } else {
            let (stored, mode) = choose|stored: Path, mode: FileMode|
                m.entries.contains(#[trigger] plain_entry(path, stored, mode, size)) && blob_mode(
                    kind,
                ) == Some(mode);
            assert(after.entries.contains(plain_entry(path, stored, mode, size)));
        }
    } else if exists|s: int|
        0 <= s < m.stack.len() && (#[trigger] m.stack[s]).0.len() < path.len() && m.stack[s].0
            == path.take(m.stack[s].0.len() as int) {
        let s = choose|s: int|
            0 <= s < m.stack.len() && (#[trigger] m.stack[s]).0.len() < path.len() && m.stack[s].0
                == path.take(m.stack[s].0.len() as int);
        assert(after.stack[s] == m.stack[s]);
    } else {
        let d = dir.len() as int;
        let i = choose|i: int|
            n <= i < disk(dir).len() && (#[trigger] disk(dir)[i]) is Seen && disk(dir)[i]->path
                == path.take(d + 1);
        if i > n {
            assert(due(c, disk, after, path, dir, n + 1));
        } else {
            let child = path.take(d + 1);
            assert(child.drop_last() =~= path.take(d));
            assert(item->path == child);
            lemma_wanted_above(c, path, d + 1);
            if d + 1 < path.len() {
                assert(c.root.len() < d + 1) by {
                    assert(c.root.is_prefix_of(dir));
                }
                assert(!is_git(path.take(d + 1).last()));
                assert(!walk::is_marker(child));
                let repository = is_dir(disk, child, true);
                assert(is_dir(disk, child, repository));
                let size = choose|s: u64|
                    disk(dir).contains(#[trigger] dir_item(child, repository, s));
                lemma_one_item(disk, dir, item, dir_item(child, repository, size));
                assert(after.stack.len() > 0 && after.stack.last().0 == child);
                assert(after.stack[after.stack.len() - 1].0 == child);
                assert(due(c, disk, after, path, dir, n + 1));
            } else {
                assert(child =~= path);
                assert(!walk::is_marker(path));
                if kind == FileKind::Directory {
                    let s = choose|s: u64| disk(dir).contains(#[trigger] dir_item(path, true, s));
                    lemma_one_item(disk, dir, item, dir_item(path, true, s));
                    assert(path::holds_path(c.root, path)) by {
                        assert(path.take(c.root.len() as int) =~= c.root);
                    }
                    let key = walk::repo_key(c.alias, path.skip(c.root.len() as int));
                    let e = repo_entry(path, key);
                    assert(after.entries.last() == e);
                    assert(after.entries[after.entries.len() - 1] == e);
                    assert(after.entries.contains(e));
                } else {
                    let r = choose|r: bool|
                        disk(dir).contains(#[trigger] file_item(path, kind, r, size));
                    lemma_one_item(disk, dir, item, file_item(path, kind, r, size));
                    lemma_top_place(disk, c.root, path, d, inside);
                    let e = after.entries.last();
                    assert(e is Plain);
                    let made = plain_entry(path, e->stored, e->mode, size);
                    assert(after.entries[after.entries.len() - 1] == made);
                    assert(after.entries.contains(made));
                    assert(blob_mode(kind) == Some(e->mode));
                }
            }
        }
    }
}

proof fn lemma_items_found(
    c: Context,
    disk: Disk,
    m: WalkModel,
    dir: Path,
    inside: bool,
    n: int,
    path: Path,
    kind: FileKind,
    size: u64,
)
    requires
        is_disk(disk),
        place_ok(disk, c.root, dir, inside),
        0 <= n <= disk(dir).len(),
        is_target(c, disk, path, kind, size),
        is_found(m, path, kind, size) || due(c, disk, m, path, dir, 0),
    ensures
        ({
            let after = walk::with_items(c, m, dir, inside, disk(dir), n);
            is_found(after, path, kind, size) || due(c, disk, after, path, dir, n)
        }),
    decreases n,
{
    if n > 0 {
        lemma_items_found(c, disk, m, dir, inside, n - 1, path, kind, size);
        let before = walk::with_items(c, m, dir, inside, disk(dir), n - 1);
        lemma_item_found(c, disk, before, dir, inside, n - 1, path, kind, size);
    }
}

/// A directory on the way to something lists the next step of the way.
proof fn lemma_next_item(
    c: Context,
    disk: Disk,
    dir: Path,
    inside: bool,
    path: Path,
    kind: FileKind,
    size: u64,
)
    requires
        place_ok(disk, c.root, dir, inside),
        is_target(c, disk, path, kind, size),
        dir.len() < path.len(),
        dir == path.take(dir.len() as int),
    ensures
        exists|i: int|
            0 <= i < disk(dir).len() && (#[trigger] disk(dir)[i]) is Seen && disk(dir)[i]->path
                == path.take(dir.len() as int + 1),
{
    let d = dir.len() as int;
    let child = path.take(d + 1);
    assert(child.drop_last() =~= dir);
    let item = if d + 1 < path.len() {
        assert(c.root.len() < d + 1) by {
            assert(c.root.is_prefix_of(dir));
        }
        assert(!is_git(path.take(d + 1).last()));
        let r = is_dir(disk, child, true);
        assert(is_dir(disk, child, r));
        dir_item(child, r, choose|s: u64| disk(dir).contains(#[trigger] dir_item(child, r, s)))
    } else {
        assert(child =~= path);
        if kind == FileKind::Directory {
            dir_item(
                child,
                true,
                choose|s: u64| disk(dir).contains(#[trigger] dir_item(child, true, s)),
            )
        } else {
            file_item(
                child,
                kind,
                choose|r: bool| disk(dir).contains(#[trigger] file_item(child, kind, r, size)),
                size,
            )
        }
    };
    assert(disk(dir).contains(item));
    let i = choose|i: int| 0 <= i < disk(dir).len() && #[trigger] disk(dir)[i] == item;
    assert(disk(dir)[i] is Seen && disk(dir)[i]->path == child);
}

/// Whether a path is found, or lies beneath a directory that is still to be listed.
spec fn on_course(m: WalkModel, path: Path, kind: FileKind, size: u64) -> bool {
    is_found(m, path, kind, size) || exists|s: int|
        0 <= s < m.stack.len() && (#[trigger] m.stack[s]).0.len() < path.len() && m.stack[s].0
            == path.take(m.stack[s].0.len() as int)
}

proof fn lemma_step_found(
    c: Context,
    disk: Disk,
    a: WalkModel,
    b: WalkModel,
    path: Path,
    kind: FileKind,
    size: u64,
)
    requires
        is_disk(disk),
        found_ok(c, disk, a),
        listed(c, disk, a, b),
        is_target(c, disk, path, kind, size),
        on_course(a, path, kind, size),
    ensures
        on_course(b, path, kind, size),
{
    let m = taken(a);
    let last = a.stack.len() - 1;
    let (dir, inside) = a.stack.last();
    assert(a.stack[last] == (dir, inside));
    assert(place_ok(disk, c.root, dir, inside));
    if is_found(a, path, kind, size) {
        assert(m.entries == a.entries);
        assert(is_found(m, path, kind, size));
    } else {
        let s = choose|s: int|
            0 <= s < a.stack.len() && (#[trigger] a.stack[s]).0.len() < path.len() && a.stack[s].0
                == path.take(a.stack[s].0.len() as int);
        if s < last {
            assert(m.stack[s] == a.stack[s]);
        } else {
            lemma_next_item(c, disk, dir, inside, path, kind, size);
        }
        assert(due(c, disk, m, path, dir, 0));
    }
    lemma_items_found(c, disk, m, dir, inside, disk(dir).len() as int, path, kind, size);
}

proof fn lemma_states_found(
    c: Context,
    disk: Disk,
    states: Seq<WalkModel>,
    k: int,
    path: Path,
    kind: FileKind,
    size: u64,
)
    requires
        is_disk(disk),
        complete(c, disk, states),
        is_target(c, disk, path, kind, size),
        0 <= k < states.len(),
    ensures
        on_course(states[k], path, kind, size),
    decreases k,
{
    if k == 0 {
        assert(states[0].stack[0].0 == c.root);
        assert(path.take(c.root.len() as int) =~= c.root);
    } else {
        lemma_states_found(c, disk, states, k - 1, path, kind, size);
        assert(traversal(c, disk, states));
        lemma_traversal_ok(c, disk, states, k - 1);
        assert(listed(c, disk, states[k - 1], states[k]));
        lemma_step_found(c, disk, states[k - 1], states[k], path, kind, size);
    }
}

/// Every file beneath the root that is in no repository, that the rules capture and that the
/// store can hold, is stored, with its own size and under the mode of what it is.
pub proof fn a_captured_file_is_stored(
    c: Context,
    disk: Disk,
    states: Seq<WalkModel>,
    source: Path,
    kind: FileKind,
    size: u64,
)
    requires
        is_disk(disk),
        complete(c, disk, states),
        reachable(disk, c.root, source),
        source.len() > c.root.len(),
        !is_git(source.last()),
        !in_repository(disk, c.root, source),
        is_file(disk, source, kind, size),
        blob_mode(kind) is Some,
        c.rules.resolved(source).verdict == Verdict::Capture,
        path::is_tree_path(walk::stored_raw(source, c.root, c.alias)),
    ensures
        exists|stored: Path| #[trigger]
            states.last().entries.contains(plain_entry(source, stored, blob_mode(kind)->0, size)),
{
    lemma_states_found(c, disk, states, states.len() - 1, source, kind, size);
    let m = states.last();
    let (stored, mode) = choose|stored: Path, mode: FileMode|
        m.entries.contains(#[trigger] plain_entry(source, stored, mode, size)) && blob_mode(kind)
            == Some(mode);
    assert(m.entries.contains(plain_entry(source, stored, blob_mode(kind)->0, size)));
}

/// Every repository beneath the root is captured, one inside another too, unless the rules skip
/// it and capture nothing explicitly beneath it.
pub proof fn a_repository_is_captured(
    c: Context,
    disk: Disk,
    states: Seq<WalkModel>,
    source: Path,
)
    requires
        is_disk(disk),
        complete(c, disk, states),
        reachable(disk, c.root, source),
        source.len() > c.root.len(),
        !is_git(source.last()),
        is_dir(disk, source, true),
        c.rules.resolved(source).verdict == Verdict::Capture || c.rules.may_capture_under(source),
    ensures
        exists|key: Seq<char>| #[trigger] states.last().entries.contains(repo_entry(source, key)),
{
    lemma_states_found(c, disk, states, states.len() - 1, source, FileKind::Directory, 0);
}

// ---------------------------------------------------------------------------
// Where what is found is stored
// ---------------------------------------------------------------------------

/// A file is stored under its root's name, by the very components it has beneath the root, unless
/// one of them is `.git` in any case.
pub proof fn the_tree_mirrors_the_disk(root: Path, relative: Path, alias: Seq<char>)
    requires
        path::is_component(encode_utf8(alias)),
        path::all_components(relative),
    ensures
        path::components(walk::stored_raw(root + relative, root, alias)) == seq![
            encode_utf8(alias),
        ] + relative,
        path::is_tree_path(walk::stored_raw(root + relative, root, alias)) == !(is_git(
            encode_utf8(alias),
        ) || exists|i: int| 0 <= i < relative.len() && is_git(#[trigger] relative[i])),
{
    let name = encode_utf8(alias);
    let whole = root + relative;
    let raw = walk::stored_raw(whole, root, alias);
    let parts = seq![name] + relative;
    assert(whole.take(root.len() as int) =~= root);
    assert(whole.skip(root.len() as int) =~= relative);
    if relative.len() > 0 {
        text::lemma_join_prepend(name, relative, seq![path::SLASH]);
        assert(raw =~= text::join(parts, seq![path::SLASH]));
    } else {
        assert(parts =~= seq![name]);
        assert(raw == text::join(parts, seq![path::SLASH]));
    }
    assert forall|i: int| 0 <= i < parts.len() implies (#[trigger] parts[i]).len() > 0
        && !parts[i].contains(path::SLASH) && parts[i] != seq![46u8] && parts[i] != seq![
        46u8,
        46u8,
    ] by {
        if i > 0 {
            assert(path::is_component(relative[i - 1]));
        }
    }
    path::a_tree_path_reads_back(parts);
    assert(parts[0] == name);
    if exists|i: int| 0 <= i < relative.len() && is_git(#[trigger] relative[i]) {
        let i = choose|i: int| 0 <= i < relative.len() && is_git(#[trigger] relative[i]);
        assert(path::is_git_name(parts[i + 1]));
    }
    if exists|i: int| 0 <= i < parts.len() && path::is_git_name(#[trigger] parts[i]) {
        let i = choose|i: int| 0 <= i < parts.len() && path::is_git_name(#[trigger] parts[i]);
        if i > 0 {
            assert(is_git(relative[i - 1]));
        }
    }
    if is_git(name) {
        assert(path::is_git_name(parts[0]));
    }
}

/// Two files of one root are never stored at one place.
pub proof fn two_files_have_two_places(root: Path, a: Path, b: Path, alias: Seq<char>)
    requires
        path::is_component(encode_utf8(alias)),
        path::all_components(a),
        path::all_components(b),
        path::components(walk::stored_raw(root + a, root, alias)) == path::components(
            walk::stored_raw(root + b, root, alias),
        ),
    ensures
        a == b,
{
    the_tree_mirrors_the_disk(root, a, alias);
    the_tree_mirrors_the_disk(root, b, alias);
    let name = encode_utf8(alias);
    assert((seq![name] + a).skip(1) =~= a);
    assert((seq![name] + b).skip(1) =~= b);
}

/// A repository's key is its root's name and then its way down from the root, each component
/// percent-encoded between slashes.
pub proof fn a_key_spells_the_way_down(alias: Seq<char>, relative: Path)
    requires
        !alias.contains('/'),
    ensures
        text::split(walk::repo_key(alias, relative), '/') == seq![alias] + relative.map_values(
            |part: Seq<u8>| encode::percent_encoded(part),
        ),
    decreases relative.len(),
{
    let spelt = |part: Seq<u8>| encode::percent_encoded(part);
    if relative.len() == 0 {
        path::lemma_split_join(seq![alias], '/');
        assert(text::join(seq![alias], seq!['/']) == alias);
        assert(seq![alias] + relative.map_values(spelt) =~= seq![alias]);
    } else {
        let above = relative.drop_last();
        let part = encode::percent_encoded(relative.last());
        a_key_spells_the_way_down(alias, above);
        reveal_strlit("/");
        assert("/"@ =~= seq!['/']);
        path::lemma_split_around(walk::repo_key(alias, above), '/', part);
        encode::percent_is_a_safe_component(relative.last());
        assert(!part.contains('/')) by {
            if part.contains('/') {
                let i = choose|i: int| 0 <= i < part.len() && part[i] == '/';
                assert(encode::component_char(part[i]));
                assert('/' as u8 == 47);
            }
        }
        path::lemma_split_join(seq![part], '/');
        assert(text::join(seq![part], seq!['/']) == part);
        assert(seq![alias] + above.map_values(spelt) + seq![part] =~= seq![alias]
            + relative.map_values(spelt));
    }
}

/// Two repositories of one root never share a key.
pub proof fn two_repositories_have_two_keys(alias: Seq<char>, a: Path, b: Path)
    requires
        !alias.contains('/'),
        walk::repo_key(alias, a) == walk::repo_key(alias, b),
    ensures
        a == b,
{
    let spelt = |part: Seq<u8>| encode::percent_encoded(part);
    a_key_spells_the_way_down(alias, a);
    a_key_spells_the_way_down(alias, b);
    let x = seq![alias] + a.map_values(spelt);
    let y = seq![alias] + b.map_values(spelt);
    assert(x.len() == y.len());
    assert forall|i: int| 0 <= i < a.len() implies a[i] == b[i] by {
        assert(x[i + 1] == spelt(a[i]));
        assert(y[i + 1] == spelt(b[i]));
        encode::percent_is_injective(a[i], b[i]);
    }
    assert(a =~= b);
}

// ---------------------------------------------------------------------------
// Beginning, and what is said on the way
// ---------------------------------------------------------------------------

/// A walk fails to begin only where its root could not be looked at. One of a directory begins with
/// nothing found and the root to list; one of a file has nothing to list at all.
pub proof fn a_walk_begins_at_its_root(
    out: Result<walk::Walk, PlanError>,
    root: Path,
    alias: Seq<char>,
    kind: Result<FileKind, String>,
    size: u64,
    t: TreeModel,
    before: Hits,
    after: Hits,
    fired_before: Map<Seq<char>, ExcludeReason>,
    fired_after: Map<Seq<char>, ExcludeReason>,
)
    requires
        walk::started(out, root, alias, kind, size, t, before, after, fired_before, fired_after),
    ensures
        out is Ok == kind is Ok,
        out matches Ok(w) ==> {
            let m = w.model(fired_after);
            &&& w.context(t) == (Context { rules: t, root, alias })
            &&& kind->Ok_0 == FileKind::Directory ==> begins(w.context(t), m) && m.files == 0
                && m.bytes == 0 && m.warnings.len() == 0 && m.fired == fired_before
            &&& kind->Ok_0 != FileKind::Directory ==> m.stack.len() == 0
            &&& kind->Ok_0 != FileKind::Directory && t.resolved(root).verdict == Verdict::Skip
                ==> m.entries.len() == 0
            &&& kind->Ok_0 != FileKind::Directory && t.resolved(root).verdict == Verdict::Capture
                && blob_mode(kind->Ok_0) is Some && path::is_component(encode_utf8(alias))
                && !is_git(encode_utf8(alias)) ==> m.entries == seq![
                EntryView::Plain {
                    source: root,
                    stored: seq![encode_utf8(alias)],
                    mode: blob_mode(kind->Ok_0)->0,
                    size,
                },
            ] && m.files == 1 && m.bytes == size
        },
{
    if let Ok(w) = out {
        let m = w.model(fired_after);
        if path::is_component(encode_utf8(alias)) {
            the_tree_mirrors_the_disk(root, Seq::empty(), alias);
            assert(root + Seq::<Seq<u8>>::empty() =~= root);
            assert(seq![encode_utf8(alias)] + Seq::<Seq<u8>>::empty() =~= seq![encode_utf8(alias)]);
        }
        if kind->Ok_0 != FileKind::Directory && t.resolved(root).verdict == Verdict::Capture
            && blob_mode(kind->Ok_0) is Some && path::is_component(encode_utf8(alias)) && !is_git(
            encode_utf8(alias),
        ) {
            let e = EntryView::Plain {
                source: root,
                stored: seq![encode_utf8(alias)],
                mode: blob_mode(kind->Ok_0)->0,
                size,
            };
            assert(m.entries =~= seq![e]);
        }
    }
}

/// Whether the rules are asked about an entry: it is no `.git`, what it is could be told, and a
/// file of it would be stored here.
pub open spec fn is_judged(item: ItemView, inside: bool) -> bool {
    item matches ItemView::Seen { path, kind, .. } && !(path.len() > 0 && is_git(path.last()))
        && kind is Ok && (kind->Ok_0 == FileKind::Directory || !inside)
}

/// What could not be read, and what the rules capture but cannot be stored, is told by its path and
/// the reason. Nothing that the rules skip is warned about, nor any file inside a repository.
pub proof fn a_loss_is_told_by_its_path(
    c: Context,
    m: WalkModel,
    dir: Path,
    inside: bool,
    item: ItemView,
)
    ensures
        ({
            let after = walk::with_item(c, m, dir, inside, item);
            &&& m.warnings.is_prefix_of(after.warnings)
            &&& after.warnings.len() <= m.warnings.len() + 1
            &&& item matches ItemView::Unreadable(reason) ==> after.warnings == m.warnings.push(
                WarningView::Unreadable { path: plan::shown(dir), reason },
            ) && after.entries == m.entries && after.stack == m.stack
            &&& item matches ItemView::Seen { path, kind, .. } ==> {
                let git = path.len() > 0 && is_git(path.last());
                let skipped = c.rules.resolved(path).verdict == Verdict::Skip;
                &&& git ==> after == m
                &&& !git && kind is Err ==> after.warnings == m.warnings.push(
                    WarningView::Unreadable { path: plan::shown(path), reason: kind->Err_0 },
                ) && after.entries == m.entries && after.stack == m.stack
                &&& kind is Ok && skipped ==> after.warnings == m.warnings || kind->Ok_0
                    == FileKind::Directory
                &&& kind is Ok && kind->Ok_0 != FileKind::Directory && inside ==> after == m
                &&& !git && !inside && !skipped && kind is Ok && kind->Ok_0 is Skip
                    ==> after.warnings == m.warnings.push(
                    WarningView::Skipped { path: plan::shown(path), reason: kind->Ok_0->Skip_0 },
                ) && after.entries == m.entries
                &&& kind is Ok && kind->Ok_0 == FileKind::Directory && path::holds_path(
                    c.root,
                    path,
                ) ==> after.warnings == m.warnings
            }
        }),
{
}

/// A rule that skips an entry is noted by its text with the reason its tier gives, and nothing else
/// is noted.
pub proof fn a_skip_is_noted_under_its_rule(
    c: Context,
    m: WalkModel,
    dir: Path,
    inside: bool,
    item: ItemView,
)
    ensures
        ({
            let after = walk::with_item(c, m, dir, inside, item);
            let d = c.rules.resolved(item->path);
            if is_judged(item, inside) && d.verdict == Verdict::Skip && d.rule is Some {
                let rule = c.rules.metas[(d.rule->0).0 as int].text;
                &&& after.fired.contains_key(rule)
                &&& (after.fired[rule] == ExcludeReason::IgnoreRule) == (d.tier
                    == Tier::ExplicitPath)
                &&& (after.fired[rule] == ExcludeReason::GlobRule) == (d.tier == Tier::Glob)
                &&& (after.fired[rule] == ExcludeReason::DefaultJunk) == (d.tier == Tier::Junk)
                &&& forall|other: Seq<char>| #[trigger]
                    after.fired.contains_key(other) == (m.fired.contains_key(other) || other
                        == rule)
                &&& forall|other: Seq<char>|
                    other != rule && m.fired.contains_key(other) ==> #[trigger] after.fired[other]
                        == m.fired[other]
            } else {
                after.fired == m.fired
            }
        }),
{
}

/// What a finished walk holds is what was found, each entry once, by the order of the paths.
pub proof fn a_finished_plan_only_reorders(
    out: Seq<EntryView>,
    entries: Seq<EntryView>,
    order: Seq<usize>,
)
    requires
        walk::in_path_order(out, entries, order),
    ensures
        out.len() == entries.len(),
        forall|e: EntryView| #[trigger] out.contains(e) == entries.contains(e),
        forall|i: int, j: int|
            0 <= i < j < out.len() ==> !path::path_less(
                (#[trigger] out[j]).source(),
                (#[trigger] out[i]).source(),
            ),
{
    assert forall|e: EntryView| #[trigger] out.contains(e) == entries.contains(e) by {
        if out.contains(e) {
            let i = choose|i: int| 0 <= i < out.len() && out[i] == e;
            assert(order.contains(order[i]));
            assert(entries[order[i] as int] == e);
        }
        if entries.contains(e) {
            let k = choose|k: int| 0 <= k < entries.len() && entries[k] == e;
            lemma_index_fits(order, entries.len() as int, k);
            let i = choose|i: int| 0 <= i < order.len() && order[i] == k;
            assert(out[i] == entries[order[i] as int]);
        }
    }
    let keys = walk::sources(entries);
    assert forall|i: int, j: int| 0 <= i < j < out.len() implies !path::path_less(
        (#[trigger] out[j]).source(),
        (#[trigger] out[i]).source(),
    ) by {
        assert(order.contains(order[i]) && order.contains(order[j]));
        assert(crate::plan::order::index_before(keys, order[i], order[j]));
        let a = out[i].source();
        let b = out[j].source();
        assert(keys[order[i] as int] == a && keys[order[j] as int] == b);
        if path::path_less(b, a) {
            if path::path_less(a, b) {
                path::lemma_path_transitive(a, b, a);
            }
            path::lemma_path_irreflexive(a);
        }
    }
}

proof fn lemma_index_fits(order: Seq<usize>, n: int, k: int)
    requires
        crate::plan::order::covers(order, 0, n),
        0 <= k < n,
    ensures
        exists|i: int| 0 <= i < order.len() && order[i] == k,
{
    lemma_small(order, n);
    assert(order.contains(k as usize));
}

/// The indices of a list that they cover are those a machine can count.
proof fn lemma_small(order: Seq<usize>, n: int)
    requires
        crate::plan::order::covers(order, 0, n),
    ensures
        n <= usize::MAX + 1,
{
    if n > usize::MAX + 1 {
        let ints = order.map_values(|i: usize| i as int);
        assert(ints.no_duplicates());
        let bound = vstd::set_lib::set_int_range(0, usize::MAX + 1);
        vstd::set_lib::lemma_int_range(0, usize::MAX + 1);
        ints.unique_seq_to_set();
        assert(ints.to_set().subset_of(bound)) by {
            assert forall|x: int| ints.to_set().contains(x) implies bound.contains(x) by {
                let i = choose|i: int| 0 <= i < ints.len() && ints[i] == x;
                assert(ints[i] == order[i] as int);
            }
        }
        vstd::set_lib::lemma_len_subset(ints.to_set(), bound);
    }
}

/// A directory that the rules skip is listed only for the sake of something beneath it that they
/// capture by name; with nothing of the kind it is passed over whole, repository or not.
pub proof fn nothing_is_listed_in_vain(
    c: Context,
    m: WalkModel,
    dir: Path,
    inside: bool,
    item: ItemView,
)
    requires
        item matches ItemView::Seen { path, kind, .. } && kind == Ok::<FileKind, Seq<char>>(
            FileKind::Directory,
        ) && c.rules.resolved(path).verdict == Verdict::Skip && forall|p: Path|
            #[trigger] c.rules.explicit.dom().contains(p) && path.is_prefix_of(p)
                ==> c.rules.explicit[p].verdict == Verdict::Skip,
    ensures
        walk::with_item(c, m, dir, inside, item).stack == m.stack,
        walk::with_item(c, m, dir, inside, item).entries == m.entries,
        walk::with_item(c, m, dir, inside, item).warnings == m.warnings,
{
    let path = item->path;
    if c.rules.may_capture_under(path) {
        let p = choose|p: Path|
            #[trigger] c.rules.explicit.dom().contains(p) && path::holds_path(path, p)
                && c.rules.explicit[p].verdict == Verdict::Capture;
        path::containing_is_beginning_alike(path, p);
        assert(c.rules.explicit.dom().contains(p) && path.is_prefix_of(p));
    }
}

/// Whatever an entry of a listing adds is itself: a repository under the key of its way down from
/// the root, and a file by the components it has beneath the root, with its own mode and size. At
/// most one thing is added.
pub proof fn an_entry_is_stored_by_its_way_down(
    c: Context,
    m: WalkModel,
    dir: Path,
    inside: bool,
    item: ItemView,
    relative: Path,
)
    requires
        item matches ItemView::Seen { path, .. } && path == c.root + relative,
        path::all_components(relative),
        path::is_component(encode_utf8(c.alias)),
        !c.alias.contains('/'),
    ensures
        ({
            let after = walk::with_item(c, m, dir, inside, item);
            &&& m.entries.is_prefix_of(after.entries)
            &&& after.entries.len() <= m.entries.len() + 1
            &&& after.entries.len() > m.entries.len() ==> match after.entries.last() {
                EntryView::Repo { source, key } => {
                    &&& source == item->path
                    &&& text::split(key, '/') == seq![c.alias] + relative.map_values(
                        |part: Seq<u8>| encode::percent_encoded(part),
                    )
                    &&& item->repository
                },
                EntryView::Plain { source, stored, mode, size } => {
                    &&& source == item->path
                    &&& stored == seq![encode_utf8(c.alias)] + relative
                    &&& item->kind is Ok && blob_mode(item->kind->Ok_0) == Some(mode)
                    &&& size == item->size
                    &&& !inside
                },
            }
        }),
{
    the_tree_mirrors_the_disk(c.root, relative, c.alias);
    a_key_spells_the_way_down(c.alias, relative);
    assert((c.root + relative).skip(c.root.len() as int) =~= relative);
    let after = walk::with_item(c, m, dir, inside, item);
    assert(m.entries =~= after.entries.subrange(0, m.entries.len() as int));
}

} // verus!
