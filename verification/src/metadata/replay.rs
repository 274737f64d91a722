//! Filling a manifest from what the filesystem says, and replaying one over an extracted tree.
//!
//! Nothing here touches a file: what was read comes in as plain values, and what is to be done
//! goes out as steps.

use crate::config::rules::Path;
use crate::lines;
use crate::lines::{trim, words};
use crate::metadata;
use crate::metadata::{
    unhex_text, Attribute, Manifest, Record, RecordView,
};
use crate::octets;
use crate::plan;
use crate::primitives::oid;
use crate::primitives::oid::hex;
use crate::primitives::path;
use crate::primitives::path::{AbsPath, TreePath, SLASH};
use crate::process;
use crate::process::{command, Call, Output, RunError, Timeout};
use crate::text;
use crate::text::{between, cat3, chars_of, decimal, same, stands_at};
use crate::textmap;
use crate::textmap::TextMap;
use vstd::prelude::*;

verus! {

// ---------------------------------------------------------------------------
// Capture
// ---------------------------------------------------------------------------

/// What the filesystem says of a path.
#[derive(Clone, Copy, Debug, PartialEq, Eq, Structural)]
pub struct Stat {
    pub symlink: bool,
    pub uid: u32,
    pub gid: u32,
    pub mode: u32,
}

/// A path to be recorded, the key it is recorded under, and what was read of it.
#[derive(Debug)]
pub struct Stated {
    pub source: AbsPath,
    pub key: String,
    pub stat: Result<Stat, String>,
}

/// The names one pair of ids goes by.
#[derive(Debug)]
pub struct Names {
    pub uid: u32,
    pub gid: u32,
    pub owner: String,
    pub group: String,
}

/// A tree path as text.
pub open spec fn stored_text(stored: Path) -> Seq<char> {
    octets::lossy(text::join(stored, seq![SLASH]))
}

/// What an item's directories add: the directory of each part of the stored path above its last,
/// beside the directory of the source as many steps up. `up` counts the steps taken.
pub open spec fn with_parents(
    dirs: Map<Seq<char>, Path>,
    source: Path,
    stored: Path,
    up: int,
) -> Map<Seq<char>, Path>
    decreases stored.len() - up,
{
    if up >= stored.len() - 1 || up >= source.len() {
        dirs
    } else {
        with_parents(
            dirs.insert(
                stored_text(stored.take(stored.len() - 1 - up)),
                source.take(source.len() - 1 - up),
            ),
            source,
            stored,
            up + 1,
        )
    }
}

/// The directories of the first `n` items.
pub open spec fn dirs_of(items: Seq<(AbsPath, TreePath)>, n: int) -> Map<Seq<char>, Path>
    decreases n,
{
    if n <= 0 {
        Map::empty()
    } else {
        with_parents(dirs_of(items, n - 1), items[n - 1].0@, items[n - 1].1@, 0)
    }
}

pub open spec fn path_map(m: Map<Seq<char>, AbsPath>) -> Map<Seq<char>, Path> {
    m.map_values(|p: AbsPath| p@)
}

/// Directories, walked up from each stored path alongside its source. The plan
/// enumerates files, so without this a `0700` directory comes back `0755` and its
/// contents are listable by anyone - the mode on the files inside is only half the
/// guarantee.
pub fn directories(items: &[(AbsPath, TreePath)]) -> (out: TextMap<AbsPath>)
    ensures
        path_map(out@) == dirs_of(items@, items@.len() as int),
{
    let mut dirs: TextMap<AbsPath> = TextMap::new();
    let mut i: usize = 0;
    assert(path_map(dirs@) =~= dirs_of(items@, 0));
    while i < items.len()
        invariant
            i <= items@.len(),
            path_map(dirs@) == dirs_of(items@, i as int),
        decreases items@.len() - i,
    {
        let source = &items[i].0;
        let stored = &items[i].1;
        let ghost goal = dirs_of(items@, i + 1);
        let depth: usize = source.depth();
        let n: usize = stored.parts().len();
        let mut up: usize = 0;
        while n > 0 && up < n - 1 && up < depth
            invariant
                goal == with_parents(path_map(dirs@), source@, stored@, up as int),
                depth == source@.len(),
                n == stored@.len(),
                up <= n,
            decreases n - up,
        {
            let ghost before = dirs@;
            let above = source.ancestor(depth - 1 - up);
            let shown = stored_prefix(stored, n - 1 - up);
            let ghost k = shown@;
            let ghost a = above;
            dirs.insert(shown, above);
            assert(path_map(dirs@) =~= path_map(before).insert(k, a@));
            up += 1;
        }
        i += 1;
    }
    dirs
}

/// Whether an item has a directory `up` steps above its source whose place in the store is shown
/// as this.
pub open spec fn above(
    item: (AbsPath, TreePath),
    up: int,
    shown: Seq<char>,
    dir: Path,
) -> bool {
    &&& 0 < up < item.1@.len()
    &&& up <= item.0@.len()
    &&& octets::lossy(text::join(item.1@.take(item.1@.len() - up), seq![SLASH])) == shown
    &&& dir == item.0@.take(item.0@.len() - up)
}

/// Every directory above every stored path is recorded, all the way to the top of the store, and
/// nothing else is: one stands for what an item's source has the same number of steps up.
pub proof fn every_directory_above_is_recorded(
    items: Seq<(AbsPath, TreePath)>,
    i: int,
    up: int,
    shown: Seq<char>,
    dir: Path,
)
    requires
        0 <= i < items.len(),
    ensures
        ({
            let dirs = dirs_of(items, items.len() as int);
            &&& above(items[i], up, shown, dir) ==> dirs.contains_key(shown)
            &&& above(items[i], up, shown, dir) && (forall|j: int, k: int, other: Path|
                0 <= j < items.len() && #[trigger] above(items[j], k, shown, other) ==> other == dir)
                ==> dirs[shown] == dir
            &&& dirs.contains_key(shown) ==> exists|j: int, k: int|
                0 <= j < items.len() && #[trigger] above(items[j], k, shown, dirs[shown])
        }),
{
    let n = items.len() as int;
    let dirs = dirs_of(items, n);
    if above(items[i], up, shown, dir) {
        lemma_recorded(items, n, i, up, shown, dir);
    }
    if dirs.contains_key(shown) {
        lemma_recorded_from(items, n, shown);
    }
}

proof fn lemma_parents(dirs: Map<Seq<char>, Path>, item: (AbsPath, TreePath), from: int, shown: Seq<char>)
    requires
        0 <= from,
    ensures
        ({
            let after = with_parents(dirs, item.0@, item.1@, from);
            &&& dirs.contains_key(shown) ==> after.contains_key(shown)
            &&& after.contains_key(shown) ==> (dirs.contains_key(shown) && after[shown]
                == dirs[shown]) || exists|k: int| #[trigger] above(item, k, shown, after[shown])
            &&& forall|k: int, dir: Path|
                k > from && #[trigger] above(item, k, shown, dir) ==> after.contains_key(shown)
        }),
    decreases item.1@.len() - from,
{
    let source = item.0@;
    let stored = item.1@;
    let after = with_parents(dirs, source, stored, from);
    if from >= stored.len() - 1 || from >= source.len() {
    } else {
        let key = stored_text(stored.take(stored.len() - 1 - from));
        let value = source.take(source.len() - 1 - from);
        let next = dirs.insert(key, value);
        lemma_parents(next, item, from + 1, shown);
        assert(above(item, from + 1, key, value));
        assert forall|k: int, dir: Path|
            k > from && #[trigger] above(item, k, shown, dir) implies after.contains_key(shown) by {
            if k == from + 1 {
                assert(key == shown);
            }
        }
    }
}

proof fn lemma_recorded(
    items: Seq<(AbsPath, TreePath)>,
    n: int,
    i: int,
    up: int,
    shown: Seq<char>,
    dir: Path,
)
    requires
        0 <= i < n <= items.len(),
        above(items[i], up, shown, dir),
    ensures
        dirs_of(items, n).contains_key(shown),
    decreases n,
{
    lemma_parents(dirs_of(items, n - 1), items[n - 1], 0, shown);
    if i < n - 1 {
        lemma_recorded(items, n - 1, i, up, shown, dir);
    }
}

proof fn lemma_recorded_from(items: Seq<(AbsPath, TreePath)>, n: int, shown: Seq<char>)
    requires
        0 <= n <= items.len(),
        dirs_of(items, n).contains_key(shown),
    ensures
        exists|j: int, k: int|
            0 <= j < n && #[trigger] above(items[j], k, shown, dirs_of(items, n)[shown]),
    decreases n,
{
    let before = dirs_of(items, n - 1);
    lemma_parents(before, items[n - 1], 0, shown);
    let value = dirs_of(items, n)[shown];
    if exists|k: int| #[trigger] above(items[n - 1], k, shown, value) {
        let k = choose|k: int| #[trigger] above(items[n - 1], k, shown, value);
        assert(above(items[n - 1], k, shown, value));
    } else {
        lemma_recorded_from(items, n - 1, shown);
        let (j, k) = choose|j: int, k: int|
            0 <= j < n - 1 && #[trigger] above(items[j], k, shown, before[shown]);
        assert(above(items[j], k, shown, value));
    }
}

fn stored_prefix(stored: &TreePath, n: usize) -> (out: String)
    requires
        n <= stored@.len(),
    ensures
        out@ == stored_text(stored@.take(n as int)),
{
    let parts = path::copy_parts(stored.parts(), n);
    let slash: Vec<u8> = vec![SLASH];
    assert(slash@ =~= seq![SLASH]);
    octets::lossy_text(&octets::join_bytes(&parts, &slash))
}

/// The names a pair of ids goes by, and the ids themselves where none is known.
pub open spec fn names_of(known: Seq<Names>, uid: u32, gid: u32) -> (Seq<char>, Seq<char>)
    decreases known.len(),
{
    if known.len() == 0 {
        (text::decimal_text(uid as nat), text::decimal_text(gid as nat))
    } else if known[0].uid == uid && known[0].gid == gid {
        (known[0].owner@, known[0].group@)
    } else {
        names_of(known.skip(1), uid, gid)
    }
}

/// What a manifest holds of the first `n` paths. A symlink's own mode is not meaningful and
/// cannot be set everywhere; the target's mode is the target's business.
pub open spec fn manifest_of(stated: Seq<Stated>, known: Seq<Names>, n: int) -> Map<
    Seq<char>,
    RecordView,
>
    decreases n,
{
    if n <= 0 {
        Map::empty()
    } else {
        let before = manifest_of(stated, known, n - 1);
        match stated[n - 1].stat {
            Ok(stat) if !stat.symlink => {
                let names = names_of(known, stat.uid, stat.gid);
                before.insert(
                    stated[n - 1].key@,
                    RecordView {
                        mode: stat.mode & 0o7777,
                        owner: names.0,
                        group: names.1,
                        xattrs: Seq::empty(),
                    },
                )
            },
            _ => before,
        }
    }
}

/// What is said of the first `n` paths that could not be read.
pub open spec fn missed_of(stated: Seq<Stated>, n: int) -> Seq<Seq<char>>
    decreases n,
{
    if n <= 0 {
        Seq::empty()
    } else {
        match stated[n - 1].stat {
            Err(error) => missed_of(stated, n - 1).push(
                plan::shown(stated[n - 1].source@)
                    + ": permissions could not be read, so it restores 0644: "@ + error@,
            ),
            Ok(_) => missed_of(stated, n - 1),
        }
    }
}

fn known_names(known: &[Names], uid: u32, gid: u32) -> (out: (String, String))
    ensures
        (out.0@, out.1@) == names_of(known@, uid, gid),
{
    let mut i: usize = 0;
    assert(known@.skip(0) =~= known@);
    while i < known.len()
        invariant
            i <= known@.len(),
            names_of(known@, uid, gid) == names_of(known@.skip(i as int), uid, gid),
        decreases known@.len() - i,
    {
        if known[i].uid == uid && known[i].gid == gid {
            return (known[i].owner.clone(), known[i].group.clone());
        }
        assert(known@.skip(i as int).skip(1) =~= known@.skip(i + 1));
        i += 1;
    }
    (decimal(uid as u64), decimal(gid as u64))
}

/// Records what the tree entries will not carry, for every path being captured: the files and
/// then the directories of [`directories`], each with what was read of it.
///
/// The second half of the pair is every path whose mode could not be read. A path
/// missing from the manifest restores at git's `0644`, so a `0600` file silently
/// widening to world-readable is the failure this reports rather than swallows.
#[must_use]
pub fn capture(stated: &[Stated], known: &[Names]) -> (out: (Manifest, Vec<String>))
    ensures
        metadata::manifest_view(out.0@) == manifest_of(stated@, known@, stated@.len() as int),
        text::views(out.1@) == missed_of(stated@, stated@.len() as int),
{
    let mut manifest: Manifest = TextMap::new();
    let mut missed: Vec<String> = Vec::new();
    let mut i: usize = 0;
    proof {
        assert(metadata::manifest_view(manifest@) =~= manifest_of(stated@, known@, 0));
        assert(text::views(missed@) =~= missed_of(stated@, 0));
    }
    while i < stated.len()
        invariant
            i <= stated@.len(),
            metadata::manifest_view(manifest@) == manifest_of(stated@, known@, i as int),
            text::views(missed@) == missed_of(stated@, i as int),
        decreases stated@.len() - i,
    {
        let item = &stated[i];
        match &item.stat {
            Err(error) => {
                let line = cat3(
                    &item.source.text(),
                    ": permissions could not be read, so it restores 0644: ",
                    error,
                );
                let ghost before = text::views(missed@);
                let ghost l = line@;
                missed.push(line);
                assert(text::views(missed@) =~= before.push(l));
            },
            Ok(stat) => {
                if !stat.symlink {
                    let (owner, group) = known_names(known, stat.uid, stat.gid);
                    let ghost before = manifest@;
                    let record = Record {
                        mode: stat.mode & 0o7777,
                        owner,
                        group,
                        xattrs: Vec::new(),
                    };
                    let ghost r = record;
                    let ghost k = item.key@;
                    assert(r@.xattrs =~= Seq::<Attribute>::empty());
                    manifest.insert(item.key.clone(), record);
                    assert(metadata::manifest_view(manifest@) =~= metadata::manifest_view(
                        before,
                    ).insert(k, r@));
                }
            },
        }
        i += 1;
    }
    (manifest, missed)
}

/// Whether the owner and group of a path go into the manifest, and are those of these ids.
pub open spec fn owned_by(item: Stated, uid: u32, gid: u32) -> bool {
    item.stat matches Ok(stat) && !stat.symlink && stat.uid == uid && stat.gid == gid
}

/// Whether a path is the first of those with its owner and group.
pub open spec fn first_owned(stated: Seq<Stated>, at: int) -> bool {
    stated[at].stat matches Ok(stat) && !stat.symlink && forall|j: int|
        0 <= j < at ==> !owned_by(#[trigger] stated[j], stat.uid, stat.gid)
}

/// The paths to ask [`names_call`] of, by their places: one lookup for each owner rather than one
/// for each file.
pub fn owners_wanted(stated: &[Stated]) -> (out: Vec<usize>)
    ensures
        forall|i: int, j: int| 0 <= i < j < out@.len() ==> out@[i] < out@[j],
        forall|at: usize|
            #[trigger] out@.contains(at) <==> at < stated@.len() && first_owned(stated@, at as int),
{
    let mut out: Vec<usize> = Vec::new();
    let mut i: usize = 0;
    while i < stated.len()
        invariant
            i <= stated@.len(),
            forall|a: int, b: int| 0 <= a < b < out@.len() ==> out@[a] < out@[b],
            forall|at: usize|
                #[trigger] out@.contains(at) <==> at < i && first_owned(stated@, at as int),
        decreases stated@.len() - i,
    {
        let ghost before = out@;
        if is_first_owned(stated, i) {
            proof {
                assert forall|a: int| 0 <= a < out@.len() implies #[trigger] out@[a] < i by {
                    assert(out@.contains(out@[a]));
                }
            }
            out.push(i);
            proof {
                assert(out@[before.len() as int] == i);
                assert forall|at: usize| #[trigger] out@.contains(at) <==> at < i + 1
                    && first_owned(stated@, at as int) by {
                    if before.contains(at) {
                        let k = choose|k: int| 0 <= k < before.len() && before[k] == at;
                        assert(out@[k] == at);
                    }
                    if out@.contains(at) && at != i {
                        let k = choose|k: int| 0 <= k < out@.len() && out@[k] == at;
                        assert(before[k] == at);
                    }
                }
            }
        }
        i += 1;
    }
    out
}

fn is_first_owned(stated: &[Stated], at: usize) -> (out: bool)
    requires
        at < stated@.len(),
    ensures
        out == first_owned(stated@, at as int),
{
    let wanted = match &stated[at].stat {
        Ok(stat) => *stat,
        Err(_) => return false,
    };
    if wanted.symlink {
        return false;
    }
    let mut j: usize = 0;
    while j < at
        invariant
            j <= at < stated@.len(),
            stated@[at as int].stat == Ok::<Stat, String>(wanted),
            !wanted.symlink,
            forall|k: int|
                0 <= k < j ==> !owned_by(#[trigger] stated@[k], wanted.uid, wanted.gid),
        decreases at - j,
    {
        if let Ok(stat) = &stated[j].stat {
            if !stat.symlink && stat.uid == wanted.uid && stat.gid == wanted.gid {
                assert(owned_by(stated@[j as int], wanted.uid, wanted.gid));
                return false;
            }
        }
        j += 1;
    }
    true
}

/// The call that names the owner and group of a path: asked of `stat` rather than resolved
/// from `/etc/passwd`, which on macOS is a stub that local accounts are not in.
pub fn names_call(source: &AbsPath) -> (out: Call)
    ensures
        out@ == process::program_call(
            "stat"@,
            seq!["-f"@, "%Su %Sg"@, plan::shown(source@)],
            Timeout::Quick,
        ),
{
    let shown = source.text();
    let args: Vec<&str> = vec!["-f", "%Su %Sg", shown.as_str()];
    assert(process::str_views(args@) =~= seq!["-f"@, "%Su %Sg"@, plan::shown(source@)]);
    command("stat", args, Timeout::Quick)
}

/// The names [`names_call`] printed for a pair of ids: its first two words, and the ids
/// themselves where it printed fewer.
pub fn names(uid: u32, gid: u32, out: Result<Output, RunError>) -> (names: Names)
    ensures
        names.uid == uid,
        names.gid == gid,
        ({
            let printed = match out {
                Ok(o) => lines::words_of(o.shown()),
                Err(_) => Seq::empty(),
            };
            if printed.len() >= 2 {
                names.owner@ == printed[0] && names.group@ == printed[1]
            } else {
                names.owner@ == text::decimal_text(uid as nat) && names.group@
                    == text::decimal_text(gid as nat)
            }
        }),
{
    if let Ok(out) = out {
        let printed = words(&out.text());
        if printed.len() >= 2 {
            proof {
                assert(text::views(printed@)[0] == printed@[0]@);
                assert(text::views(printed@)[1] == printed@[1]@);
                assert(text::views(printed@).len() >= 2);
            }
            return Names { uid, gid, owner: printed[0].clone(), group: printed[1].clone() };
        }
        assert(text::views(printed@).len() < 2);
    }
    Names { uid, gid, owner: decimal(uid as u64), group: decimal(gid as u64) }
}

// ---------------------------------------------------------------------------
// Extended attributes
// ---------------------------------------------------------------------------

/// The system's own attributes, which belong to the machine rather than to the file.
pub open spec fn is_system(name: Seq<char>) -> bool {
    name == "com.apple.provenance"@ || name == "com.apple.quarantine"@
}

/// An attribute to be read: the path that carries it, its name, and the key it goes under.
#[derive(Debug, PartialEq, Eq)]
pub struct Wanted {
    pub source: String,
    pub name: String,
    pub stored: String,
}

pub struct WantedView {
    pub source: Seq<char>,
    pub name: Seq<char>,
    pub stored: Seq<char>,
}

impl View for Wanted {
    type V = WantedView;

    open spec fn view(&self) -> WantedView {
        WantedView { source: self.source@, name: self.name@, stored: self.stored@ }
    }
}

pub open spec fn wanted_views(v: Seq<Wanted>) -> Seq<WantedView> {
    v.map_values(|w: Wanted| w@)
}

/// The key of each source among the first `n` items.
pub open spec fn keys_of(items: Seq<(AbsPath, TreePath)>, n: int) -> Map<Seq<char>, Seq<char>>
    decreases n,
{
    if n <= 0 {
        Map::empty()
    } else {
        keys_of(items, n - 1).insert(
            plan::shown(items[n - 1].0@),
            stored_text(items[n - 1].1@),
        )
    }
}

pub open spec fn string_map(m: Map<Seq<char>, String>) -> Map<Seq<char>, Seq<char>> {
    m.map_values(|s: String| s@)
}

/// The key of each source.
pub fn sources(items: &[(AbsPath, TreePath)]) -> (out: TextMap<String>)
    ensures
        string_map(out@) == keys_of(items@, items@.len() as int),
{
    let mut out: TextMap<String> = TextMap::new();
    let mut i: usize = 0;
    assert(string_map(out@) =~= keys_of(items@, 0));
    while i < items.len()
        invariant
            i <= items@.len(),
            string_map(out@) == keys_of(items@, i as int),
        decreases items@.len() - i,
    {
        let ghost before = out@;
        let key = items[i].0.text();
        let stored = items[i].1.text();
        let ghost k = key@;
        let ghost s = stored;
        out.insert(key, stored);
        assert(string_map(out@) =~= string_map(before).insert(k, s@));
        i += 1;
    }
    out
}

/// The last occurrence of a colon and a space, read from the right, up to `n`.
pub open spec fn last_colon(line: Seq<char>, n: int) -> Option<int>
    decreases n + 1,
{
    if n < 0 {
        None
    } else if text::occurs_at(line, ": "@, n) {
        Some(n)
    } else {
        last_colon(line, n - 1)
    }
}

/// What stands before and after the last colon and space.
pub open spec fn split_last_colon(line: Seq<char>) -> Option<(Seq<char>, Seq<char>)> {
    match last_colon(line, line.len() as int) {
        Some(at) => Some((line.take(at), line.skip(at + 2))),
        None => None,
    }
}

fn rsplit_colon(line: &str) -> (out: Option<(String, String)>)
    ensures
        match out {
            Some((a, b)) => split_last_colon(line@) == Some((a@, b@)),
            None => split_last_colon(line@) is None,
        },
{
    let cs = chars_of(line);
    let sep = chars_of(": ");
    let n: usize = cs.len();
    let mut i: usize = n;
    proof {
        reveal_strlit(": ");
    }
    loop
        invariant
            i <= n == cs@.len(),
            cs@ == line@,
            sep@ == ": "@,
            ": "@.len() == 2,
            last_colon(line@, n as int) == last_colon(line@, i as int),
        decreases i,
    {
        if stands_at(&cs, &sep, i) {
            let a = between(&cs, 0, i);
            let b = between(&cs, i + 2, n);
            assert(a@ =~= line@.take(i as int));
            assert(b@ =~= line@.skip(i + 2));
            return Some((a, b));
        }
        if i == 0 {
            assert(last_colon(line@, -1) is None);
            return None;
        }
        i -= 1;
    }
}

/// The attributes the first `n` lines of a listing name that are worth reading.
pub open spec fn wanted_in(
    printed: Seq<Seq<char>>,
    keys: Map<Seq<char>, Seq<char>>,
    n: int,
) -> Seq<WantedView>
    decreases n,
{
    if n <= 0 {
        Seq::empty()
    } else {
        let before = wanted_in(printed, keys, n - 1);
        match split_last_colon(printed[n - 1]) {
            Some((source, rest)) => {
                let name = lines::trimmed(rest);
                if is_system(name) || !keys.contains_key(source) {
                    before
                } else {
                    before.push(WantedView { source, name, stored: keys[source] })
                }
            },
            None => before,
        }
    }
}

/// The call that lists the attributes of every source in one run.
pub fn xattr_call(keys: &TextMap<String>) -> (out: Option<Call>)
    ensures
        match out {
            None => keys.rows().len() == 0,
            Some(call) => keys.rows().len() > 0 && call@ == process::program_call(
                "xattr"@,
                textmap::row_keys(keys.rows()),
                Timeout::Work,
            ),
        },
{
    let n: usize = keys.len();
    if n == 0 {
        return None;
    }
    let ghost all = textmap::row_keys(keys.rows());
    let mut args: Vec<&str> = Vec::new();
    let mut i: usize = 0;
    assert(process::str_views(args@) =~= all.take(0));
    while i < n
        invariant
            i <= n == keys.rows().len(),
            all == textmap::row_keys(keys.rows()),
            process::str_views(args@) == all.take(i as int),
        decreases n - i,
    {
        let ghost before = process::str_views(args@);
        let key = keys.key(i);
        args.push(key);
        i += 1;
        assert(process::str_views(args@) =~= before.push(key@));
        assert(process::str_views(args@) =~= all.take(i as int));
    }
    assert(all.take(i as int) =~= all);
    Some(command("xattr", args, Timeout::Work))
}

/// The attributes a listing names that are worth a call each: `xattr -l` renders binary values
/// as a hexdump meant for reading rather than for parsing, so the exact bytes are asked for
/// one by one.
pub fn xattrs_wanted(listing: &Output, keys: &TextMap<String>) -> (out: Vec<Wanted>)
    ensures
        wanted_views(out@) == wanted_in(
            lines::lines_of(listing.shown()),
            string_map(keys@),
            lines::lines_of(listing.shown()).len() as int,
        ),
{
    let shown = listing.text();
    let printed = lines::lines(&shown);
    let ghost all = text::views(printed@);
    let mut out: Vec<Wanted> = Vec::new();
    let mut i: usize = 0;
    assert(wanted_views(out@) =~= wanted_in(all, string_map(keys@), 0));
    while i < printed.len()
        invariant
            i <= printed@.len(),
            all == text::views(printed@),
            wanted_views(out@) == wanted_in(all, string_map(keys@), i as int),
        decreases printed@.len() - i,
    {
        assert(all[i as int] == printed@[i as int]@);
        if let Some((source, rest)) = rsplit_colon(&printed[i]) {
            let name = trim(&rest);
            if !same(&name, "com.apple.provenance") && !same(&name, "com.apple.quarantine") {
                if let Some(stored) = keys.get(&source) {
                    let ghost before = wanted_views(out@);
                    let wanted = Wanted { source, name, stored: stored.clone() };
                    let ghost w = wanted@;
                    out.push(wanted);
                    assert(wanted_views(out@) =~= before.push(w));
                }
            }
        }
        i += 1;
    }
    out
}

/// The call that prints an attribute's bytes in hexadecimal.
pub fn xattr_value_call(wanted: &Wanted) -> (out: Call)
    ensures
        out@ == process::program_call(
            "xattr"@,
            seq!["-px"@, wanted.name@, wanted.source@],
            Timeout::Quick,
        ),
{
    let args: Vec<&str> = vec!["-px", wanted.name.as_str(), wanted.source.as_str()];
    assert(process::str_views(args@) =~= seq!["-px"@, wanted.name@, wanted.source@]);
    command("xattr", args, Timeout::Quick)
}

/// Words without the white space between them.
pub open spec fn packed(all: Seq<Seq<char>>) -> Seq<char>
    decreases all.len(),
{
    if all.len() == 0 {
        Seq::empty()
    } else {
        packed(all.drop_last()) + all.last()
    }
}

/// A manifest with an attribute's bytes added, where they can be read and its path is recorded.
pub open spec fn with_value(
    m: Map<Seq<char>, RecordView>,
    wanted: WantedView,
    printed: Seq<char>,
) -> Map<Seq<char>, RecordView> {
    match metadata::unhexed(packed(lines::words_of(printed))) {
        Some(bytes) if m.contains_key(wanted.stored) => m.insert(
            wanted.stored,
            RecordView {
                xattrs: m[wanted.stored].xattrs.push((wanted.name, bytes)),
                ..m[wanted.stored]
            },
        ),
        _ => m,
    }
}

fn pack(all: &Vec<String>) -> (out: String)
    ensures
        out@ == packed(text::views(all@)),
{
    let ghost views = text::views(all@);
    let mut out = String::new();
    let mut i: usize = 0;
    assert(out@ =~= packed(views.take(0)));
    while i < all.len()
        invariant
            i <= all@.len(),
            views == text::views(all@),
            out@ == packed(views.take(i as int)),
        decreases all@.len() - i,
    {
        out.append(&all[i]);
        i += 1;
        assert(views.take(i as int).drop_last() =~= views.take(i - 1));
        assert(views.take(i as int).last() == all@[i - 1]@);
    }
    assert(views.take(i as int) =~= views);
    out
}

/// Takes what [`xattr_value_call`] printed.
pub fn add_value(manifest: &mut Manifest, wanted: &Wanted, value: &Output)
    ensures
        metadata::manifest_view(final(manifest)@) == with_value(
            metadata::manifest_view(old(manifest)@),
            wanted@,
            value.shown(),
        ),
{
    let ghost before = manifest@;
    let bytes = match unhex_text(&pack(&words(&value.text()))) {
        Some(bytes) => bytes,
        None => return ,
    };
    match manifest.remove(&wanted.stored) {
        None => {
            assert(metadata::manifest_view(manifest@) =~= metadata::manifest_view(before));
        },
        Some(record) => {
            let ghost held = record@;
            let mut record = record;
            let name = wanted.name.clone();
            let ghost x = (name@, bytes@);
            record.xattrs.push((name, bytes));
            let ghost r = record;
            assert(r@.xattrs =~= held.xattrs.push(x));
            manifest.insert(wanted.stored.clone(), record);
            assert(metadata::manifest_view(manifest@) =~= metadata::manifest_view(before).insert(
                wanted.stored@,
                r@,
            ));
        },
    }
}

// ---------------------------------------------------------------------------
// Replay
// ---------------------------------------------------------------------------

/// What replaying the manifest managed, and what it did not.
///
/// Named rather than counted: a count reads as a complete restore of a smaller thing.
#[derive(Debug, PartialEq, Eq)]
pub struct Applied {
    pub modes: usize,
    pub owners: usize,
    pub xattrs: usize,
    /// Paths whose owner could not be restored, which needs privilege this process
    /// does not have unless it is root.
    pub owner_refused: Vec<String>,
    pub failed: Vec<String>,
}

/// One thing to do to a path of the extracted tree.
#[derive(Debug, PartialEq, Eq)]
pub enum Step {
    Mode { path: String, mode: u32 },
    Xattr { path: String, name: String, hex: String },
    Owner { path: String, to: String },
}

#[allow(inconsistent_fields)]
pub enum StepView {
    Mode { path: Seq<char>, mode: u32 },
    Xattr { path: Seq<char>, name: Seq<char>, hex: Seq<char> },
    Owner { path: Seq<char>, to: Seq<char> },
}

impl View for Step {
    type V = StepView;

    open spec fn view(&self) -> StepView {
        match self {
            Step::Mode { path, mode } => StepView::Mode { path: path@, mode: *mode },
            Step::Xattr { path, name, hex } => StepView::Xattr {
                path: path@,
                name: name@,
                hex: hex@,
            },
            Step::Owner { path, to } => StepView::Owner { path: path@, to: to@ },
        }
    }
}

pub open spec fn step_views(steps: Seq<Step>) -> Seq<StepView> {
    steps.map_values(|s: Step| s@)
}

/// What the extracted tree holds at a path.
#[derive(Clone, Copy, Debug, PartialEq, Eq, Structural)]
pub enum Target {
    File,
    Directory,
    /// Nothing, or a symlink: its mode is not its own.
    Absent,
}

pub open spec fn attribute_steps(path: Seq<char>, xattrs: Seq<Attribute>) -> Seq<StepView> {
    xattrs.map_values(
        |x: Attribute| StepView::Xattr { path, name: x.0, hex: oid::hex_text(x.1) },
    )
}

/// What is to be done to one path: its mode always, then its attributes, then its owner unless
/// it has none recorded or already is the one running.
pub open spec fn path_steps(path: Seq<char>, r: RecordView, me: Option<Seq<char>>) -> Seq<StepView> {
    let start = seq![StepView::Mode { path, mode: r.mode }] + attribute_steps(path, r.xattrs);
    if r.owner.len() == 0 || me == Some(r.owner) {
        start
    } else {
        start.push(StepView::Owner { path, to: r.owner + ":"@ + r.group })
    }
}

/// The steps for the files among the first `n` rows, in order.
pub open spec fn file_steps(
    rows: Seq<metadata::Row>,
    targets: Seq<Target>,
    me: Option<Seq<char>>,
    n: int,
) -> Seq<StepView>
    decreases n,
{
    if n <= 0 {
        Seq::empty()
    } else if targets[n - 1] == Target::File {
        file_steps(rows, targets, me, n - 1) + path_steps(rows[n - 1].0, rows[n - 1].1, me)
    } else {
        file_steps(rows, targets, me, n - 1)
    }
}

/// The steps for the directories from `n` on, the last of them first.
pub open spec fn directory_steps(
    rows: Seq<metadata::Row>,
    targets: Seq<Target>,
    me: Option<Seq<char>>,
    n: int,
) -> Seq<StepView>
    decreases rows.len() - n,
{
    if n >= rows.len() {
        Seq::empty()
    } else if targets[n] == Target::Directory {
        directory_steps(rows, targets, me, n + 1) + path_steps(rows[n].0, rows[n].1, me)
    } else {
        directory_steps(rows, targets, me, n + 1)
    }
}

/// The steps that put a manifest back: those of its files, and then those of its directories.
pub open spec fn replayed(
    rows: Seq<metadata::Row>,
    targets: Seq<Target>,
    me: Option<Seq<char>>,
) -> Seq<StepView> {
    file_steps(rows, targets, me, rows.len() as int) + directory_steps(rows, targets, me, 0)
}

fn push_steps(steps: &mut Vec<Step>, path: &str, record: &Record, me: Option<&str>)
    ensures
        step_views(final(steps)@) == step_views(old(steps)@) + path_steps(
            path@,
            record@,
            path::view_str_opt(me),
        ),
{
    let ghost before = step_views(steps@);
    let ghost mode_step = StepView::Mode { path: path@, mode: record.mode };
    steps.push(Step::Mode { path: path.to_owned(), mode: record.mode });
    assert(step_views(steps@) =~= before + seq![mode_step]);
    let ghost more = attribute_steps(path@, record@.xattrs);
    let mut i: usize = 0;
    assert(before + seq![mode_step] =~= before + (seq![mode_step] + more.take(0)));
    while i < record.xattrs.len()
        invariant
            i <= record.xattrs@.len(),
            more == attribute_steps(path@, record@.xattrs),
            step_views(steps@) == before + (seq![mode_step] + more.take(i as int)),
        decreases record.xattrs@.len() - i,
    {
        let x = &record.xattrs[i];
        assert(record@.xattrs[i as int] == (x.0@, x.1@));
        let ghost prior = step_views(steps@);
        let step = Step::Xattr { path: path.to_owned(), name: x.0.clone(), hex: hex(&x.1) };
        let ghost s = step@;
        steps.push(step);
        i += 1;
        assert(step_views(steps@) =~= prior.push(s));
        assert(more.take(i as int) =~= more.take(i - 1).push(s));
        assert(step_views(steps@) =~= before + (seq![mode_step] + more.take(i as int)));
    }
    assert(more.take(i as int) =~= more);
    let mine = match me {
        Some(me) => same(me, &record.owner),
        None => false,
    };
    if record.owner.as_str().unicode_len() == 0 || mine {
        return ;
    }
    let ghost prior = step_views(steps@);
    let step = Step::Owner {
        path: path.to_owned(),
        to: cat3(&record.owner, ":", &record.group),
    };
    let ghost s = step@;
    steps.push(step);
    proof {
        assert(step_views(steps@) =~= prior.push(s));
        assert(prior.push(s) =~= before + (seq![mode_step] + more).push(s));
    }
}

/// Replays the manifest over an extracted tree, as the steps to take in order.
///
/// The mode always, because it needs no privilege and is the reason this exists. The
/// owner only when the process can - restoring one needs root, and a recovery run as
/// an ordinary user is the normal case, so a refusal is reported rather than fatal.
///
/// Files first, then directories deepest-first: a directory set to `0500` before
/// its contents were touched would refuse every one of them. `targets` says what the tree holds
/// at each of the manifest's paths.
pub fn apply(manifest: &Manifest, targets: &[Target], me: Option<&str>) -> (out: Vec<Step>)
    requires
        targets@.len() == manifest.rows().len(),
    ensures
        ({
            let rows = metadata::record_rows(manifest.rows());
            let who = path::view_str_opt(me);
            step_views(out@) == replayed(rows, targets@, who)
        }),
{
    let ghost rows = metadata::record_rows(manifest.rows());
    let ghost who = path::view_str_opt(me);
    let n: usize = manifest.len();
    let mut steps: Vec<Step> = Vec::new();
    let mut i: usize = 0;
    assert(step_views(steps@) =~= file_steps(rows, targets@, who, 0));
    while i < n
        invariant
            i <= n == manifest.rows().len(),
            targets@.len() == n,
            rows == metadata::record_rows(manifest.rows()),
            who == path::view_str_opt(me),
            step_views(steps@) == file_steps(rows, targets@, who, i as int),
        decreases n - i,
    {
        if targets[i] == Target::File {
            assert(rows[i as int] == (manifest.rows()[i as int].0, manifest.rows()[i as int].1@));
            push_steps(&mut steps, manifest.key(i), manifest.value(i), me);
        }
        i += 1;
    }
    let ghost files = step_views(steps@);
    let mut k: usize = n;
    assert(files + directory_steps(rows, targets@, who, n as int) =~= files);
    while k > 0
        invariant
            k <= n == manifest.rows().len(),
            targets@.len() == n,
            rows == metadata::record_rows(manifest.rows()),
            who == path::view_str_opt(me),
            step_views(steps@) == files + directory_steps(rows, targets@, who, k as int),
        decreases k,
    {
        k -= 1;
        if targets[k] == Target::Directory {
            let ghost later = directory_steps(rows, targets@, who, k + 1);
            assert(rows[k as int] == (manifest.rows()[k as int].0, manifest.rows()[k as int].1@));
            push_steps(&mut steps, manifest.key(k), manifest.value(k), me);
            assert(files + later + path_steps(rows[k as int].0, rows[k as int].1, who) =~= files + (
            later + path_steps(rows[k as int].0, rows[k as int].1, who)));
        }
    }
    steps
}

/// The call a step other than a mode is made by.
pub fn step_call(step: &Step, target: &AbsPath) -> (out: Option<Call>)
    ensures
        match step@ {
            StepView::Mode { .. } => out is None,
            StepView::Xattr { name, hex, .. } => out matches Some(call) && call@
                == process::program_call(
                "xattr"@,
                seq!["-wx"@, name, hex, plan::shown(target@)],
                Timeout::Quick,
            ),
            StepView::Owner { to, .. } => out matches Some(call) && call@
                == process::program_call(
                "chown"@,
                seq!["-h"@, to, plan::shown(target@)],
                Timeout::Quick,
            ),
        },
{
    let shown = target.text();
    match step {
        Step::Mode { .. } => None,
        Step::Xattr { name, hex, .. } => {
            let args: Vec<&str> = vec!["-wx", name.as_str(), hex.as_str(), shown.as_str()];
            assert(process::str_views(args@) =~= seq![
                "-wx"@,
                name@,
                hex@,
                plan::shown(target@),
            ]);
            Some(command("xattr", args, Timeout::Quick))
        },
        Step::Owner { to, .. } => {
            let args: Vec<&str> = vec!["-h", to.as_str(), shown.as_str()];
            assert(process::str_views(args@) =~= seq!["-h"@, to@, plan::shown(target@)]);
            Some(command("chown", args, Timeout::Quick))
        },
    }
}

impl Default for Applied {
    fn default() -> (out: Self)
        ensures
            out.modes == 0,
            out.owners == 0,
            out.xattrs == 0,
            out.owner_refused@.len() == 0,
            out.failed@.len() == 0,
    {
        Applied {
            modes: 0,
            owners: 0,
            xattrs: 0,
            owner_refused: Vec::new(),
            failed: Vec::new(),
        }
    }
}

impl Applied {
    /// How many steps have been counted.
    pub open spec fn taken(self) -> int {
        self.modes + self.owners + self.xattrs
    }

    /// Counts what a step came to.
    pub fn count(&mut self, step: &Step, outcome: Result<(), String>)
        requires
            old(self).taken() < usize::MAX,
        ensures
            ({
                let ok = outcome is Ok;
                let a = *old(self);
                let b = *final(self);
                &&& b.modes == a.modes + if ok && step is Mode {
                    1int
                } else {
                    0
                }
                &&& b.xattrs == a.xattrs + if ok && step is Xattr {
                    1int
                } else {
                    0
                }
                &&& b.owners == a.owners + if ok && step is Owner {
                    1int
                } else {
                    0
                }
                &&& text::views(b.failed@) == match (step@, outcome) {
                    (StepView::Mode { path, .. }, Err(e)) => text::views(a.failed@).push(
                        path + ": "@ + e@,
                    ),
                    (StepView::Xattr { path, name, .. }, Err(_)) => text::views(a.failed@).push(
                        path + ": xattr "@ + name,
                    ),
                    _ => text::views(a.failed@),
                }
                &&& text::views(b.owner_refused@) == match (step@, outcome) {
                    (StepView::Owner { path, .. }, Err(_)) => text::views(
                        a.owner_refused@,
                    ).push(path),
                    _ => text::views(a.owner_refused@),
                }
            }),
    {
        let ghost failed = text::views(self.failed@);
        let ghost refused = text::views(self.owner_refused@);
        match (step, outcome) {
            (Step::Mode { .. }, Ok(())) => {
                self.modes = self.modes + 1;
            },
            (Step::Mode { path, .. }, Err(e)) => {
                let line = cat3(path, ": ", &e);
                let ghost l = line@;
                self.failed.push(line);
                assert(text::views(self.failed@) =~= failed.push(l));
            },
            (Step::Xattr { .. }, Ok(())) => {
                self.xattrs = self.xattrs + 1;
            },
            (Step::Xattr { path, name, .. }, Err(_)) => {
                let line = cat3(path, ": xattr ", name);
                let ghost l = line@;
                self.failed.push(line);
                assert(text::views(self.failed@) =~= failed.push(l));
            },
            (Step::Owner { .. }, Ok(())) => {
                self.owners = self.owners + 1;
            },
            (Step::Owner { path, .. }, Err(_)) => {
                let line = path.clone();
                let ghost l = line@;
                self.owner_refused.push(line);
                assert(text::views(self.owner_refused@) =~= refused.push(l));
            },
        }
    }
}

// ---------------------------------------------------------------------------
// Laws
// ---------------------------------------------------------------------------

/// A path that could not be read is reported rather than dropped: every path is either
/// recorded, a symlink, or named among those missed.
pub proof fn nothing_is_missed_in_silence(stated: Seq<Stated>, known: Seq<Names>, n: int, i: int)
    requires
        0 <= i < n <= stated.len(),
    ensures
        match stated[i].stat {
            Ok(stat) => stat.symlink || manifest_of(stated, known, n).contains_key(
                stated[i].key@,
            ),
            Err(error) => missed_of(stated, n).contains(
                plan::shown(stated[i].source@)
                    + ": permissions could not be read, so it restores 0644: "@ + error@,
            ),
        },
    decreases n,
{
    let before = missed_of(stated, n - 1);
    let after = missed_of(stated, n);
    if i < n - 1 {
        nothing_is_missed_in_silence(stated, known, n - 1, i);
        if let Err(error) = stated[i].stat {
            let line = plan::shown(stated[i].source@)
                + ": permissions could not be read, so it restores 0644: "@ + error@;
            let j = choose|j: int| 0 <= j < before.len() && before[j] == line;
            assert(after[j] == line);
        }
    } else {
        if let Err(error) = stated[i].stat {
            assert(after.last() == plan::shown(stated[i].source@)
                + ": permissions could not be read, so it restores 0644: "@ + error@);
        }
    }
}

/// A directory comes before everything beneath it in the order of a manifest, so taking the
/// directories from the last to the first takes the deepest first.
pub proof fn a_directory_precedes_what_it_holds(dir: Seq<char>, name: Seq<char>)
    requires
        name.len() > 0,
    ensures
        text::text_less(dir, dir + "/"@ + name),
    decreases dir.len(),
{
    reveal_strlit("/");
    if dir.len() > 0 {
        a_directory_precedes_what_it_holds(dir.skip(1), name);
        assert((dir + "/"@ + name)[0] == dir[0]);
        assert((dir + "/"@ + name).skip(1) =~= dir.skip(1) + "/"@ + name);
    }
}

/// Whether these are the names a pair of ids goes by: those of the first that is known of the pair,
/// or else the two numbers.
pub open spec fn goes_by(
    known: Seq<Names>,
    uid: u32,
    gid: u32,
    owner: Seq<char>,
    group: Seq<char>,
) -> bool {
    ||| exists|j: int|
        0 <= j < known.len() && (#[trigger] known[j]).uid == uid && known[j].gid == gid
            && known[j].owner@ == owner && known[j].group@ == group && forall|k: int|
            0 <= k < j ==> !((#[trigger] known[k]).uid == uid && known[k].gid == gid)
    ||| (forall|k: int|
        0 <= k < known.len() ==> !((#[trigger] known[k]).uid == uid && known[k].gid == gid))
        && owner == text::decimal_text(uid as nat) && group == text::decimal_text(gid as nat)
}

proof fn lemma_goes_by(known: Seq<Names>, uid: u32, gid: u32)
    ensures
        goes_by(known, uid, gid, names_of(known, uid, gid).0, names_of(known, uid, gid).1),
    decreases known.len(),
{
    let names = names_of(known, uid, gid);
    if known.len() > 0 {
        if known[0].uid == uid && known[0].gid == gid {
            assert(known[0].owner@ == names.0);
        } else {
            let rest = known.skip(1);
            lemma_goes_by(rest, uid, gid);
            if exists|j: int|
                0 <= j < rest.len() && (#[trigger] rest[j]).uid == uid && rest[j].gid == gid
                    && rest[j].owner@ == names.0 && rest[j].group@ == names.1 && forall|k: int|
                    0 <= k < j ==> !((#[trigger] rest[k]).uid == uid && rest[k].gid == gid) {
                let j = choose|j: int|
                    0 <= j < rest.len() && (#[trigger] rest[j]).uid == uid && rest[j].gid == gid
                        && rest[j].owner@ == names.0 && rest[j].group@ == names.1 && forall|k: int|
                        0 <= k < j ==> !((#[trigger] rest[k]).uid == uid && rest[k].gid == gid);
                assert(known[j + 1] == rest[j]);
                assert forall|k: int| 0 <= k < j + 1 implies !((#[trigger] known[k]).uid == uid
                    && known[k].gid == gid) by {
                    if k > 0 {
                        assert(rest[k - 1] == known[k]);
                    }
                }
            } else {
                assert forall|k: int| 0 <= k < known.len() implies !((#[trigger] known[k]).uid
                    == uid && known[k].gid == gid) by {
                    if k > 0 {
                        assert(rest[k - 1] == known[k]);
                    }
                }
            }
        }
    }
}

/// A record holds the permission bits that were read, the names the owner goes by, and no attribute
/// yet; a path is recorded exactly where it was read and is no link.
pub proof fn a_record_holds_what_was_read(
    stated: Seq<Stated>,
    known: Seq<Names>,
    n: int,
    key: Seq<char>,
)
    requires
        0 <= n <= stated.len(),
    ensures
        manifest_of(stated, known, n).contains_key(key) == exists|i: int|
            0 <= i < n && (#[trigger] stated[i]).key@ == key && (stated[i].stat matches Ok(stat)
                && !stat.symlink),
        forall|i: int|
            0 <= i < n && (#[trigger] stated[i]).key@ == key && (stated[i].stat matches Ok(stat)
                && !stat.symlink) && (forall|j: int|
                i < j < n ==> (#[trigger] stated[j]).key@ != key) ==> {
                let record = manifest_of(stated, known, n)[key];
                let stat = stated[i].stat->Ok_0;
                &&& record.mode == stat.mode as int % 4096
                &&& record.xattrs.len() == 0
                &&& goes_by(known, stat.uid, stat.gid, record.owner, record.group)
            },
    decreases n,
{
    if n > 0 {
        a_record_holds_what_was_read(stated, known, n - 1, key);
        let last = stated[n - 1];
        if let Ok(stat) = last.stat {
            let mode = stat.mode;
            assert(mode & 0o7777 == mode % 4096) by (bit_vector);
            lemma_goes_by(known, stat.uid, stat.gid);
            if last.key@ == key && !stat.symlink {
                assert(stated[n - 1].key@ == key);
            }
        }
        let m = manifest_of(stated, known, n);
        assert forall|i: int|
            0 <= i < n && (#[trigger] stated[i]).key@ == key && (stated[i].stat matches Ok(stat)
                && !stat.symlink) && (forall|j: int|
                i < j < n ==> (#[trigger] stated[j]).key@ != key) implies {
            let stat = stated[i].stat->Ok_0;
            &&& m[key].mode == stat.mode as int % 4096
            &&& m[key].xattrs.len() == 0
            &&& goes_by(known, stat.uid, stat.gid, m[key].owner, m[key].group)
        } by {
            if i < n - 1 {
                assert(stated[n - 1].key@ != key);
                assert(m[key] == manifest_of(stated, known, n - 1)[key]);
            }
        }
    }
}

/// A line that names an attribute behind the last colon and space is taken apart there.
pub proof fn a_listing_line_parts_at_its_last_colon(source: Seq<char>, name: Seq<char>)
    requires
        !text::contains_text(name, ": "@),
    ensures
        split_last_colon(source + ": "@ + name) == Some((source, name)),
{
    reveal_strlit(": ");
    let line = source + ": "@ + name;
    let at = source.len() as int;
    assert(line.subrange(at, at + 2) =~= ": "@);
    assert(text::occurs_at(line, ": "@, at));
    lemma_last_colon(source, name, line.len() as int);
    assert(line.take(at) =~= source);
    assert(line.skip(at + 2) =~= name);
}

proof fn lemma_last_colon(source: Seq<char>, name: Seq<char>, n: int)
    requires
        !text::contains_text(name, ": "@),
        source.len() <= n <= source.len() + 2 + name.len(),
    ensures
        last_colon(source + ": "@ + name, n) == Some(source.len() as int),
    decreases n,
{
    reveal_strlit(": ");
    let line = source + ": "@ + name;
    let at = source.len() as int;
    if n == at {
        assert(line.subrange(at, at + 2) =~= ": "@);
        assert(text::occurs_at(line, ": "@, at));
    } else {
        if text::occurs_at(line, ": "@, n) {
            assert(line.subrange(n, n + 2)[0] == ':' && line.subrange(n, n + 2)[1] == ' ');
            assert(line[n] == ':');
            if n == at + 1 {
                assert(line[at + 1] == ' ');
            } else {
                let k = n - at - 2;
                assert(name.subrange(k, k + 2) =~= line.subrange(n, n + 2));
                assert(text::occurs_at(name, ": "@, k));
            }
        }
        lemma_last_colon(source, name, n - 1);
    }
}

/// An attribute is read exactly where a line names it behind a source that is being captured and it
/// is none of the system's own; it goes under the key of that source.
pub proof fn an_attribute_is_read_for_what_is_captured(
    printed: Seq<Seq<char>>,
    keys: Map<Seq<char>, Seq<char>>,
    n: int,
    want: WantedView,
)
    requires
        0 <= n <= printed.len(),
    ensures
        wanted_in(printed, keys, n).contains(want) == (keys.contains_key(want.source)
            && keys[want.source] == want.stored && want.name != "com.apple.provenance"@ && want.name
            != "com.apple.quarantine"@ && exists|i: int, rest: Seq<char>|
            0 <= i < n && #[trigger] split_last_colon(printed[i]) == Some((want.source, rest))
                && #[trigger] lines::trimmed(rest) == want.name),
    decreases n,
{
    if n > 0 {
        an_attribute_is_read_for_what_is_captured(printed, keys, n - 1, want);
        let before = wanted_in(printed, keys, n - 1);
        let after = wanted_in(printed, keys, n);
        match split_last_colon(printed[n - 1]) {
            Some((source, rest)) => {
                let name = lines::trimmed(rest);
                if is_system(name) || !keys.contains_key(source) {
                    assert(after == before);
                } else {
                    let row = WantedView { source, name, stored: keys[source] };
                    assert(after == before.push(row));
                    if after.contains(want) {
                        let k = choose|k: int| 0 <= k < after.len() && after[k] == want;
                        if k < before.len() {
                            assert(before[k] == want);
                        }
                    }
                    if before.contains(want) {
                        let k = choose|k: int| 0 <= k < before.len() && before[k] == want;
                        assert(after[k] == want);
                    }
                    assert(after[before.len() as int] == row);
                }
            },
            None => {},
        }
    }
}

/// An attribute's bytes are added behind those of its path, and nothing else of the manifest
/// changes.
pub proof fn a_value_is_added_to_its_path(
    m: Map<Seq<char>, RecordView>,
    wanted: WantedView,
    printed: Seq<char>,
    other: Seq<char>,
)
    ensures
        ({
            let after = with_value(m, wanted, printed);
            let value = metadata::unhexed(packed(lines::words_of(printed)));
            &&& after.contains_key(other) == m.contains_key(other)
            &&& m.contains_key(other) && (other != wanted.stored || value is None) ==> after[other]
                == m[other]
            &&& m.contains_key(wanted.stored) && value is Some ==> {
                let record = after[wanted.stored];
                let was = m[wanted.stored];
                &&& record.mode == was.mode && record.owner == was.owner && record.group
                    == was.group
                &&& record.xattrs.len() == was.xattrs.len() + 1
                &&& was.xattrs.is_prefix_of(record.xattrs)
                &&& record.xattrs.last().0 == wanted.name
                &&& record.xattrs.last().1 == value->0
            }
        }),
{
}

/// What is done to a path: its mode first, every attribute it has, and its owner exactly where one
/// is recorded that is not the one running.
pub proof fn a_path_gets_back_what_it_had(
    path: Seq<char>,
    r: RecordView,
    me: Option<Seq<char>>,
    step: StepView,
)
    ensures
        path_steps(path, r, me)[0] == (StepView::Mode { path, mode: r.mode }),
        path_steps(path, r, me).contains(step) == match step {
            StepView::Mode { path: p, mode } => p == path && mode == r.mode,
            StepView::Xattr { path: p, name, hex } => p == path && exists|i: int|
                0 <= i < r.xattrs.len() && (#[trigger] r.xattrs[i]).0 == name && hex
                    == oid::hex_text(r.xattrs[i].1),
            StepView::Owner { path: p, to } => p == path && to == r.owner + ":"@ + r.group
                && r.owner.len() > 0 && me != Some(r.owner),
        },
{
    let steps = path_steps(path, r, me);
    let more = attribute_steps(path, r.xattrs);
    assert(steps[0] == (StepView::Mode { path, mode: r.mode }));
    assert forall|i: int| 0 <= i < r.xattrs.len() implies #[trigger] steps[i + 1] == (
    StepView::Xattr { path, name: r.xattrs[i].0, hex: oid::hex_text(r.xattrs[i].1) }) by {
        assert(steps[i + 1] == more[i]);
    }
    let owner = StepView::Owner { path, to: r.owner + ":"@ + r.group };
    if r.owner.len() > 0 && me != Some(r.owner) {
        assert(steps[r.xattrs.len() as int + 1] == owner);
        assert(steps.len() == r.xattrs.len() + 2);
    } else {
        assert(steps.len() == r.xattrs.len() + 1);
    }
    if steps.contains(step) {
        let k = choose|k: int| 0 <= k < steps.len() && steps[k] == step;
        if 1 <= k <= r.xattrs.len() {
            assert(steps[(k - 1) + 1] == (StepView::Xattr {
                path,
                name: r.xattrs[k - 1].0,
                hex: oid::hex_text(r.xattrs[k - 1].1),
            }));
        }
    }
    if let StepView::Xattr { path: p, name, hex } = step {
        if p == path && exists|i: int|
            0 <= i < r.xattrs.len() && (#[trigger] r.xattrs[i]).0 == name && hex == oid::hex_text(
                r.xattrs[i].1,
            ) {
            let i = choose|i: int|
                0 <= i < r.xattrs.len() && (#[trigger] r.xattrs[i]).0 == name && hex
                    == oid::hex_text(r.xattrs[i].1);
            assert(steps[i + 1] == step);
        }
    }
}

/// Whether the steps of a path stand one after another from `at` on.
pub open spec fn done_at(
    steps: Seq<StepView>,
    at: int,
    row: metadata::Row,
    me: Option<Seq<char>>,
) -> bool {
    let whole = path_steps(row.0, row.1, me);
    0 <= at && at + whole.len() <= steps.len() && steps.subrange(at, at + whole.len()) == whole
}

/// Everything a manifest has of a path that is there is put back, and a directory only once
/// everything later in the manifest, and so everything beneath it, has been: files come before
/// directories, and of two directories the later comes first.
pub proof fn a_directory_is_restored_behind_what_it_holds(
    rows: Seq<metadata::Row>,
    targets: Seq<Target>,
    me: Option<Seq<char>>,
    i: int,
    j: int,
)
    requires
        targets.len() == rows.len(),
        0 <= i < rows.len(),
        0 <= j < rows.len(),
        targets[i] == Target::Directory,
        targets[j] == Target::File || targets[j] == Target::Directory && i < j,
    ensures
        exists|a: int, b: int|
            #[trigger] done_at(replayed(rows, targets, me), a, rows[j], me) && #[trigger] done_at(
                replayed(rows, targets, me),
                b,
                rows[i],
                me,
            ) && a + path_steps(rows[j].0, rows[j].1, me).len() <= b,
{
    let n = rows.len() as int;
    let files = file_steps(rows, targets, me, n);
    let dirs = directory_steps(rows, targets, me, 0);
    let all = replayed(rows, targets, me);
    let first = path_steps(rows[j].0, rows[j].1, me);
    if targets[j] == Target::File {
        lemma_file_done(rows, targets, me, n, j);
        let a = choose|a: int| #[trigger] done_at(files, a, rows[j], me);
        lemma_directory_done(rows, targets, me, 0, i);
        let b = choose|b: int| #[trigger] done_at(dirs, b, rows[i], me);
        lemma_done_within(files, dirs, a, rows[j], me);
        lemma_done_behind(files, dirs, b, rows[i], me);
        assert(done_at(all, a, rows[j], me) && done_at(all, files.len() + b, rows[i], me));
    } else {
        lemma_directories_done(rows, targets, me, 0, i, j);
        let (a, b) = choose|a: int, b: int|
            #[trigger] done_at(dirs, a, rows[j], me) && #[trigger] done_at(dirs, b, rows[i], me)
                && a + first.len() <= b;
        lemma_done_behind(files, dirs, a, rows[j], me);
        lemma_done_behind(files, dirs, b, rows[i], me);
        assert(done_at(all, files.len() + a, rows[j], me) && done_at(
            all,
            files.len() + b,
            rows[i],
            me,
        ));
    }
}

/// Whatever is there is restored: the steps of every file and of every directory are among those
/// taken.
pub proof fn whatever_is_there_is_restored(
    rows: Seq<metadata::Row>,
    targets: Seq<Target>,
    me: Option<Seq<char>>,
    i: int,
)
    requires
        targets.len() == rows.len(),
        0 <= i < rows.len(),
        targets[i] == Target::File || targets[i] == Target::Directory,
    ensures
        exists|at: int| #[trigger] done_at(replayed(rows, targets, me), at, rows[i], me),
{
    let n = rows.len() as int;
    let files = file_steps(rows, targets, me, n);
    let dirs = directory_steps(rows, targets, me, 0);
    let all = replayed(rows, targets, me);
    if targets[i] == Target::File {
        lemma_file_done(rows, targets, me, n, i);
        let a = choose|a: int| #[trigger] done_at(files, a, rows[i], me);
        lemma_done_within(files, dirs, a, rows[i], me);
        assert(done_at(all, a, rows[i], me));
    } else {
        lemma_directory_done(rows, targets, me, 0, i);
        let b = choose|b: int| #[trigger] done_at(dirs, b, rows[i], me);
        lemma_done_behind(files, dirs, b, rows[i], me);
        assert(done_at(all, files.len() + b, rows[i], me));
    }
}

/// Nothing is done to a path that is not there, nor to one the manifest does not name.
pub proof fn only_what_is_there_is_touched(
    rows: Seq<metadata::Row>,
    targets: Seq<Target>,
    me: Option<Seq<char>>,
    step: StepView,
)
    requires
        targets.len() == rows.len(),
        replayed(rows, targets, me).contains(step),
    ensures
        exists|i: int|
            0 <= i < rows.len() && targets[i] != Target::Absent && path_steps(
                (#[trigger] rows[i]).0,
                rows[i].1,
                me,
            ).contains(step),
{
    let n = rows.len() as int;
    let files = file_steps(rows, targets, me, n);
    let dirs = directory_steps(rows, targets, me, 0);
    let all = replayed(rows, targets, me);
    let k = choose|k: int| 0 <= k < all.len() && all[k] == step;
    if k < files.len() {
        assert(files[k] == step);
        lemma_file_from(rows, targets, me, n, step);
    } else {
        assert(dirs[k - files.len()] == step);
        lemma_directory_from(rows, targets, me, 0, step);
    }
}

proof fn lemma_done_within(
    a: Seq<StepView>,
    b: Seq<StepView>,
    at: int,
    row: metadata::Row,
    me: Option<Seq<char>>,
)
    requires
        done_at(a, at, row, me),
    ensures
        done_at(a + b, at, row, me),
{
    let n = path_steps(row.0, row.1, me).len();
    assert((a + b).subrange(at, at + n) =~= a.subrange(at, at + n));
}

proof fn lemma_done_behind(
    a: Seq<StepView>,
    b: Seq<StepView>,
    at: int,
    row: metadata::Row,
    me: Option<Seq<char>>,
)
    requires
        done_at(b, at, row, me),
    ensures
        done_at(a + b, a.len() + at, row, me),
{
    let n = path_steps(row.0, row.1, me).len();
    assert((a + b).subrange(a.len() + at, a.len() + at + n) =~= b.subrange(at, at + n));
}

proof fn lemma_file_done(
    rows: Seq<metadata::Row>,
    targets: Seq<Target>,
    me: Option<Seq<char>>,
    n: int,
    i: int,
)
    requires
        0 <= i < n <= rows.len(),
        targets.len() == rows.len(),
        targets[i] == Target::File,
    ensures
        exists|at: int| #[trigger] done_at(file_steps(rows, targets, me, n), at, rows[i], me),
    decreases n,
{
    let before = file_steps(rows, targets, me, n - 1);
    let last = path_steps(rows[n - 1].0, rows[n - 1].1, me);
    if i == n - 1 {
        assert(last.subrange(0, last.len() as int) =~= last);
        assert(done_at(last, 0, rows[i], me));
        lemma_done_behind(before, last, 0, rows[i], me);
        assert(done_at(
            file_steps(rows, targets, me, n),
            before.len() as int,
            rows[i],
            me,
        ));
    } else {
        lemma_file_done(rows, targets, me, n - 1, i);
        let at = choose|at: int| #[trigger] done_at(before, at, rows[i], me);
        lemma_done_within(before, last, at, rows[i], me);
        assert(done_at(file_steps(rows, targets, me, n), at, rows[i], me));
    }
}

proof fn lemma_directory_done(
    rows: Seq<metadata::Row>,
    targets: Seq<Target>,
    me: Option<Seq<char>>,
    n: int,
    i: int,
)
    requires
        0 <= n <= i < rows.len(),
        targets.len() == rows.len(),
        targets[i] == Target::Directory,
    ensures
        exists|at: int| #[trigger] done_at(directory_steps(rows, targets, me, n), at, rows[i], me),
    decreases rows.len() - n,
{
    let later = directory_steps(rows, targets, me, n + 1);
    let own = path_steps(rows[n].0, rows[n].1, me);
    if i == n {
        assert(own.subrange(0, own.len() as int) =~= own);
        assert(done_at(own, 0, rows[i], me));
        lemma_done_behind(later, own, 0, rows[i], me);
        assert(done_at(
            directory_steps(rows, targets, me, n),
            later.len() as int,
            rows[i],
            me,
        ));
    } else {
        lemma_directory_done(rows, targets, me, n + 1, i);
        let at = choose|at: int| #[trigger] done_at(later, at, rows[i], me);
        lemma_done_within(later, own, at, rows[i], me);
        assert(done_at(directory_steps(rows, targets, me, n), at, rows[i], me));
    }
}

proof fn lemma_directories_done(
    rows: Seq<metadata::Row>,
    targets: Seq<Target>,
    me: Option<Seq<char>>,
    n: int,
    i: int,
    j: int,
)
    requires
        0 <= n <= i < j < rows.len(),
        targets.len() == rows.len(),
        targets[i] == Target::Directory,
        targets[j] == Target::Directory,
    ensures
        exists|a: int, b: int|
            #[trigger] done_at(directory_steps(rows, targets, me, n), a, rows[j], me)
                && #[trigger] done_at(directory_steps(rows, targets, me, n), b, rows[i], me) && a
                + path_steps(rows[j].0, rows[j].1, me).len() <= b,
    decreases rows.len() - n,
{
    let later = directory_steps(rows, targets, me, n + 1);
    let own = path_steps(rows[n].0, rows[n].1, me);
    let all = directory_steps(rows, targets, me, n);
    if i == n {
        lemma_directory_done(rows, targets, me, n + 1, j);
        let a = choose|a: int| #[trigger] done_at(later, a, rows[j], me);
        lemma_done_within(later, own, a, rows[j], me);
        assert(own.subrange(0, own.len() as int) =~= own);
        assert(done_at(own, 0, rows[i], me));
        lemma_done_behind(later, own, 0, rows[i], me);
        assert(done_at(all, a, rows[j], me) && done_at(all, later.len() as int, rows[i], me));
    } else {
        lemma_directories_done(rows, targets, me, n + 1, i, j);
        let (a, b) = choose|a: int, b: int|
            #[trigger] done_at(later, a, rows[j], me) && #[trigger] done_at(later, b, rows[i], me)
                && a + path_steps(rows[j].0, rows[j].1, me).len() <= b;
        if targets[n] == Target::Directory {
            lemma_done_within(later, own, a, rows[j], me);
            lemma_done_within(later, own, b, rows[i], me);
        }
        assert(done_at(all, a, rows[j], me) && done_at(all, b, rows[i], me));
    }
}

proof fn lemma_file_from(
    rows: Seq<metadata::Row>,
    targets: Seq<Target>,
    me: Option<Seq<char>>,
    n: int,
    step: StepView,
)
    requires
        0 <= n <= rows.len(),
        file_steps(rows, targets, me, n).contains(step),
    ensures
        exists|i: int|
            0 <= i < n && targets[i] == Target::File && path_steps(
                (#[trigger] rows[i]).0,
                rows[i].1,
                me,
            ).contains(step),
    decreases n,
{
    let all = file_steps(rows, targets, me, n);
    let k = choose|k: int| 0 <= k < all.len() && all[k] == step;
    let before = file_steps(rows, targets, me, n - 1);
    if k < before.len() {
        assert(before[k] == step);
        lemma_file_from(rows, targets, me, n - 1, step);
    } else {
        let last = path_steps(rows[n - 1].0, rows[n - 1].1, me);
        assert(last[k - before.len()] == step);
        assert(path_steps(rows[n - 1].0, rows[n - 1].1, me).contains(step));
    }
}

proof fn lemma_directory_from(
    rows: Seq<metadata::Row>,
    targets: Seq<Target>,
    me: Option<Seq<char>>,
    n: int,
    step: StepView,
)
    requires
        0 <= n <= rows.len(),
        directory_steps(rows, targets, me, n).contains(step),
    ensures
        exists|i: int|
            n <= i < rows.len() && targets[i] == Target::Directory && path_steps(
                (#[trigger] rows[i]).0,
                rows[i].1,
                me,
            ).contains(step),
    decreases rows.len() - n,
{
    let all = directory_steps(rows, targets, me, n);
    let k = choose|k: int| 0 <= k < all.len() && all[k] == step;
    let later = directory_steps(rows, targets, me, n + 1);
    if k < later.len() {
        assert(later[k] == step);
        lemma_directory_from(rows, targets, me, n + 1, step);
    } else {
        let own = path_steps(rows[n].0, rows[n].1, me);
        assert(own[k - later.len()] == step);
        assert(path_steps(rows[n].0, rows[n].1, me).contains(step));
    }
}

/// Every source that is captured has its key, the place it is stored at.
pub proof fn every_source_has_its_key(items: Seq<(AbsPath, TreePath)>, n: int, shown: Seq<char>)
    requires
        0 <= n <= items.len(),
    ensures
        keys_of(items, n).contains_key(shown) <==> exists|i: int|
            0 <= i < n && plan::shown((#[trigger] items[i]).0@) == shown,
        forall|i: int|
            0 <= i < n && plan::shown((#[trigger] items[i]).0@) == shown && (forall|j: int|
                i < j < n ==> plan::shown((#[trigger] items[j]).0@) != shown) ==> keys_of(
                items,
                n,
            )[shown] == octets::lossy(text::join(items[i].1@, seq![SLASH])),
    decreases n,
{
    if n > 0 {
        every_source_has_its_key(items, n - 1, shown);
        let now = keys_of(items, n);
        if plan::shown(items[n - 1].0@) == shown {
            assert(now.contains_key(shown));
        }
        assert forall|i: int|
            0 <= i < n && plan::shown((#[trigger] items[i]).0@) == shown && (forall|j: int|
                i < j < n ==> plan::shown((#[trigger] items[j]).0@) != shown) implies now[shown]
            == octets::lossy(text::join(items[i].1@, seq![SLASH])) by {
            if i < n - 1 {
                assert(plan::shown(items[n - 1].0@) != shown);
            }
        }
    }
}

} // verus!
