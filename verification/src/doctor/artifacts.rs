//! Scanning a remote for sync-client wreckage.
//!
//! **The damaging artifacts do not sit next to the bare repo, they land inside it.**
//! A duplicated packfile or a conflicted copy of a ref file is the case that silently
//! corrupts a remote, and git will not always complain - so the scan goes into each
//! `<profile>.git` rather than around it.

use crate::config::rules::Path;
use crate::octets;
use crate::octets::{lossy_text, same_bytes};
use crate::plan::order;
use crate::plan::order::path_order;
use crate::primitives::path::AbsPath;
use crate::text;
use crate::text::{
    chars_of, ends_with, holds_text, rsplit_once_text, same, split_once, starts_with, strip_prefix,
};
use vstd::prelude::*;
use vstd::utf8::*;

verus! {

/// The note a remote carries for whoever finds it.
pub const RECOVERY_FILE: &'static str = "RECOVERY.md";

/// One file that should not be there, and what it is.
#[derive(Debug, PartialEq, Eq)]
pub struct Artifact {
    pub path: AbsPath,
    pub kind: Kind,
}

#[derive(Clone, Copy, Debug, PartialEq, Eq, Structural)]
pub enum Kind {
    /// In `objects/pack/` but not named `pack-<hex>.(pack|idx|rev|bitmap|mtimes)`.
    /// This is the one that corrupts silently.
    StrayPack,
    /// Under `refs/` with a name that is not a legal ref component.
    StrayRef,
    /// The shapes sync clients leave anywhere: `... (1).ext`, `...conflicted copy...`.
    Conflicted,
}

impl Kind {
    pub open spec fn words(self) -> Seq<char> {
        match self {
            Kind::StrayPack => "not a packfile name"@,
            Kind::StrayRef => "not a ref name"@,
            Kind::Conflicted => "a sync conflict copy"@,
        }
    }

    pub fn text(self) -> (out: &'static str)
        ensures
            out@ == self.words(),
    {
        match self {
            Kind::StrayPack => "not a packfile name",
            Kind::StrayRef => "not a ref name",
            Kind::Conflicted => "a sync conflict copy",
        }
    }
}

// ---------------------------------------------------------------------------
// Names
// ---------------------------------------------------------------------------

pub open spec fn ours(name: Seq<char>) -> bool {
    name == RECOVERY_FILE@ || text::has_prefix(name, RECOVERY_FILE@ + ".tmp."@)
}

/// Tycho's own in-flight write, which `doctor` must not report as wreckage.
fn is_ours(name: &str) -> (out: bool)
    ensures
        out == ours(name@),
{
    let temp = text::cat2(RECOVERY_FILE, ".tmp.");
    same(name, RECOVERY_FILE) || starts_with(&chars_of(name), &temp)
}

pub open spec fn hex_char(c: char) -> bool {
    '0' <= c <= '9' || 'a' <= c <= 'f' || 'A' <= c <= 'F'
}

pub open spec fn pack_extension(s: Seq<char>) -> bool {
    s == "pack"@ || s == "idx"@ || s == "rev"@ || s == "bitmap"@ || s == "mtimes"@
}

/// `pack-<hex>` and one of git's extensions.
pub open spec fn packfile(name: Seq<char>) -> bool {
    match text::split_at_last(name, "."@) {
        Some((stem, extension)) => pack_extension(extension) && match text::without_prefix(
            stem,
            "pack-"@,
        ) {
            Some(hex) => hex.len() > 0 && text::all_chars(hex, |c: char| hex_char(c)),
            None => false,
        },
        None => false,
    }
}

fn all_hex(cs: &[char]) -> (out: bool)
    ensures
        out == text::all_chars(cs@, |c: char| hex_char(c)),
{
    let ghost good = |c: char| hex_char(c);
    let mut i: usize = 0;
    while i < cs.len()
        invariant
            i <= cs@.len(),
            good == (|c: char| hex_char(c)),
            forall|k: int| 0 <= k < i ==> good(#[trigger] cs@[k]),
        decreases cs@.len() - i,
    {
        let c = cs[i];
        let hex = ('0' <= c && c <= '9') || ('a' <= c && c <= 'f') || ('A' <= c && c <= 'F');
        if !hex {
            assert(!good(cs@[i as int]));
            return false;
        }
        i += 1;
    }
    true
}

/// Whether a name in `objects/pack/` is one git wrote.
pub fn is_packfile(name: &str) -> (out: bool)
    ensures
        out == packfile(name@),
{
    proof {
        reveal_strlit(".");
    }
    let (stem, extension) = match rsplit_once_text(name, ".") {
        Some(parts) => parts,
        None => return false,
    };
    let known = same(&extension, "pack") || same(&extension, "idx") || same(&extension, "rev")
        || same(&extension, "bitmap") || same(&extension, "mtimes");
    if !known {
        return false;
    }
    match strip_prefix(&stem, "pack-") {
        Some(hex) => {
            let cs = chars_of(&hex);
            cs.len() > 0 && all_hex(&cs)
        },
        None => false,
    }
}

pub open spec fn component_char(c: char) -> bool {
    '0' <= c <= '9' || 'a' <= c <= 'z' || 'A' <= c <= 'Z' || c == '-' || c == '_' || c == '.' || c
        == '+' || c == '%' || c == '@'
}

pub open spec fn ref_component(name: Seq<char>) -> bool {
    name.len() > 0 && name[0] != '.' && !text::has_suffix(name, ".lock"@) && text::all_chars(
        name,
        |c: char| component_char(c),
    )
}

/// Whether a name under `refs/` is a legal ref component.
///
/// Deliberately narrower than `git check-ref-format`: a name with a space or a
/// parenthesis in it is not something git wrote, whatever the rules technically
/// permit, and this scan exists to find what a sync client left behind.
pub fn is_ref_component(name: &str) -> (out: bool)
    ensures
        out == ref_component(name@),
{
    let cs = chars_of(name);
    if cs.len() == 0 || cs[0] == '.' || ends_with(&cs, ".lock") {
        return false;
    }
    let ghost good = |c: char| component_char(c);
    let mut i: usize = 0;
    while i < cs.len()
        invariant
            i <= cs@.len(),
            cs@ == name@,
            good == (|c: char| component_char(c)),
            forall|k: int| 0 <= k < i ==> good(#[trigger] cs@[k]),
        decreases cs@.len() - i,
    {
        let c = cs[i];
        let legal = ('0' <= c && c <= '9') || ('a' <= c && c <= 'z') || ('A' <= c && c <= 'Z') || c
            == '-' || c == '_' || c == '.' || c == '+' || c == '%' || c == '@';
        if !legal {
            assert(!good(cs@[i as int]));
            return false;
        }
        i += 1;
    }
    true
}

/// `notes (1).md`, the shape Drive and OneDrive both produce.
pub open spec fn numbered_copy(name: Seq<char>) -> bool {
    match text::split_at_last(name, " ("@) {
        Some((_, rest)) => match text::split_first(rest, ')') {
            Some((digits, _)) => digits.len() > 0 && text::all_chars(
                digits,
                |c: char| text::is_digit(c),
            ),
            None => false,
        },
        None => false,
    }
}

pub open spec fn conflicted(name: Seq<char>) -> bool {
    let lower = text::ascii_lower_text(name);
    text::contains_text(lower, "conflict"@) || text::contains_text(lower, " copy"@)
        || numbered_copy(name)
}

fn is_numbered_copy(name: &str) -> (out: bool)
    ensures
        out == numbered_copy(name@),
{
    proof {
        reveal_strlit(" (");
    }
    let rest = match rsplit_once_text(name, " (") {
        Some((_, rest)) => rest,
        None => return false,
    };
    let digits = match split_once(&rest, ')') {
        Some((digits, _)) => chars_of(&digits),
        None => return false,
    };
    if digits.len() == 0 {
        return false;
    }
    are_digits(&digits)
}

fn are_digits(cs: &[char]) -> (out: bool)
    ensures
        out == text::all_chars(cs@, |c: char| text::is_digit(c)),
{
    let ghost good = |c: char| text::is_digit(c);
    let mut i: usize = 0;
    while i < cs.len()
        invariant
            i <= cs@.len(),
            good == (|c: char| text::is_digit(c)),
            forall|k: int| 0 <= k < i ==> good(#[trigger] cs@[k]),
        decreases cs@.len() - i,
    {
        let c = cs[i];
        if !('0' <= c && c <= '9') {
            assert(!good(cs@[i as int]));
            return false;
        }
        i += 1;
    }
    true
}

pub fn looks_conflicted(name: &str) -> (out: bool)
    ensures
        out == conflicted(name@),
{
    let lower = text::string_of(&crate::config::schedule::lower_ascii(name));
    holds_text(&lower, "conflict") || holds_text(&lower, " copy") || is_numbered_copy(name)
}

// ---------------------------------------------------------------------------
// Files
// ---------------------------------------------------------------------------

/// Whether a component of the part of a path behind its root is `segment`.
pub open spec fn inside(root: Path, path: Path, segment: Seq<char>) -> bool {
    exists|i: int| root.len() <= i < path.len() && #[trigger] path[i] == encode_utf8(segment)
}

pub open spec fn file_name(path: Path) -> Seq<char> {
    if path.len() == 0 {
        ""@
    } else {
        octets::lossy(path.last())
    }
}

/// What kind of wreckage a file under a remote's folder is, where it is any.
pub open spec fn kind_of(root: Path, path: Path) -> Option<Kind> {
    let name = file_name(path);
    if ours(name) {
        None
    } else if inside(root, path, "pack"@) && inside(root, path, "objects"@) && !packfile(name) {
        Some(Kind::StrayPack)
    } else if inside(root, path, "refs"@) && !ref_component(name) {
        Some(Kind::StrayRef)
    } else if conflicted(name) {
        Some(Kind::Conflicted)
    } else {
        None
    }
}

fn is_inside(root: &AbsPath, path: &AbsPath, segment: &str) -> (out: bool)
    ensures
        out == inside(root@, path@, segment@),
{
    let parts = path.parts();
    let first: usize = root.depth();
    let mut i: usize = first;
    while i < parts.len()
        invariant
            root@.len() == first <= i,
            octets::byte_views(parts@) == path@,
            forall|k: int| first <= k < i && k < path@.len() ==> #[trigger] path@[k]
                != encode_utf8(segment@),
        decreases parts@.len() - i,
    {
        assert(octets::byte_views(parts@)[i as int] == parts@[i as int]@);
        if same_bytes(&parts[i], segment.as_bytes()) {
            assert(path@[i as int] == encode_utf8(segment@));
            return true;
        }
        i += 1;
    }
    assert(octets::byte_views(parts@).len() == parts@.len());
    false
}

/// A path's last component, as text.
pub fn shown_name(path: &AbsPath) -> (out: String)
    ensures
        out@ == file_name(path@),
{
    let parts = path.parts();
    let len: usize = parts.len();
    assert(octets::byte_views(parts@).len() == parts@.len());
    if len == 0 {
        return "".to_owned();
    }
    assert(octets::byte_views(parts@)[len - 1] == parts@[len - 1]@);
    lossy_text(&parts[len - 1])
}

/// What kind of wreckage a file is, where it is any.
pub fn kind(root: &AbsPath, path: &AbsPath) -> (out: Option<Kind>)
    ensures
        out == kind_of(root@, path@),
{
    let name = shown_name(path);
    if is_ours(&name) {
        None
    } else if is_inside(root, path, "pack") && is_inside(root, path, "objects") && !is_packfile(
        &name,
    ) {
        Some(Kind::StrayPack)
    } else if is_inside(root, path, "refs") && !is_ref_component(&name) {
        Some(Kind::StrayRef)
    } else if looks_conflicted(&name) {
        Some(Kind::Conflicted)
    } else {
        None
    }
}

/// The wreckage among the first `n` files, in the order they were found.
pub open spec fn flagged(root: Path, files: Seq<AbsPath>, n: int) -> Seq<(Path, Kind)>
    decreases n,
{
    if n <= 0 {
        Seq::empty()
    } else {
        match kind_of(root, files[n - 1]@) {
            Some(kind) => flagged(root, files, n - 1).push((files[n - 1]@, kind)),
            None => flagged(root, files, n - 1),
        }
    }
}

pub open spec fn artifact_views(v: Seq<Artifact>) -> Seq<(Path, Kind)> {
    v.map_values(|a: Artifact| (a.path@, a.kind))
}

/// The paths of some wreckage.
pub open spec fn flagged_paths(v: Seq<(Path, Kind)>) -> Seq<Path> {
    v.map_values(|a: (Path, Kind)| a.0)
}

/// Some wreckage in another order.
pub open spec fn arranged(v: Seq<(Path, Kind)>, order: Seq<usize>) -> Seq<(Path, Kind)> {
    Seq::new(order.len(), |i: int| v[order[i] as int])
}

/// Judges every file under a remote's folder, including the ones inside each bare repository,
/// and gives back the wreckage by path.
#[must_use]
pub fn scan(folder: &AbsPath, files: &[AbsPath]) -> (out: Vec<Artifact>)
    ensures
        ({
            let found = flagged(folder@, files@, files@.len() as int);
            exists|order: Seq<usize>|
                {
                    &&& order::covers(order, 0, found.len() as int)
                    &&& order::ascending(flagged_paths(found), order)
                    &&& artifact_views(out@) == #[trigger] arranged(found, order)
                }
        }),
{
    let ghost found = flagged(folder@, files@, files@.len() as int);
    let mut paths: Vec<AbsPath> = Vec::new();
    let mut kinds: Vec<Kind> = Vec::new();
    let mut i: usize = 0;
    while i < files.len()
        invariant
            i <= files@.len(),
            paths@.len() == kinds@.len() == flagged(folder@, files@, i as int).len(),
            forall|k: int|
                0 <= k < paths@.len() ==> (#[trigger] paths@[k])@ == flagged(
                    folder@,
                    files@,
                    i as int,
                )[k].0,
            forall|k: int|
                0 <= k < kinds@.len() ==> #[trigger] kinds@[k] == flagged(
                    folder@,
                    files@,
                    i as int,
                )[k].1,
        decreases files@.len() - i,
    {
        if let Some(kind) = kind(folder, &files[i]) {
            paths.push(files[i].clone());
            kinds.push(kind);
        }
        i += 1;
    }
    let order = path_order(&paths);
    assert(order::path_keys(paths@) =~= flagged_paths(found));
    let mut out: Vec<Artifact> = Vec::new();
    let mut i: usize = 0;
    while i < order.len()
        invariant
            i <= order@.len(),
            out@.len() == i,
            order::covers(order@, 0, found.len() as int),
            paths@.len() == kinds@.len() == found.len(),
            forall|k: int| 0 <= k < paths@.len() ==> (#[trigger] paths@[k])@ == found[k].0,
            forall|k: int| 0 <= k < kinds@.len() ==> #[trigger] kinds@[k] == found[k].1,
            forall|k: int|
                0 <= k < i ==> (#[trigger] out@[k]).path@ == found[order@[k] as int].0
                    && out@[k].kind == found[order@[k] as int].1,
        decreases order@.len() - i,
    {
        let at: usize = order[i];
        assert(order@.contains(at));
        out.push(Artifact { path: paths[at].clone(), kind: kinds[at] });
        i += 1;
    }
    assert(artifact_views(out@) =~= arranged(found, order@));
    out
}

// ---------------------------------------------------------------------------
// Laws
// ---------------------------------------------------------------------------

/// What Tycho itself writes beside a repository - the recovery note and its temporary copies - is
/// never wreckage, wherever it stands.
pub proof fn what_tycho_writes_is_no_wreckage(root: Path, path: Path)
    requires
        ours(file_name(path)),
    ensures
        kind_of(root, path) is None,
{
}

/// The wreckage found is exactly the files that are some, each with its kind.
pub proof fn every_piece_of_wreckage_is_flagged(
    root: Path,
    files: Seq<AbsPath>,
    n: int,
    path: Path,
    kind: Kind,
)
    requires
        0 <= n <= files.len(),
    ensures
        flagged(root, files, n).contains((path, kind)) <==> kind_of(root, path) == Some(kind)
            && exists|i: int| 0 <= i < n && (#[trigger] files[i])@ == path,
    decreases n,
{
    if n > 0 {
        every_piece_of_wreckage_is_flagged(root, files, n - 1, path, kind);
        let before = flagged(root, files, n - 1);
        let after = flagged(root, files, n);
        let row = (path, kind);
        if before.contains(row) {
            let k = choose|k: int| 0 <= k < before.len() && before[k] == row;
            assert(after[k] == row);
        }
        if after.contains(row) {
            let k = choose|k: int| 0 <= k < after.len() && after[k] == row;
            if k < before.len() {
                assert(before[k] == row);
            } else {
                assert(files[n - 1]@ == path);
            }
        }
        if files[n - 1]@ == path && kind_of(root, path) == Some(kind) {
            assert(after[after.len() - 1] == row);
        }
    }
}

/// What a file is taken for: a stray pack only among the packs, a stray ref only among the refs, and
/// a conflict copy anywhere else or where it is neither; never one of ours.
pub proof fn wreckage_is_told_by_where_it_lies(root: Path, path: Path)
    ensures
        ({
            let name = file_name(path);
            let packs = inside(root, path, "pack"@) && inside(root, path, "objects"@);
            let refs = inside(root, path, "refs"@);
            &&& kind_of(root, path) == Some(Kind::StrayPack) <==> !ours(name) && packs && !packfile(
                name,
            )
            &&& kind_of(root, path) == Some(Kind::StrayRef) <==> !ours(name) && !(packs
                && !packfile(name)) && refs && !ref_component(name)
            &&& kind_of(root, path) is None <==> ours(name) || ((packs ==> packfile(name)) && (refs
                ==> ref_component(name)) && !conflicted(name))
        }),
{
}

/// What git names a pack and its companions is a packfile's name, and nothing with another start is.
pub proof fn a_pack_is_known_by_its_name(hex: Seq<char>, name: Seq<char>)
    requires
        hex.len() > 0,
        forall|i: int| 0 <= i < hex.len() ==> hex_char(#[trigger] hex[i]),
    ensures
        packfile("pack-"@ + hex + ".pack"@),
        packfile("pack-"@ + hex + ".idx"@),
        packfile("pack-"@ + hex + ".rev"@),
        !"pack-"@.is_prefix_of(name) ==> !packfile(name),
{
    reveal_strlit("pack-");
    reveal_strlit(".pack");
    reveal_strlit(".idx");
    reveal_strlit(".rev");
    reveal_strlit("pack");
    reveal_strlit("idx");
    reveal_strlit("rev");
    lemma_pack(hex, "pack"@);
    lemma_pack(hex, "idx"@);
    lemma_pack(hex, "rev"@);
    reveal_strlit(".");
    assert("pack-"@ + hex + ".pack"@ =~= "pack-"@ + hex + "."@ + "pack"@);
    assert("pack-"@ + hex + ".idx"@ =~= "pack-"@ + hex + "."@ + "idx"@);
    assert("pack-"@ + hex + ".rev"@ =~= "pack-"@ + hex + "."@ + "rev"@);
    if packfile(name) {
        let (stem, extension) = text::split_at_last(name, "."@)->0;
        let at = text::last_text(name, "."@, name.len() as int)->0;
        text::lemma_last_text(name, "."@, name.len() as int);
        assert(stem == name.take(at));
        assert(stem.take(5) == "pack-"@);
        assert("pack-"@ =~= name.subrange(0, 5)) by {
            assert forall|i: int| 0 <= i < 5 implies "pack-"@[i] == name[i] by {
                assert(stem.take(5)[i] == name[i]);
            }
        }
    }
}

proof fn lemma_pack(hex: Seq<char>, extension: Seq<char>)
    requires
        hex.len() > 0,
        forall|i: int| 0 <= i < hex.len() ==> hex_char(#[trigger] hex[i]),
        pack_extension(extension),
        extension.len() > 0,
        forall|i: int| 0 <= i < extension.len() ==> #[trigger] extension[i] != '.',
    ensures
        packfile("pack-"@ + hex + "."@ + extension),
{
    reveal_strlit("pack-");
    reveal_strlit(".");
    let stem = "pack-"@ + hex;
    let name = stem + "."@ + extension;
    let n = stem.len() as int;
    assert(name.subrange(n, n + 1) =~= "."@);
    lemma_last_dot(stem, extension, name.len() as int);
    assert(name.take(n) =~= stem);
    assert(name.skip(n + 1) =~= extension);
    assert(stem.take(5) =~= "pack-"@);
    assert(stem.skip(5) =~= hex);
    assert forall|i: int| 0 <= i < hex.len() implies (|c: char| hex_char(c))(#[trigger] hex[i]) by {
        assert(hex_char(hex[i]));
    }
}

proof fn lemma_last_dot(stem: Seq<char>, extension: Seq<char>, k: int)
    requires
        forall|i: int| 0 <= i < extension.len() ==> #[trigger] extension[i] != '.',
        stem.len() < k <= stem.len() + 1 + extension.len(),
    ensures
        text::last_text(stem + "."@ + extension, "."@, k) == Some(stem.len() as int),
    decreases k,
{
    reveal_strlit(".");
    let name = stem + "."@ + extension;
    let n = stem.len() as int;
    if k == n + 1 {
        assert(name.subrange(n, n + 1) =~= "."@);
        assert(text::occurs_at(name, "."@, n));
    } else {
        if text::occurs_at(name, "."@, k - 1) {
            assert(name.subrange(k - 1, k)[0] == '.');
            assert(extension[k - 2 - n] == '.');
        }
        lemma_last_dot(stem, extension, k - 1);
    }
}

/// Whatever a key is encoded as is a ref's component, so nothing Tycho stores is taken for a stray
/// ref.
pub proof fn an_encoded_key_is_a_ref_component(raw: Seq<u8>)
    requires
        raw.len() > 0,
    ensures
        ref_component(crate::primitives::encode::percent_encoded(raw)),
{
    let name = crate::primitives::encode::percent_encoded(raw);
    crate::primitives::encode::percent_is_a_safe_component(raw);
    crate::primitives::encode::percent_round_trips(raw);
    assert(name.len() > 0) by {
        if name.len() == 0 {
            assert(name =~= Seq::<char>::empty());
            crate::primitives::encode::percent_round_trips(Seq::empty());
            assert(crate::primitives::encode::percent_encoded(Seq::empty()) =~= name);
            crate::primitives::encode::percent_is_injective(raw, Seq::empty());
        }
    }
    assert forall|i: int| 0 <= i < name.len() implies (|c: char| component_char(c))(
        #[trigger] name[i],
    ) by {
        assert(crate::primitives::encode::component_char(name[i]));
    }
}

} // verus!
