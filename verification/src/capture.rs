//! Hashing plain files, fetching each repository's refs into the store, and
//! building the overlay of what git history alone cannot restore.
//!
//! The overlay is why this project exists: deleted files under a repository come back from
//! history, and a gitignored one does not. The only unprotected file is the one git cannot
//! resurrect.

pub mod overlay;
pub mod record;

pub use record::{parse_repo_txt, Recorded};

use crate::config::rules::Path;
use crate::git::refs;
use crate::git::refs::{parse_ref_lines, Refspec};
use crate::git::repo::{Repo, RepoError};
use crate::lines;
use crate::octets;
use crate::octets::{split_bytes, starts_with};
use crate::plan;
use crate::plan::{Plan, RepoHead, RepoRoot};
use crate::primitives::names;
use crate::primitives::names::{BranchName, RefName};
use crate::primitives::oid;
use crate::primitives::oid::Oid;
use crate::primitives::path;
use crate::primitives::path::{AbsPath, TreePath};
use crate::primitives::refs::{find_collisions, Collision};
use crate::process;
use crate::process::{git, Call, Output, RunError, Timeout};
use crate::text;
use crate::text::{
    cat2, cat3, cat4, cat5, chars_of, decimal, join_text, number, same, strip_prefix,
};
use crate::textmap::TextMap;
use vstd::prelude::*;
use vstd::utf8::*;

verus! {

/// What a repository looks like right now, for the dry run's head and state columns.
#[derive(Debug, PartialEq, Eq)]
pub struct Inspection {
    pub head: RepoHead,
    pub modified: usize,
    pub untracked: usize,
    /// The repository's object database size. On a machine where nearly everything
    /// is inside a repository, this is the bulk of what a run reads, and a plan that
    /// reported only loose files would understate it by orders of magnitude.
    pub objects: u64,
}

/// The dry run's `state` column.
pub open spec fn state_text(modified: nat, untracked: nat) -> Seq<char> {
    if modified == 0 && untracked == 0 {
        "clean"@
    } else if modified == 0 {
        text::decimal_text(untracked) + " untracked"@
    } else if untracked == 0 {
        text::decimal_text(modified) + " modified"@
    } else {
        text::decimal_text(modified) + " modified, "@ + text::decimal_text(untracked)
            + " untracked"@
    }
}

impl Inspection {
    /// The dry run's `state` column: `clean`, or the dominant kind of dirtiness.
    #[must_use]
    pub fn state(&self) -> (out: String)
        ensures
            out@ == state_text(self.modified as nat, self.untracked as nat),
    {
        let modified = decimal(self.modified as u64);
        let untracked = decimal(self.untracked as u64);
        if self.modified == 0 && self.untracked == 0 {
            "clean".to_owned()
        } else if self.modified == 0 {
            cat2(&untracked, " untracked")
        } else if self.untracked == 0 {
            cat2(&modified, " modified")
        } else {
            cat4(&modified, " modified, ", &untracked, " untracked")
        }
    }
}

#[derive(Debug, PartialEq, Eq)]
pub enum CaptureError {
    Run(RunError),
    Repo(RepoError),
    ObjectFormat { repo: String, found: String },
    RefCollision { repo: String, detail: String },
    NotStorable { path: String, reason: String },
}

impl CaptureError {
    pub open spec fn message(self) -> Seq<char> {
        match self {
            CaptureError::Run(e) => e.message@,
            CaptureError::Repo(e) => e.message(),
            CaptureError::ObjectFormat { repo, found } => repo@ + " uses the "@ + found@
                + " object format and this store is sha1; it cannot be fetched, and skipping it would lose it silently"@,
            CaptureError::RefCollision { repo, detail } => repo@
                + " has refs that collide once stored: "@ + detail@
                + "; fetching both would let the second silently clobber the first"@,
            CaptureError::NotStorable { path, reason } => "'"@ + path@
                + "' cannot be stored in the tree: "@ + reason@,
        }
    }

    pub fn text(&self) -> (out: String)
        ensures
            out@ == self.message(),
    {
        match self {
            CaptureError::Run(e) => e.message.clone(),
            CaptureError::Repo(e) => e.text(),
            CaptureError::ObjectFormat { repo, found } => cat4(
                repo,
                " uses the ",
                found,
                " object format and this store is sha1; it cannot be fetched, and skipping it would lose it silently",
            ),
            CaptureError::RefCollision { repo, detail } => cat4(
                repo,
                " has refs that collide once stored: ",
                detail,
                "; fetching both would let the second silently clobber the first",
            ),
            CaptureError::NotStorable { path, reason } => cat4(
                "'",
                path,
                "' cannot be stored in the tree: ",
                reason,
            ),
        }
    }
}

/// One repository's contribution to the backup tree.
#[derive(Debug)]
pub struct Contribution {
    /// Files on disk to hash: the overlay.
    pub files: Vec<(AbsPath, TreePath)>,
    /// Content Tycho generates rather than reads: `REPO.txt`.
    pub generated: Vec<(TreePath, Vec<u8>)>,
    pub warnings: Vec<String>,
}

/// What a contribution holds.
#[verifier::ext_equal]
pub struct ContributionView {
    pub files: Seq<(Path, Path)>,
    pub generated: Seq<(Path, Seq<u8>)>,
    pub warnings: Seq<Seq<char>>,
}

pub open spec fn file_views(files: Seq<(AbsPath, TreePath)>) -> Seq<(Path, Path)> {
    files.map_values(|f: (AbsPath, TreePath)| (f.0@, f.1@))
}

pub open spec fn generated_views(generated: Seq<(TreePath, Vec<u8>)>) -> Seq<(Path, Seq<u8>)> {
    generated.map_values(|g: (TreePath, Vec<u8>)| (g.0@, g.1@))
}

impl View for Contribution {
    type V = ContributionView;

    open spec fn view(&self) -> ContributionView {
        ContributionView {
            files: file_views(self.files@),
            generated: generated_views(self.generated@),
            warnings: text::views(self.warnings@),
        }
    }
}

impl ContributionView {
    pub open spec fn empty() -> ContributionView {
        ContributionView {
            files: Seq::empty(),
            generated: Seq::empty(),
            warnings: Seq::empty(),
        }
    }

    pub open spec fn plus(self, other: ContributionView) -> ContributionView {
        ContributionView {
            files: self.files + other.files,
            generated: self.generated + other.generated,
            warnings: self.warnings + other.warnings,
        }
    }

    pub open spec fn warned(self, warning: Seq<char>) -> ContributionView {
        ContributionView { warnings: self.warnings.push(warning), ..self }
    }
}

impl Default for Contribution {
    fn default() -> (out: Self)
        ensures
            out@ == ContributionView::empty(),
    {
        let out = Contribution { files: Vec::new(), generated: Vec::new(), warnings: Vec::new() };
        proof {
            assert(out@.files =~= ContributionView::empty().files);
            assert(out@.generated =~= ContributionView::empty().generated);
            assert(out@.warnings =~= ContributionView::empty().warnings);
        }
        out
    }
}

impl Contribution {
    /// Adds everything another contribution holds behind what this one does.
    pub fn absorb(&mut self, other: Contribution)
        ensures
            final(self)@ == old(self)@.plus(other@),
    {
        let ghost before = self@;
        let ghost more = other@;
        let mut other = other;
        self.files.append(&mut other.files);
        self.generated.append(&mut other.generated);
        self.warnings.append(&mut other.warnings);
        proof {
            assert(self@.files =~= before.files + more.files);
            assert(self@.generated =~= before.generated + more.generated);
            assert(self@.warnings =~= before.warnings + more.warnings);
        }
    }

    pub(crate) fn warn(&mut self, warning: String)
        ensures
            final(self)@ == old(self)@.warned(warning@),
    {
        let ghost before = self@;
        let ghost w = warning@;
        self.warnings.push(warning);
        assert(self@.warnings =~= before.warnings.push(w));
    }
}

// ---------------------------------------------------------------------------
// Inspection
// ---------------------------------------------------------------------------

/// The four calls that say what a repository looks like: its branch, its head, its working tree
/// and its size.
///
/// `--no-optional-locks` comes from the runner, and it is what makes "Tycho never
/// writes to a source" true rather than aspirational: plain `git status` rewrites
/// `.git/index` as a cache update.
pub open spec fn inspect_args() -> Seq<Seq<Seq<char>>> {
    seq![
        seq!["symbolic-ref"@, "--quiet"@, "--short"@, "HEAD"@],
        seq!["rev-parse"@, "HEAD"@],
        seq!["status"@, "--porcelain=v1"@, "-z"@, "--untracked-files=all"@],
        seq!["count-objects"@, "-v"@],
    ]
}

pub fn inspect_calls(repo: &AbsPath) -> (out: Vec<Call>)
    ensures
        process::call_views(out@) == seq![
            process::git_call(Some(repo@), inspect_args()[0], Timeout::Quick),
            process::git_call(Some(repo@), inspect_args()[1], Timeout::Quick),
            process::git_call(Some(repo@), inspect_args()[2], Timeout::Work),
            process::git_call(Some(repo@), inspect_args()[3], Timeout::Quick),
        ],
{
    let branch: Vec<&str> = vec!["symbolic-ref", "--quiet", "--short", "HEAD"];
    let sha: Vec<&str> = vec!["rev-parse", "HEAD"];
    let status: Vec<&str> = vec!["status", "--porcelain=v1", "-z", "--untracked-files=all"];
    let size: Vec<&str> = vec!["count-objects", "-v"];
    proof {
        assert(process::str_views(branch@) =~= inspect_args()[0]);
        assert(process::str_views(sha@) =~= inspect_args()[1]);
        assert(process::str_views(status@) =~= inspect_args()[2]);
        assert(process::str_views(size@) =~= inspect_args()[3]);
    }
    let out: Vec<Call> = vec![
        git(Some(repo), branch, Timeout::Quick),
        git(Some(repo), sha, Timeout::Quick),
        git(Some(repo), status, Timeout::Work),
        git(Some(repo), size, Timeout::Quick),
    ];
    assert(process::call_views(out@) =~= seq![
        process::git_call(Some(repo@), inspect_args()[0], Timeout::Quick),
        process::git_call(Some(repo@), inspect_args()[1], Timeout::Quick),
        process::git_call(Some(repo@), inspect_args()[2], Timeout::Work),
        process::git_call(Some(repo@), inspect_args()[3], Timeout::Quick),
    ]);
    out
}

/// Whether this is where `HEAD` points: nowhere without a commit, at a branch where git names
/// one this can hold, and at a commit otherwise.
pub open spec fn head_is(branch: Output, sha: Output, head: RepoHead) -> bool {
    let read = oid::read_oid(lines::trimmed(sha.shown()));
    let name = lines::trimmed(branch.shown());
    if !sha.success || read is Err {
        head is Unborn
    } else if branch.success && names::is_ref_path(name) {
        head matches RepoHead::Branch { name: n, sha: s } && n@ == name && s.0@ == read->Ok_0
    } else {
        head matches RepoHead::Detached { sha: s } && s.0@ == read->Ok_0
    }
}

fn head_of(branch: &Output, sha: &Output) -> (head: RepoHead)
    ensures
        head_is(*branch, *sha, head),
{
    if !sha.success {
        return RepoHead::Unborn;
    }
    let sha = match Oid::parse(&sha.trimmed()) {
        Ok(sha) => sha,
        Err(_) => return RepoHead::Unborn,
    };
    if !branch.success {
        return RepoHead::Detached { sha };
    }
    match BranchName::parse(&branch.trimmed()) {
        Ok(name) => RepoHead::Branch { name, sha },
        Err(e) => {
            proof {
                names::lemma_refused_path(lines::trimmed(branch.shown()), e);
            }
            RepoHead::Detached { sha }
        },
    }
}

/// Whether a status record reports an untracked path.
pub open spec fn is_untracked(record: Seq<u8>) -> bool {
    text::has_prefix(record, seq![63u8, 63])
}

/// How many of some records report a path of this kind.
pub open spec fn records_of(records: Seq<Seq<u8>>, untracked: bool) -> nat
    decreases records.len(),
{
    if records.len() == 0 {
        0
    } else {
        records_of(records.drop_last(), untracked) + if records.last().len() > 2 && is_untracked(
            records.last(),
        ) == untracked {
            1nat
        } else {
            0
        }
    }
}

/// The modified and the untracked paths a status reports.
fn count_records(raw: &[u8]) -> (out: (usize, usize))
    ensures
        out.0 == records_of(text::split(raw@, 0u8), false),
        out.1 == records_of(text::split(raw@, 0u8), true),
{
    let records = split_bytes(raw, 0);
    let ghost all = octets::byte_views(records@);
    let mut modified: usize = 0;
    let mut untracked: usize = 0;
    let marks: Vec<u8> = vec![63, 63];
    assert(marks@ =~= seq![63u8, 63]);
    let mut i: usize = 0;
    while i < records.len()
        invariant
            i <= records@.len(),
            marks@ == seq![63u8, 63],
            all == octets::byte_views(records@),
            modified + untracked <= i,
            modified == records_of(all.take(i as int), false),
            untracked == records_of(all.take(i as int), true),
        decreases records@.len() - i,
    {
        let record = &records[i];
        proof {
            assert(all.take(i + 1).drop_last() =~= all.take(i as int));
            assert(all.take(i + 1).last() == record@);
        }
        if record.len() > 2 {
            if starts_with(record, &marks) {
                untracked += 1;
            } else {
                modified += 1;
            }
        }
        i += 1;
    }
    assert(all.take(i as int) =~= all);
    (modified, untracked)
}

/// The kibibytes a line of `count-objects -v` reports, where it reports any that count.
pub open spec fn line_kib(line: Seq<char>) -> nat {
    let value = match text::without_prefix(line, "size: "@) {
        Some(v) => Some(v),
        None => text::without_prefix(line, "size-pack: "@),
    };
    match value {
        None => 0,
        Some(v) => match text::parsed_number(lines::trimmed(v), u64::MAX as nat) {
            Some(n) => n,
            None => 0,
        },
    }
}

pub open spec fn object_size(printed: Seq<Seq<char>>) -> nat
    decreases printed.len(),
{
    if printed.len() == 0 {
        0
    } else {
        object_size(printed.drop_last()) + line_kib(printed.last()) * 1024
    }
}

/// `count-objects -v` reports `size` and `size-pack` in kibibytes. `None` where the total is
/// more than can be counted.
pub fn object_bytes(out: &Output) -> (total: Option<u64>)
    ensures
        ({
            let size = if out.success {
                object_size(lines::lines_of(out.shown()))
            } else {
                0
            };
            match total {
                Some(n) => n == size,
                None => size > u64::MAX,
            }
        }),
{
    if !out.success {
        return Some(0);
    }
    let shown = out.text();
    let printed = lines::lines(&shown);
    let ghost all = text::views(printed@);
    let mut total: u64 = 0;
    let mut i: usize = 0;
    while i < printed.len()
        invariant
            i <= printed@.len(),
            out.success,
            all == text::views(printed@),
            all == lines::lines_of(out.shown()),
            total == object_size(all.take(i as int)),
        decreases printed@.len() - i,
    {
        let line = &printed[i];
        proof {
            assert(all.take(i + 1).drop_last() =~= all.take(i as int));
            assert(all.take(i + 1).last() == line@);
        }
        let value = match strip_prefix(line, "size: ") {
            Some(value) => Some(value),
            None => strip_prefix(line, "size-pack: "),
        };
        let kib: u64 = match value {
            Some(value) => {
                let digits = chars_of(&lines::trim(&value));
                match number(&digits, u64::MAX) {
                    Some(n) => n,
                    None => 0,
                }
            },
            None => 0,
        };
        assert(kib == line_kib(line@));
        let sum: u128 = total as u128 + kib as u128 * 1024;
        if sum > u64::MAX as u128 {
            proof {
                lemma_size_grows(all, i + 1);
            }
            return None;
        }
        total = sum as u64;
        i += 1;
    }
    assert(all.take(i as int) =~= all);
    Some(total)
}

proof fn lemma_size_grows(printed: Seq<Seq<char>>, n: int)
    requires
        0 <= n <= printed.len(),
    ensures
        object_size(printed.take(n)) <= object_size(printed),
    decreases printed.len() - n,
{
    if n < printed.len() {
        lemma_size_grows(printed, n + 1);
        assert(printed.take(n + 1).drop_last() =~= printed.take(n));
    } else {
        assert(printed.take(n) =~= printed);
    }
}

/// Reads a repository's head and working-tree state from what [`inspect_calls`] came to.
/// `None` where the repository is larger than can be counted. A repository with no commits is
/// `Unborn`, which is an answer rather than a failure.
pub fn inspect(branch: &Output, sha: &Output, status: &Output, size: &Output) -> (out: Option<
    Inspection,
>)
    ensures
        ({
            let bytes = if size.success {
                object_size(lines::lines_of(size.shown()))
            } else {
                0
            };
            match out {
                None => bytes > u64::MAX,
                Some(found) => {
                    &&& head_is(*branch, *sha, found.head)
                    &&& found.modified == records_of(text::split(status.stdout@, 0u8), false)
                    &&& found.untracked == records_of(text::split(status.stdout@, 0u8), true)
                    &&& found.objects == bytes
                },
            }
        }),
{
    let objects = match object_bytes(size) {
        Some(objects) => objects,
        None => return None,
    };
    let (modified, untracked) = count_records(&status.stdout);
    Some(Inspection { head: head_of(branch, sha), modified, untracked, objects })
}

// ---------------------------------------------------------------------------
// Checks before the fetch
// ---------------------------------------------------------------------------

/// The call that names a repository's object format.
pub fn object_format_call(source: &AbsPath) -> (out: Call)
    ensures
        out@ == process::git_call(
            Some(source@),
            seq!["rev-parse"@, "--show-object-format"@],
            Timeout::Quick,
        ),
{
    let args: Vec<&str> = vec!["rev-parse", "--show-object-format"];
    assert(process::str_views(args@) =~= seq!["rev-parse"@, "--show-object-format"@]);
    git(Some(source), args, Timeout::Quick)
}

/// What the object format says of a fetch.
pub open spec fn format_checked(
    out: Result<Output, RunError>,
    source: Path,
    got: Result<(), CaptureError>,
) -> bool {
    match out {
        Err(e) => got == Err::<(), CaptureError>(CaptureError::Run(e)),
        Ok(o) => if o.success && lines::trimmed(o.shown()) != "sha1"@ {
            got matches Err(CaptureError::ObjectFormat { repo, found }) && repo@ == plan::shown(
                source,
            ) && found@ == lines::trimmed(o.shown())
        } else {
            got is Ok
        },
    }
}

/// A SHA-256 repository cannot be fetched into a SHA-1 store, and the reverse is
/// equally true: a hard per-repo error rather than a warning.
pub fn check_object_format(out: Result<Output, RunError>, source: &AbsPath) -> (got: Result<
    (),
    CaptureError,
>)
    ensures
        format_checked(out, source@, got),
{
    match out {
        Err(e) => Err(CaptureError::Run(e)),
        Ok(out) => {
            let found = out.trimmed();
            if out.success && !same(&found, "sha1") {
                return Err(CaptureError::ObjectFormat { repo: source.text(), found });
            }
            Ok(())
        },
    }
}

/// Where a repository's ref lands in the store.
pub open spec fn destination(name: Seq<char>, key: Seq<char>) -> Option<Seq<char>> {
    match text::without_prefix(name, "refs/"@) {
        None => None,
        Some(rest) => {
            let full = "refs/tycho/"@ + key + "/"@ + rest;
            if names::is_refname(full) {
                Some(full)
            } else {
                None
            }
        },
    }
}

/// Where the first `n` refs of a list land.
pub open spec fn destinations(found: Seq<Seq<char>>, key: Seq<char>, n: int) -> Seq<Seq<char>>
    decreases n,
{
    if n <= 0 {
        Seq::empty()
    } else {
        match destination(found[n - 1], key) {
            Some(full) => destinations(found, key, n - 1).push(full),
            None => destinations(found, key, n - 1),
        }
    }
}

/// Some groups of colliding names as they are reported.
pub open spec fn collision_text(groups: Seq<Collision>) -> Seq<char> {
    text::join(
        groups.map_values(
            |g: Collision| text::join(crate::primitives::refs::ref_views(g.names@), " and "@),
        ),
        "; "@,
    )
}

/// Whether these are the groups of a repository's refs that collide once stored.
pub open spec fn collide(groups: Seq<Collision>, found: Seq<Seq<char>>, key: Seq<char>) -> bool {
    let dest = destinations(found, key, found.len() as int);
    crate::primitives::refs::are_collisions(
        groups,
        dest,
        dest.map_values(|s: Seq<char>| crate::primitives::refs::folded(s)),
    )
}

/// What the refs say of a fetch: some groups of them collide, or none do.
pub open spec fn collisions_checked(
    found: Seq<Seq<char>>,
    source: Path,
    key: Seq<char>,
    got: Result<(), CaptureError>,
) -> bool {
    exists|groups: Seq<Collision>| #[trigger]
        collide(groups, found, key) && if groups.len() == 0 {
            got is Ok
        } else {
            got matches Err(CaptureError::RefCollision { repo, detail }) && repo@ == plan::shown(
                source,
            ) && detail@ == collision_text(groups)
        }
}

fn group_texts(groups: &[Collision]) -> (out: Vec<String>)
    ensures
        text::views(out@) == groups@.map_values(
            |g: Collision| text::join(crate::primitives::refs::ref_views(g.names@), " and "@),
        ),
{
    let ghost each = |g: Collision|
        text::join(crate::primitives::refs::ref_views(g.names@), " and "@);
    let mut out: Vec<String> = Vec::new();
    let mut i: usize = 0;
    assert(text::views(out@) =~= groups@.map_values(each).take(0));
    while i < groups.len()
        invariant
            i <= groups@.len(),
            each == (|g: Collision|
                text::join(crate::primitives::refs::ref_views(g.names@), " and "@)),
            text::views(out@) == groups@.map_values(each).take(i as int),
        decreases groups@.len() - i,
    {
        let members = &groups[i].names;
        let mut parts: Vec<String> = Vec::new();
        let mut j: usize = 0;
        while j < members.len()
            invariant
                j <= members@.len(),
                parts@.len() == j,
                forall|k: int| 0 <= k < j ==> (#[trigger] parts@[k])@ == members@[k]@,
            decreases members@.len() - j,
        {
            parts.push(members[j].as_str().to_owned());
            j += 1;
        }
        assert(text::views(parts@) =~= crate::primitives::refs::ref_views(members@));
        let ghost before = text::views(out@);
        let line = join_text(&parts, " and ");
        let ghost l = line@;
        out.push(line);
        i += 1;
        assert(text::views(out@) =~= before.push(l));
        assert(text::views(out@) =~= groups@.map_values(each).take(i as int));
    }
    assert(groups@.map_values(each).take(i as int) =~= groups@.map_values(each));
    out
}

/// Loose refs are files, so on a case-insensitive volume a repository carrying both
/// `Feature` and `feature` maps two branches onto one path.
///
/// **Git never notices, on NTFS.** Every fetch exits 0 with
/// no message and the store keeps whichever of the two it wrote last, so the captured
/// branch *oscillates*. Each run silently drops the
/// other branch, and which one is in a given backup is decided by nothing.
///
/// So this runs before the fetch and is the only thing standing between a colliding
/// repository and a backup whose contents change identity between runs.
pub fn check_collisions(refs: &TextMap<Oid>, source: &AbsPath, key: &str) -> (got: Result<
    (),
    CaptureError,
>)
    ensures
        collisions_checked(crate::textmap::row_keys(refs.rows()), source@, key@, got),
{
    let ghost found = crate::textmap::row_keys(refs.rows());
    let mut dest: Vec<RefName> = Vec::new();
    let n: usize = refs.len();
    let mut i: usize = 0;
    assert(crate::primitives::refs::ref_views(dest@) =~= destinations(found, key@, 0));
    while i < n
        invariant
            i <= n == refs.rows().len(),
            found == crate::textmap::row_keys(refs.rows()),
            crate::primitives::refs::ref_views(dest@) == destinations(found, key@, i as int),
        decreases n - i,
    {
        let name = refs.key(i);
        assert(found[i as int] == name@);
        if let Some(rest) = strip_prefix(name, "refs/") {
            let full = cat4("refs/tycho/", key, "/", &rest);
            match RefName::parse(&full) {
                Ok(parsed) => {
                    let ghost before = crate::primitives::refs::ref_views(dest@);
                    dest.push(parsed);
                    assert(crate::primitives::refs::ref_views(dest@) =~= before.push(full@));
                },
                Err(e) => {
                    proof {
                        if text::has_prefix(full@, "refs/"@) {
                            names::lemma_refused_path(full@, e);
                        }
                        assert(!names::is_refname(full@));
                    }
                },
            }
        }
        i += 1;
    }
    let collisions = find_collisions(&dest);
    assert(collide(collisions@, found, key@));
    if collisions.len() == 0 {
        return Ok(());
    }
    let detail = join_text(&group_texts(&collisions), "; ");
    assert(detail@ == collision_text(collisions@));
    Err(CaptureError::RefCollision { repo: source.text(), detail })
}

/// What both checks say: the format's word first, then that of the listing, then that of the
/// refs it names.
pub open spec fn admitted(
    repo: RepoRoot,
    format: Result<Output, RunError>,
    listed: Result<Output, RunError>,
    got: Result<(), CaptureError>,
) -> bool {
    if !format_checked(format, repo.source@, Ok(())) {
        got is Err && format_checked(format, repo.source@, got)
    } else {
        match listed {
            Err(e) => got == Err::<(), CaptureError>(CaptureError::Repo(RepoError::Run(e))),
            Ok(o) => exists|read: Result<TextMap<Oid>, RepoError>| #[trigger]
                refs::refs_read(lines::lines_of(o.shown()), read) && match read {
                    Err(e) => got == Err::<(), CaptureError>(CaptureError::Repo(e)),
                    Ok(found) => collisions_checked(
                        crate::textmap::row_keys(found.rows()),
                        repo.source@,
                        repo.key@,
                        got,
                    ),
                },
        }
    }
}

/// The fetch of a repository's history into the store, allowed only once both checks have
/// passed: a SHA-256 repository and colliding refs fail the run rather than skipping the
/// repository, because a repository silently left out is indistinguishable from one that was
/// never there.
///
/// # Errors
///
/// If the object format differs, refs collide, or git failed.
pub fn fetch_call(
    store: &Repo,
    repo: &RepoRoot,
    format: Result<Output, RunError>,
    listed: Result<Output, RunError>,
) -> (out: Result<Call, CaptureError>)
    ensures
        match out {
            Ok(call) => {
                &&& admitted(*repo, format, listed, Ok(()))
                &&& call@ == process::git_call(
                    Some(store@),
                    seq![
                        "fetch"@,
                        "--no-tags"@,
                        "--quiet"@,
                        plan::shown(repo.source@),
                        "+"@ + "refs/*"@ + ":"@ + ("refs/tycho/"@ + repo.key@ + "/*"@),
                    ],
                    Timeout::Work,
                )
            },
            Err(e) => admitted(*repo, format, listed, Err(e)),
        },
{
    match check_object_format(format, &repo.source) {
        Err(e) => return Err(e),
        Ok(()) => {},
    }
    let listed = match listed {
        Err(e) => return Err(CaptureError::Repo(RepoError::Run(e))),
        Ok(listed) => listed,
    };
    let read = parse_ref_lines(&listed);
    assert(refs::refs_read(lines::lines_of(listed.shown()), read));
    let found = match read {
        Err(e) => return Err(CaptureError::Repo(e)),
        Ok(found) => found,
    };
    match check_collisions(&found, &repo.source, &repo.key) {
        Err(e) => return Err(e),
        Ok(()) => {},
    }
    let destination = cat3("refs/tycho/", &repo.key, "/*");
    let spec = Refspec::forced("refs/*", &destination);
    Ok(store.fetch_refs(&repo.source, &spec))
}

// ---------------------------------------------------------------------------
// Stashes
// ---------------------------------------------------------------------------

/// `refs/*` already carried `refs/stash`, which is the top entry. The rest of the
/// stack lives in a reflog that fetch never transfers, so each is fetched by object
/// id - which works over local transport even though nothing references them.
pub open spec fn stash_name(index: nat) -> Seq<char> {
    "stash@{"@ + text::decimal_text(index) + "}"@
}

/// The call that names the stash entry at an index.
pub fn stash_call(source: &AbsPath, index: usize) -> (out: Call)
    ensures
        out@ == process::git_call(
            Some(source@),
            seq!["rev-parse"@, "--verify"@, "--quiet"@, stash_name(index as nat)],
            Timeout::Quick,
        ),
{
    let entry = cat3("stash@{", &decimal(index as u64), "}");
    let args: Vec<&str> = vec!["rev-parse", "--verify", "--quiet", entry.as_str()];
    assert(process::str_views(args@) =~= seq![
        "rev-parse"@,
        "--verify"@,
        "--quiet"@,
        stash_name(index as nat),
    ]);
    git(Some(source), args, Timeout::Quick)
}

/// What to do once git has named a stash entry: fetch it, or stop because there is none.
///
/// Entries land under `stashes/` rather than `stash/`: `refs/tycho/<key>/stash` is
/// already a leaf ref, and git's ref store refuses to hold a leaf and a directory of
/// the same name.
pub fn stash_fetch(
    store: &Repo,
    repo: &RepoRoot,
    index: usize,
    named: Result<Output, RunError>,
) -> (out: Option<Call>)
    ensures
        match named {
            Err(_) => out is None,
            Ok(o) => match oid::read_oid(lines::trimmed(o.shown())) {
                Ok(bytes) if o.success => out matches Some(call) && call@ == process::git_call(
                    Some(store@),
                    seq![
                        "fetch"@,
                        "--no-tags"@,
                        "--quiet"@,
                        plan::shown(repo.source@),
                        "+"@ + oid::hex_text(bytes) + ":"@ + ("refs/tycho/"@ + repo.key@
                            + "/stashes/"@ + text::decimal_text(index as nat)),
                    ],
                    Timeout::Work,
                ),
                _ => out is None,
            },
        },
{
    let named = match named {
        Err(_) => return None,
        Ok(named) => named,
    };
    if !named.success {
        return None;
    }
    let oid = match Oid::parse(&named.trimmed()) {
        Err(_) => return None,
        Ok(oid) => oid,
    };
    let destination = cat4("refs/tycho/", &repo.key, "/stashes/", &decimal(index as u64));
    let spec = Refspec::forced(&oid.text(), &destination);
    Some(store.fetch_refs(&repo.source, &spec))
}

/// What is said of a stash entry whose fetch failed, behind which no further one is tried.
pub fn stash_warning(repo: &RepoRoot, index: usize, error: &RunError) -> (out: String)
    ensures
        out@ == repo.key@ + ": "@ + stash_name(index as nat) + ": "@ + error.message@,
{
    let entry = cat3("stash@{", &decimal(index as u64), "}");
    cat5(&repo.key, ": ", &entry, ": ", &error.message)
}

// ---------------------------------------------------------------------------
// Putting a contribution together
// ---------------------------------------------------------------------------

/// Where a repository's provenance is stored.
pub open spec fn repo_txt_raw(key: Seq<char>) -> Seq<u8> {
    encode_utf8(".tycho/repos/"@ + key + "/REPO.txt"@)
}

fn tree_path(shown: &str) -> (out: Result<TreePath, CaptureError>)
    ensures
        match out {
            Ok(p) => path::is_tree_path(encode_utf8(shown@)) && p@ == path::components(
                encode_utf8(shown@),
            ),
            Err(e) => !path::is_tree_path(encode_utf8(shown@)) && (e matches CaptureError::NotStorable {
                path: p,
                reason,
            } && p@ == shown@ && reason@ == path::tree_fault(encode_utf8(shown@))),
        },
{
    match TreePath::parse(shown.as_bytes()) {
        Ok(p) => Ok(p),
        Err(error) => {
            proof {
                path::lemma_tree_fault(encode_utf8(shown@), error);
            }
            Err(CaptureError::NotStorable { path: shown.to_owned(), reason: error.text() })
        },
    }
}

/// Everything one repository contributes, once its history is in the store: its stashes, its
/// overlay, and its provenance, in that order.
///
/// # Errors
///
/// If the repository's key is none the tree can hold.
pub fn capture(
    repo: &RepoRoot,
    stashes: Contribution,
    overlay: Contribution,
    provenance: String,
) -> (out: Result<Contribution, CaptureError>)
    ensures
        match out {
            Ok(c) => {
                &&& path::is_tree_path(repo_txt_raw(repo.key@))
                &&& c@.files == stashes@.files + overlay@.files
                &&& c@.generated == (stashes@.generated + overlay@.generated).push(
                    (path::components(repo_txt_raw(repo.key@)), encode_utf8(provenance@)),
                )
                &&& c@.warnings == stashes@.warnings + overlay@.warnings
            },
            Err(e) => {
                &&& !path::is_tree_path(repo_txt_raw(repo.key@))
                &&& e matches CaptureError::NotStorable { path: p, reason }
                &&& p@ == ".tycho/repos/"@ + repo.key@ + "/REPO.txt"@
                &&& reason@ == path::tree_fault(repo_txt_raw(repo.key@))
            },
        },
{
    let mut contribution = stashes;
    contribution.absorb(overlay);
    let shown = cat3(".tycho/repos/", &repo.key, "/REPO.txt");
    let stored = match tree_path(&shown) {
        Ok(stored) => stored,
        Err(e) => return Err(e),
    };
    let ghost before = contribution@;
    let content = octets::copy_bytes(provenance.as_str().as_bytes());
    let ghost row = (stored@, content@);
    contribution.generated.push((stored, content));
    assert(contribution@.generated =~= before.generated.push(row));
    Ok(contribution)
}

/// The sources of the repositories among some entries.
pub open spec fn repo_sources(entries: Seq<plan::EntryView>) -> Seq<Path> {
    plan::repos_in(entries).map_values(|e: plan::EntryView| e.source())
}

pub open spec fn nested_in(roots: Seq<plan::RootPlan>) -> Seq<Path>
    decreases roots.len(),
{
    if roots.len() == 0 {
        Seq::empty()
    } else {
        nested_in(roots.drop_last()) + repo_sources(plan::entry_views(roots.last().entries@))
    }
}

/// Every path the plan found as a repository root, for the overlay expansion to stop
/// at.
#[must_use]
pub fn nested_roots(plan: &Plan) -> (out: Vec<AbsPath>)
    ensures
        crate::config::rules::path_views(out@) == nested_in(plan.roots@),
{
    let mut out: Vec<AbsPath> = Vec::new();
    let mut i: usize = 0;
    assert(crate::config::rules::path_views(out@) =~= nested_in(plan.roots@.take(0)));
    while i < plan.roots.len()
        invariant
            i <= plan.roots@.len(),
            crate::config::rules::path_views(out@) == nested_in(plan.roots@.take(i as int)),
        decreases plan.roots@.len() - i,
    {
        let repos = plan.roots[i].repos();
        let ghost views = plan::repo_views(repos@);
        let ghost found = repo_sources(plan::entry_views(plan.roots@[i as int].entries@));
        let ghost before = crate::config::rules::path_views(out@);
        let mut j: usize = 0;
        assert(crate::config::rules::path_views(out@) =~= before + found.take(0));
        while j < repos.len()
            invariant
                j <= repos@.len(),
                views == plan::repo_views(repos@),
                views == plan::repos_in(plan::entry_views(plan.roots@[i as int].entries@)),
                found == views.map_values(|e: plan::EntryView| e.source()),
                crate::config::rules::path_views(out@) == before + found.take(j as int),
            decreases repos@.len() - j,
        {
            let source = repos[j].source.clone();
            let ghost s = source@;
            let ghost prior = crate::config::rules::path_views(out@);
            out.push(source);
            j += 1;
            proof {
                assert(views[j - 1] == (plan::EntryView::Repo {
                    source: repos@[j - 1].source@,
                    key: repos@[j - 1].key@,
                }));
                assert(found[j - 1] == s);
                assert(crate::config::rules::path_views(out@) =~= prior.push(s));
                assert(found.take(j as int) =~= found.take(j - 1).push(s));
                assert(crate::config::rules::path_views(out@) =~= before + found.take(j as int));
            }
        }
        proof {
            assert(found.take(j as int) =~= found);
            assert(plan.roots@.take(i + 1).drop_last() =~= plan.roots@.take(i as int));
        }
        i += 1;
    }
    assert(plan.roots@.take(i as int) =~= plan.roots@);
    out
}

// ---------------------------------------------------------------------------
// Laws
// ---------------------------------------------------------------------------

/// A fetch that the check lets through lands no two refs on one path, however they are cased
/// or composed.
pub proof fn admitted_refs_never_land_on_one_path(
    found: Seq<Seq<char>>,
    source: Path,
    key: Seq<char>,
    i: int,
    j: int,
)
    requires
        collisions_checked(found, source, key, Ok(())),
        0 <= i < j < destinations(found, key, found.len() as int).len(),
    ensures
        ({
            let dest = destinations(found, key, found.len() as int);
            crate::primitives::refs::folded(dest[i]) != crate::primitives::refs::folded(dest[j])
        }),
{
    let dest = destinations(found, key, found.len() as int);
    let folds = dest.map_values(|s: Seq<char>| crate::primitives::refs::folded(s));
    let groups = choose|groups: Seq<Collision>|
        #[trigger] collide(groups, found, key) && groups.len() == 0;
    if folds[i] == folds[j] {
        crate::primitives::refs::alike_folds_collide(groups, dest, folds, i, j);
    }
}

/// A repository's ref lands under its key by the very name it has there, and nothing that is no ref
/// lands at all.
pub proof fn a_ref_keeps_its_name_under_its_key(rest: Seq<char>, key: Seq<char>, other: Seq<char>)
    ensures
        destination("refs/"@ + rest, key) matches Some(full) ==> full == "refs/tycho/"@ + key + "/"@
            + rest,
        names::is_refname("refs/tycho/"@ + key + "/"@ + rest) == destination(
            "refs/"@ + rest,
            key,
        ) is Some,
        !"refs/"@.is_prefix_of(other) ==> destination(other, key) is None,
{
    let name = "refs/"@ + rest;
    let n = "refs/"@.len() as int;
    assert(name.take(n) =~= "refs/"@);
    assert(name.skip(n) =~= rest);
    if text::has_prefix(other, "refs/"@) {
        assert("refs/"@ =~= other.subrange(0, n));
    }
}

/// Two different refs of a repository never land at one name.
pub proof fn two_refs_land_apart(a: Seq<char>, b: Seq<char>, key: Seq<char>)
    requires
        destination(a, key) is Some,
        destination(a, key) == destination(b, key),
    ensures
        a == b,
{
    let n = "refs/"@.len() as int;
    let head = "refs/tycho/"@ + key + "/"@;
    let x = a.skip(n);
    let y = b.skip(n);
    assert((head + x).skip(head.len() as int) =~= x);
    assert((head + y).skip(head.len() as int) =~= y);
    assert(a =~= a.take(n) + x);
    assert(b =~= b.take(n) + y);
}

/// A repository has no head without a commit; it is on a branch where git names one, and detached
/// where git names none. Whichever it is on, the commit is the one git printed.
pub proof fn a_head_is_where_git_says(branch: Output, sha: Output, head: RepoHead, id: Seq<u8>)
    requires
        head_is(branch, sha, head),
        oid::read_oid(lines::trimmed(sha.shown())) == Ok::<Seq<u8>, oid::OidError>(id),
    ensures
        (head is Unborn) == !sha.success,
        head matches RepoHead::Branch { name, sha: at } ==> at.0@ == id && name@ == lines::trimmed(
            branch.shown(),
        ) && branch.success,
        head matches RepoHead::Detached { sha: at } ==> at.0@ == id && !(branch.success
            && names::is_ref_path(lines::trimmed(branch.shown()))),
{
}

/// Every record of a working tree's state is counted once: as untracked where it begins with two
/// question marks, and else as modified.
pub proof fn every_record_is_counted_once(records: Seq<Seq<u8>>)
    ensures
        records_of(records, true) == records.filter(
            |r: Seq<u8>| r.len() > 2 && r[0] == 63 && r[1] == 63,
        ).len(),
        records_of(records, true) + records_of(records, false) == records.filter(
            |r: Seq<u8>| r.len() > 2,
        ).len(),
    decreases records.len(),
{
    reveal(Seq::filter);
    if records.len() > 0 {
        every_record_is_counted_once(records.drop_last());
        let last = records.last();
        if last.len() > 2 {
            assert((last[0] == 63 && last[1] == 63) == is_untracked(last)) by {
                let marks = seq![63u8, 63];
                assert(last.take(2)[0] == last[0] && last.take(2)[1] == last[1]);
                assert(marks[0] == 63 && marks[1] == 63);
                if last[0] == 63 && last[1] == 63 {
                    assert(last.take(2) =~= marks);
                }
            }
        }
    }
}

/// The size git reports is the sum of its loose and its packed objects, in kibibytes; no other line
/// of its report adds anything.
pub proof fn sizes_are_loose_and_packed(n: nat, line: Seq<char>, a: Seq<Seq<char>>, b: Seq<Seq<char>>)
    requires
        n <= u64::MAX,
    ensures
        line_kib("size: "@ + text::decimal_text(n)) == n,
        line_kib("size-pack: "@ + text::decimal_text(n)) == n,
        !"size: "@.is_prefix_of(line) && !"size-pack: "@.is_prefix_of(line) ==> line_kib(line) == 0,
        object_size(a + b) == object_size(a) + object_size(b),
        object_size(seq![line]) == 1024 * line_kib(line),
{
    let digits = text::decimal_text(n);
    text::lemma_decimal_digits(n);
    lines::lemma_untrimmed(digits);
    text::decimals_round_trip(n, u64::MAX as nat);
    let loose = "size: "@ + digits;
    let packed = "size-pack: "@ + digits;
    reveal_strlit("size: ");
    reveal_strlit("size-pack: ");
    assert(loose.take(6) =~= "size: "@);
    assert(loose.skip(6) =~= digits);
    assert(packed.take(11) =~= "size-pack: "@);
    assert(packed.skip(11) =~= digits);
    assert(packed.take(6)[4] != "size: "@[4]);
    if text::has_prefix(line, "size: "@) {
        assert("size: "@ =~= line.subrange(0, 6));
    }
    if text::has_prefix(line, "size-pack: "@) {
        assert("size-pack: "@ =~= line.subrange(0, 11));
    }
    lemma_sizes_sum(a, b);
    assert(seq![line].drop_last() =~= Seq::<Seq<char>>::empty());
    assert(object_size(seq![line].drop_last()) == 0);
}

proof fn lemma_sizes_sum(a: Seq<Seq<char>>, b: Seq<Seq<char>>)
    ensures
        object_size(a + b) == object_size(a) + object_size(b),
    decreases b.len(),
{
    if b.len() == 0 {
        assert(a + b =~= a);
    } else {
        lemma_sizes_sum(a, b.drop_last());
        assert((a + b).drop_last() =~= a + b.drop_last());
    }
}

/// A fetch is refused for its format exactly where git could be run and names another than `sha1`.
pub proof fn only_another_format_is_refused(
    out: Result<Output, RunError>,
    source: Path,
    got: Result<(), CaptureError>,
)
    requires
        format_checked(out, source, got),
    ensures
        got is Ok == (out matches Ok(o) && (!o.success || lines::trimmed(o.shown()) == "sha1"@)),
        (got matches Err(e) && e is ObjectFormat) == (out matches Ok(o) && o.success
            && lines::trimmed(o.shown()) != "sha1"@),
{
}

/// The repositories an overlay steers clear of are exactly those the plan found, of whichever root.
pub proof fn nested_are_the_repositories_found(roots: Seq<plan::RootPlan>, p: Path)
    ensures
        nested_in(roots).contains(p) == exists|i: int, k: int|
            0 <= i < roots.len() && 0 <= k < roots[i].entries@.len() && (
            #[trigger] roots[i].entries@[k] matches plan::Entry::Repo(r) && r.source@ == p),
    decreases roots.len(),
{
    if roots.len() > 0 {
        let above = roots.drop_last();
        let last = roots.last();
        let entries = plan::entry_views(last.entries@);
        nested_are_the_repositories_found(above, p);
        lemma_repo_sources(entries, p);
        let a = nested_in(above);
        let b = repo_sources(entries);
        if nested_in(roots).contains(p) {
            let at = choose|at: int| 0 <= at < (a + b).len() && (a + b)[at] == p;
            if at < a.len() {
                assert(a.contains(p)) by {
                    assert(a[at] == p);
                }
                let (i, k) = choose|i: int, k: int|
                    0 <= i < above.len() && 0 <= k < above[i].entries@.len() && (
                    #[trigger] above[i].entries@[k] matches plan::Entry::Repo(r) && r.source@ == p);
                assert(roots[i].entries@[k] == above[i].entries@[k]);
            } else {
                assert(b.contains(p)) by {
                    assert(b[at - a.len()] == p);
                }
                let k = choose|k: int|
                    0 <= k < entries.len() && (#[trigger] entries[k]) is Repo
                        && entries[k].source() == p;
                let i = roots.len() - 1;
                assert(entries[k] == last.entries@[k]@);
                assert(roots[i].entries@[k] is Repo);
            }
        }
        if exists|i: int, k: int|
            0 <= i < roots.len() && 0 <= k < roots[i].entries@.len() && (
            #[trigger] roots[i].entries@[k] matches plan::Entry::Repo(r) && r.source@ == p) {
            let (i, k) = choose|i: int, k: int|
                0 <= i < roots.len() && 0 <= k < roots[i].entries@.len() && (
                #[trigger] roots[i].entries@[k] matches plan::Entry::Repo(r) && r.source@ == p);
            if i < above.len() {
                assert(above[i].entries@[k] == roots[i].entries@[k]);
                assert(a.contains(p));
                let at = choose|at: int| 0 <= at < a.len() && a[at] == p;
                assert((a + b)[at] == p);
            } else {
                assert(entries[k] == last.entries@[k]@);
                assert(entries[k] is Repo && entries[k].source() == p);
                assert(b.contains(p));
                let at = choose|at: int| 0 <= at < b.len() && b[at] == p;
                assert((a + b)[a.len() + at] == p);
            }
        }
    }
}

proof fn lemma_repo_sources(entries: Seq<plan::EntryView>, p: Path)
    ensures
        repo_sources(entries).contains(p) == exists|k: int|
            0 <= k < entries.len() && (#[trigger] entries[k]) is Repo && entries[k].source() == p,
{
    let keeps = |e: plan::EntryView| e is Repo;
    let repos = plan::repos_in(entries);
    assert(repos == entries.filter(keeps));
    if repo_sources(entries).contains(p) {
        let at = choose|at: int| 0 <= at < repos.len() && repo_sources(entries)[at] == p;
        assert(repos[at].source() == p);
        assert(repos.contains(repos[at]));
        entries.lemma_filter_pred(keeps, at);
        entries.lemma_filter_contains_rev(keeps, repos[at]);
        let k = choose|k: int| 0 <= k < entries.len() && entries[k] == repos[at];
        assert(entries[k] is Repo);
    }
    if exists|k: int|
        0 <= k < entries.len() && (#[trigger] entries[k]) is Repo && entries[k].source() == p {
        let k = choose|k: int|
            0 <= k < entries.len() && (#[trigger] entries[k]) is Repo && entries[k].source() == p;
        entries.lemma_filter_contains(keeps, k);
        let at = choose|at: int| 0 <= at < repos.len() && repos[at] == entries[k];
        assert(repo_sources(entries)[at] == p);
    }
}

/// A working tree's state is clean where nothing was changed and nothing is new, and else it tells
/// of each that is not nothing.
pub proof fn a_state_tells_of_what_is_not_nothing(modified: nat, untracked: nat)
    ensures
        state_text(0, 0) == "clean"@,
        modified > 0 ==> text::has_prefix(
            state_text(modified, untracked),
            text::decimal_text(modified) + " modified"@,
        ),
        untracked > 0 ==> text::has_suffix(
            state_text(modified, untracked),
            text::decimal_text(untracked) + " untracked"@,
        ),
        modified > 0 && untracked == 0 ==> state_text(modified, untracked) == text::decimal_text(
            modified,
        ) + " modified"@,
        modified == 0 && untracked > 0 ==> state_text(modified, untracked) == text::decimal_text(
            untracked,
        ) + " untracked"@,
{
    let m = text::decimal_text(modified) + " modified"@;
    let u = text::decimal_text(untracked) + " untracked"@;
    reveal_strlit(" modified");
    reveal_strlit(" modified, ");
    reveal_strlit(", ");
    assert(" modified, "@ =~= " modified"@ + ", "@);
    let both = text::decimal_text(modified) + " modified, "@ + text::decimal_text(untracked)
        + " untracked"@;
    assert(both =~= m + ", "@ + u);
    assert(both.take(m.len() as int) =~= m);
    assert(both.skip(both.len() - u.len()) =~= u);
    assert(m.take(m.len() as int) =~= m);
    assert(u.skip(0) =~= u);
}

/// What two parts contribute is all of both, the first before the second.
pub proof fn contributions_add_up(a: ContributionView, b: ContributionView, c: ContributionView)
    ensures
        a.plus(b).files.len() == a.files.len() + b.files.len(),
        a.files.is_prefix_of(a.plus(b).files) && b.files.is_suffix_of(a.plus(b).files),
        a.generated.is_prefix_of(a.plus(b).generated) && b.generated.is_suffix_of(
            a.plus(b).generated,
        ),
        a.warnings.is_prefix_of(a.plus(b).warnings) && b.warnings.is_suffix_of(a.plus(b).warnings),
        a.plus(b).generated.len() == a.generated.len() + b.generated.len(),
        a.plus(b).warnings.len() == a.warnings.len() + b.warnings.len(),
{
    assert(a.files =~= a.plus(b).files.subrange(0, a.files.len() as int));
    assert(b.files =~= a.plus(b).files.subrange(
        a.files.len() as int,
        a.plus(b).files.len() as int,
    ));
    assert(a.generated =~= a.plus(b).generated.subrange(0, a.generated.len() as int));
    assert(b.generated =~= a.plus(b).generated.subrange(
        a.generated.len() as int,
        a.plus(b).generated.len() as int,
    ));
    assert(a.warnings =~= a.plus(b).warnings.subrange(0, a.warnings.len() as int));
    assert(b.warnings =~= a.plus(b).warnings.subrange(
        a.warnings.len() as int,
        a.plus(b).warnings.len() as int,
    ));
}

/// A repository is admitted only where git could be asked of its format, names none but `sha1`, and
/// could list its refs.
pub proof fn an_admitted_repository_could_be_read(
    repo: RepoRoot,
    format: Result<Output, RunError>,
    listed: Result<Output, RunError>,
    got: Result<(), CaptureError>,
)
    requires
        admitted(repo, format, listed, got),
        got is Ok,
    ensures
        format matches Ok(o) && (!o.success || lines::trimmed(o.shown()) == "sha1"@),
        listed is Ok,
        listed matches Ok(o) ==> forall|i: int|
            0 <= i < lines::lines_of(o.shown()).len() ==> refs::line_is_good(
                #[trigger] lines::lines_of(o.shown())[i],
            ),
{
    only_another_format_is_refused(format, repo.source@, Ok(()));
    if let Ok(o) = listed {
        let printed = lines::lines_of(o.shown());
        let read = choose|read: Result<TextMap<Oid>, RepoError>| #[trigger]
            refs::refs_read(printed, read) && match read {
                Err(e) => got == Err::<(), CaptureError>(CaptureError::Repo(e)),
                Ok(found) => collisions_checked(
                    crate::textmap::row_keys(found.rows()),
                    repo.source@,
                    repo.key@,
                    got,
                ),
            };
        assert(read is Ok);
    }
}

/// Every ref that can land is looked at for a collision: none is left out, and nothing else is
/// looked at.
pub proof fn every_ref_is_looked_at(found: Seq<Seq<char>>, key: Seq<char>, n: int, full: Seq<char>)
    requires
        0 <= n <= found.len(),
    ensures
        destinations(found, key, n).contains(full) <==> exists|i: int|
            0 <= i < n && destination(#[trigger] found[i], key) == Some(full),
        destinations(found, key, n).len() == found.take(n).filter(
            |name: Seq<char>| destination(name, key) is Some,
        ).len(),
    decreases n,
{
    reveal(Seq::filter);
    if n > 0 {
        every_ref_is_looked_at(found, key, n - 1, full);
        assert(found.take(n).drop_last() =~= found.take(n - 1));
        let before = destinations(found, key, n - 1);
        let after = destinations(found, key, n);
        if before.contains(full) {
            let k = choose|k: int| 0 <= k < before.len() && before[k] == full;
            assert(after[k] == full);
        }
        if after.contains(full) {
            let k = choose|k: int| 0 <= k < after.len() && after[k] == full;
            if k < before.len() {
                assert(before[k] == full);
            } else {
                assert(destination(found[n - 1], key) == Some(full));
            }
        }
        if destination(found[n - 1], key) == Some(full) {
            assert(after[after.len() - 1] == full);
        }
    }
}

} // verus!
