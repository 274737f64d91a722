//! Reading back what was stored.

use crate::git::repo::{Repo, RepoError};
use crate::octets;
use crate::octets::{copy_bytes, lossy_text, split_bytes};
use crate::plan;
use crate::primitives::oid::Oid;
use crate::primitives::path;
use crate::primitives::path::{AbsPath, TreePath, SLASH};
use crate::config::rules::Path;
use crate::process;
use crate::process::{git, Call, Output, RunError, Timeout};
use crate::text;
use crate::text::cat2;
use vstd::prelude::*;

verus! {

#[derive(Clone, Copy, Debug, PartialEq, Eq, Structural)]
pub enum ChangeStatus {
    Added,
    Modified,
    Deleted,
    TypeChanged,
}

#[derive(Debug, PartialEq, Eq)]
pub struct Change {
    pub status: ChangeStatus,
    pub path: TreePath,
}

pub struct ChangeView {
    pub status: ChangeStatus,
    pub path: Path,
}

impl View for Change {
    type V = ChangeView;

    open spec fn view(&self) -> ChangeView {
        ChangeView { status: self.status, path: self.path@ }
    }
}

pub open spec fn change_views(changes: Seq<Change>) -> Seq<ChangeView> {
    changes.map_values(|c: Change| c@)
}

/// The pieces that are not empty, in order.
pub open spec fn filled_pieces(pieces: Seq<Seq<u8>>) -> Seq<Seq<u8>> {
    pieces.filter(|p: Seq<u8>| p.len() > 0)
}

/// The status a record's first letter stands for.
pub open spec fn status_of(record: Seq<u8>) -> Option<ChangeStatus> {
    if record.len() == 0 {
        None
    } else if record[0] == 65 {
        Some(ChangeStatus::Added)
    } else if record[0] == 77 {
        Some(ChangeStatus::Modified)
    } else if record[0] == 68 {
        Some(ChangeStatus::Deleted)
    } else if record[0] == 84 {
        Some(ChangeStatus::TypeChanged)
    } else {
        None
    }
}

/// What the records from `at` on say: one change for each status and path, or what is wrong
/// with the first pair that says none.
pub open spec fn changes_from(fields: Seq<Seq<u8>>, at: int) -> Result<Seq<ChangeView>, Seq<char>>
    decreases fields.len() - at,
{
    if at >= fields.len() {
        Ok(Seq::empty())
    } else if at + 1 >= fields.len() {
        Err("diff-tree ended with a status and no path"@)
    } else {
        match status_of(fields[at]) {
            None => Err("diff-tree status "@ + octets::lossy(fields[at])),
            Some(status) => if !path::is_tree_path(fields[at + 1]) {
                Err(path::tree_fault(fields[at + 1]))
            } else {
                match changes_from(fields, at + 2) {
                    Err(e) => Err(e),
                    Ok(more) => Ok(
                        seq![ChangeView { status, path: path::components(fields[at + 1]) }] + more,
                    ),
                }
            },
        }
    }
}

/// The pieces between NUL bytes that are not empty.
pub fn nul_fields(raw: &[u8]) -> (out: Vec<Vec<u8>>)
    ensures
        octets::byte_views(out@) == filled_pieces(text::split(raw@, 0u8)),
{
    let pieces = split_bytes(raw, 0);
    let ghost all = octets::byte_views(pieces@);
    let ghost keep = |p: Seq<u8>| p.len() > 0;
    let mut out: Vec<Vec<u8>> = Vec::new();
    let mut i: usize = 0;
    proof {
        assert(all.take(0) =~= Seq::<Seq<u8>>::empty());
        reveal(Seq::filter);
        assert(octets::byte_views(out@) =~= all.take(0).filter(keep));
    }
    while i < pieces.len()
        invariant
            i <= pieces@.len(),
            all == octets::byte_views(pieces@),
            keep == (|p: Seq<u8>| p.len() > 0),
            octets::byte_views(out@) == all.take(i as int).filter(keep),
        decreases pieces@.len() - i,
    {
        let ghost before = octets::byte_views(out@);
        proof {
            reveal(Seq::filter);
            assert(all.take(i + 1).drop_last() =~= all.take(i as int));
            assert(all.take(i + 1).last() == pieces@[i as int]@);
        }
        if pieces[i].len() > 0 {
            out.push(copy_bytes(&pieces[i]));
            assert(octets::byte_views(out@) =~= before.push(pieces@[i as int]@));
        }
        i += 1;
    }
    assert(all.take(i as int) =~= all);
    out
}

/// The changes a comparison of trees printed.
fn parse_changes(out: &Output) -> (got: Result<Vec<Change>, RepoError>)
    ensures
        match changes_from(filled_pieces(text::split(out.stdout@, 0u8)), 0) {
            Ok(changes) => got matches Ok(list) && change_views(list@) == changes,
            Err(e) => got matches Err(RepoError::Unparsable(s)) && s@ == e,
        },
{
    // -z alternates a status record and a path record, both NUL-terminated.
    let fields = nul_fields(&out.stdout);
    let ghost all = octets::byte_views(fields@);
    let ghost goal = changes_from(all, 0);
    let mut changes: Vec<Change> = Vec::new();
    let mut at: usize = 0;
    proof {
        if let Ok(more) = goal {
            assert(change_views(changes@) + more =~= more);
        }
    }
    let n: usize = fields.len();
    while at < n
        invariant
            at <= n == fields@.len(),
            all == octets::byte_views(fields@),
            all == filled_pieces(text::split(out.stdout@, 0u8)),
            goal == changes_from(all, 0),
            match changes_from(all, at as int) {
                Ok(more) => goal == Ok::<Seq<ChangeView>, Seq<char>>(
                    change_views(changes@) + more,
                ),
                Err(e) => goal == Err::<Seq<ChangeView>, Seq<char>>(e),
            },
        decreases n - at,
    {
        let status = &fields[at];
        assert(all[at as int] == status@);
        if at + 1 >= n {
            return Err(
                RepoError::Unparsable("diff-tree ended with a status and no path".to_owned()),
            );
        }
        let kind = if status.len() == 0 {
            None
        } else {
            match status[0] {
                65 => Some(ChangeStatus::Added),
                77 => Some(ChangeStatus::Modified),
                68 => Some(ChangeStatus::Deleted),
                84 => Some(ChangeStatus::TypeChanged),
                _ => None,
            }
        };
        let kind = match kind {
            Some(kind) => kind,
            None => {
                return Err(
                    RepoError::Unparsable(cat2("diff-tree status ", &lossy_text(status))),
                );
            },
        };
        let raw = &fields[at + 1];
        assert(all[at + 1] == raw@);
        let path = match TreePath::parse(raw) {
            Ok(path) => path,
            Err(e) => {
                proof {
                    path::lemma_tree_fault(raw@, e);
                }
                return Err(RepoError::Unparsable(e.text()));
            },
        };
        let change = Change { status: kind, path };
        let ghost before = change_views(changes@);
        let ghost view = change@;
        changes.push(change);
        proof {
            assert(change_views(changes@) =~= before.push(view));
            if let Ok(more) = changes_from(all, at + 2) {
                assert(before + (seq![view] + more) =~= change_views(changes@) + more);
            }
        }
        at = at + 2;
    }
    proof {
        assert(change_views(changes@) + Seq::<ChangeView>::empty() =~= change_views(changes@));
    }
    Ok(changes)
}

impl Repo {
    /// The call that prints the bytes of a blob. Buffered in memory, which is right for one file
    /// and is why restore extracts whole trees with `archive` instead.
    pub fn cat_file_blob(&self, oid: Oid) -> (out: Call)
        ensures
            out@ == process::git_call(
                Some(self@),
                seq!["cat-file"@, "blob"@, oid.hex()],
                Timeout::Work,
            ),
    {
        let shown = oid.text();
        let args: Vec<&str> = vec!["cat-file", "blob", shown.as_str()];
        assert(process::str_views(args@) =~= seq!["cat-file"@, "blob"@, oid.hex()]);
        git(Some(self.path()), args, Timeout::Work)
    }

    /// The call that writes a tar of `commit`, optionally scoped to `paths`.
    ///
    /// `--output` rather than stdout, because the runner buffers stdout and a
    /// restore can be gigabytes.
    pub fn archive(&self, commit: Oid, paths: &[TreePath], out: &AbsPath) -> (call: Call)
        ensures
            call@ == process::git_call(
                Some(self@),
                seq![
                    "archive"@,
                    "--format=tar"@,
                    "--output="@ + plan::shown(out@),
                    commit.hex(),
                ] + paths@.map_values(
                    |p: TreePath| octets::lossy(text::join(p@, seq![SLASH])),
                ),
                Timeout::Work,
            ),
    {
        let output = cat2("--output=", &out.text());
        let shown = commit.text();
        let args: Vec<&str> = vec!["archive", "--format=tar", output.as_str(), shown.as_str()];
        let ghost head = seq![
            "archive"@,
            "--format=tar"@,
            "--output="@ + plan::shown(out@),
            commit.hex(),
        ];
        assert(process::str_views(args@) =~= head);
        let mut call = git(Some(self.path()), args, Timeout::Work);
        let ghost texts = paths@.map_values(
            |p: TreePath| octets::lossy(text::join(p@, seq![SLASH])),
        );
        let mut i: usize = 0;
        assert(call@.args =~= head + texts.take(0));
        while i < paths.len()
            invariant
                i <= paths@.len(),
                texts == paths@.map_values(
                    |p: TreePath| octets::lossy(text::join(p@, seq![SLASH])),
                ),
                call@ == process::git_call(
                    Some(self@),
                    head + texts.take(i as int),
                    Timeout::Work,
                ),
            decreases paths@.len() - i,
        {
            call = call.arg(&paths[i].text());
            i += 1;
            assert(call@.args =~= head + texts.take(i as int));
        }
        assert(texts.take(i as int) =~= texts);
        call
    }

    /// The call that says what changed between two trees, one entry per file.
    ///
    /// `-r` is required or the output is directory-level and the per-file list is
    /// wrong. On a first run `from` is the computed empty tree, so everything lists as added.
    pub fn diff_tree_call(&self, from: Oid, to: Oid) -> (out: Call)
        ensures
            out@ == process::git_call(
                Some(self@),
                seq![
                    "diff-tree"@,
                    "-r"@,
                    "-z"@,
                    "--no-commit-id"@,
                    "--name-status"@,
                    from.hex(),
                    to.hex(),
                ],
                Timeout::Work,
            ),
    {
        let a = from.text();
        let b = to.text();
        let args: Vec<&str> = vec![
            "diff-tree",
            "-r",
            "-z",
            "--no-commit-id",
            "--name-status",
            a.as_str(),
            b.as_str(),
        ];
        assert(process::str_views(args@) =~= seq![
            "diff-tree"@,
            "-r"@,
            "-z"@,
            "--no-commit-id"@,
            "--name-status"@,
            from.hex(),
            to.hex(),
        ]);
        git(Some(self.path()), args, Timeout::Work)
    }

    /// The changes [`Repo::diff_tree_call`] printed.
    ///
    /// # Errors
    ///
    /// If git failed or printed a record this cannot parse.
    pub fn diff_tree(out: Result<Output, RunError>) -> (got: Result<Vec<Change>, RepoError>)
        ensures
            match out {
                Err(e) => got == Err::<Vec<Change>, RepoError>(RepoError::Run(e)),
                Ok(o) => match changes_from(filled_pieces(text::split(o.stdout@, 0u8)), 0) {
                    Ok(changes) => got matches Ok(list) && change_views(list@) == changes,
                    Err(e) => got matches Err(RepoError::Unparsable(s)) && s@ == e,
                },
            },
    {
        match out {
            Err(e) => Err(RepoError::Run(e)),
            Ok(out) => parse_changes(&out),
        }
    }
}

/// The letter git writes for a status.
pub open spec fn letter(status: ChangeStatus) -> u8 {
    match status {
        ChangeStatus::Added => 65,
        ChangeStatus::Modified => 77,
        ChangeStatus::Deleted => 68,
        ChangeStatus::TypeChanged => 84,
    }
}

/// A diff says one change for each pair of a status and a path, in order, under the letter git
/// writes for the status.
pub proof fn a_diff_pairs_statuses_with_paths(fields: Seq<Seq<u8>>, at: int)
    requires
        0 <= at <= fields.len(),
    ensures
        changes_from(fields, at) is Ok == ((fields.len() - at) % 2 == 0 && forall|i: int|
            0 <= i < (fields.len() - at) / 2 ==> (#[trigger] pair_of(fields, at, i)).0.len() > 0
                && (exists|status: ChangeStatus|
                #[trigger] letter(status) == pair_of(fields, at, i).0[0])
                && path::is_tree_path(pair_of(fields, at, i).1)),
        changes_from(fields, at) matches Ok(changes) ==> {
            &&& 2 * changes.len() == fields.len() - at
            &&& forall|i: int|
                0 <= i < changes.len() ==> letter((#[trigger] changes[i]).status) == pair_of(
                    fields,
                    at,
                    i,
                ).0[0] && changes[i].path == path::components(pair_of(fields, at, i).1)
        },
    decreases fields.len() - at,
{
    if at + 1 < fields.len() {
        a_diff_pairs_statuses_with_paths(fields, at + 2);
        let first = pair_of(fields, at, 0);
        assert(first == (fields[at], fields[at + 1]));
        lemma_letters(fields[at]);
        assert forall|i: int| 0 <= i < (fields.len() - at - 2) / 2 implies #[trigger] pair_of(
            fields,
            at + 2,
            i,
        ) == pair_of(fields, at, i + 1) by {}
        let count = (fields.len() - at) / 2;
        if changes_from(fields, at) is Ok {
            let more = changes_from(fields, at + 2)->Ok_0;
            let all = changes_from(fields, at)->Ok_0;
            assert forall|i: int| 0 <= i < all.len() implies letter(
                (#[trigger] all[i]).status,
            ) == pair_of(fields, at, i).0[0] && all[i].path == path::components(
                pair_of(fields, at, i).1,
            ) by {
                if i > 0 {
                    assert(all[i] == more[i - 1]);
                    assert(pair_of(fields, at + 2, i - 1) == pair_of(fields, at, i));
                }
            }
            assert forall|i: int| 0 <= i < count implies (#[trigger] pair_of(
                fields,
                at,
                i,
            )).0.len() > 0 && (exists|status: ChangeStatus|
                #[trigger] letter(status) == pair_of(fields, at, i).0[0]) && path::is_tree_path(
                pair_of(fields, at, i).1,
            ) by {
                if i > 0 {
                    assert(pair_of(fields, at + 2, i - 1) == pair_of(fields, at, i));
                }
            }
        } else if (fields.len() - at) % 2 == 0 && forall|i: int|
            0 <= i < count ==> (#[trigger] pair_of(fields, at, i)).0.len() > 0 && (exists|
                status: ChangeStatus,
            |
                #[trigger] letter(status) == pair_of(fields, at, i).0[0]) && path::is_tree_path(
                pair_of(fields, at, i).1,
            ) {
            assert(pair_of(fields, at, 0).0.len() > 0);
            assert forall|i: int| 0 <= i < (fields.len() - at - 2) / 2 implies (#[trigger] pair_of(
                fields,
                at + 2,
                i,
            )).0.len() > 0 && (exists|status: ChangeStatus|
                #[trigger] letter(status) == pair_of(fields, at + 2, i).0[0])
                && path::is_tree_path(pair_of(fields, at + 2, i).1) by {
                assert(pair_of(fields, at + 2, i) == pair_of(fields, at, i + 1));
            }
        }
    }
}

/// The `i`th pair of fields from `at` on.
pub open spec fn pair_of(fields: Seq<Seq<u8>>, at: int, i: int) -> (Seq<u8>, Seq<u8>) {
    (fields[at + 2 * i], fields[at + 2 * i + 1])
}

proof fn lemma_letters(record: Seq<u8>)
    ensures
        status_of(record) is Some == (record.len() > 0 && exists|status: ChangeStatus|
            #[trigger] letter(status) == record[0]),
        status_of(record) matches Some(status) ==> letter(status) == record[0],
{
    if record.len() > 0 && exists|status: ChangeStatus| #[trigger] letter(status) == record[0] {
        let status = choose|status: ChangeStatus| #[trigger] letter(status) == record[0];
        match status {
            ChangeStatus::Added => {},
            ChangeStatus::Modified => {},
            ChangeStatus::Deleted => {},
            ChangeStatus::TypeChanged => {},
        }
    }
    if let Some(status) = status_of(record) {
        assert(letter(status) == record[0]);
    }
}

} // verus!
