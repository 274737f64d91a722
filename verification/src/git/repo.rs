//! Repository lifecycle and object writing.

use crate::lines;
use crate::octets;
use crate::octets::{copy_bytes, extend, lossy_text, split_bytes};
use crate::primitives::encode;
use crate::primitives::encode::{index_info_line, stdin_paths_line, FileMode};
use crate::primitives::oid;
use crate::primitives::oid::{Oid, OidError};
use crate::primitives::path;
use crate::primitives::path::{AbsPath, TreePath};
use crate::config::rules::Path;
use crate::plan;
use crate::process;
use crate::process::{git, Call, CallView, Output, RunError, Timeout};
use crate::text;
use crate::text::{cat2, cat3, cat4, cat5, decimal, holds_text};
use vstd::prelude::*;

verus! {

/// Neutralises every attribute that could alter bytes on the way out. It is the
/// highest-precedence attributes source, and it does not survive a mirror clone -
/// restore re-establishes it.
pub const NEUTRAL_ATTRIBUTES: &'static str = "* -text -diff -filter -ident -export-subst -export-ignore\n";

#[derive(Debug, PartialEq, Eq)]
pub enum RepoError {
    Run(RunError),
    Io { context: String, source: String },
    Oid(OidError),
    Unparsable(String),
    Exposed { path: String, detail: String },
    Volume(String),
    Stalled { remaining: usize, stderr: String },
    PathRefused { detail: String },
}

impl RepoError {
    pub open spec fn message(self) -> Seq<char> {
        match self {
            RepoError::Run(e) => e.message@,
            RepoError::Io { context, source } => context@ + ": "@ + source@,
            RepoError::Oid(e) => "git printed an object id that could not be read: "@
                + e.message(),
            RepoError::Unparsable(s) => "git printed output this command cannot parse: "@ + s@,
            RepoError::Exposed { path, detail } => "the store at "@ + path@ + " "@ + detail@
                + "; it holds gitignored content and must not be readable by others"@,
            RepoError::Volume(s) => s@,
            RepoError::Stalled { remaining, stderr } => "hashing stopped with "@
                + text::decimal_text(remaining as nat)
                + " paths left and no path to blame: "@ + stderr@,
            RepoError::PathRefused { detail } =>
                "git refused to index a path and did not fail doing it: "@ + detail@,
        }
    }

    pub fn text(&self) -> (out: String)
        ensures
            out@ == self.message(),
    {
        match self {
            RepoError::Run(e) => e.message.clone(),
            RepoError::Io { context, source } => cat3(context, ": ", source),
            RepoError::Oid(e) => cat2(
                "git printed an object id that could not be read: ",
                &e.text(),
            ),
            RepoError::Unparsable(s) => cat2("git printed output this command cannot parse: ", s),
            RepoError::Exposed { path, detail } => cat5(
                "the store at ",
                path,
                " ",
                detail,
                "; it holds gitignored content and must not be readable by others",
            ),
            RepoError::Volume(s) => s.clone(),
            RepoError::Stalled { remaining, stderr } => cat4(
                "hashing stopped with ",
                &decimal(*remaining as u64),
                " paths left and no path to blame: ",
                stderr,
            ),
            RepoError::PathRefused { detail } => cat2(
                "git refused to index a path and did not fail doing it: ",
                detail,
            ),
        }
    }
}

/// One outcome per planned path, so the caller cannot be handed a short list: a run either
/// hashes every planned path or names the ones it did not.
#[derive(Debug, PartialEq, Eq)]
pub enum Hashed {
    Object(Oid),
    Unreadable { reason: String },
}

#[derive(Debug, PartialEq, Eq)]
pub struct IndexEntry {
    pub mode: FileMode,
    pub oid: Oid,
    pub path: TreePath,
}

/// A bare repository Tycho owns.
#[derive(Debug, PartialEq, Eq)]
pub struct Repo {
    path: AbsPath,
}

impl View for Repo {
    type V = Path;

    closed spec fn view(&self) -> Path {
        self.path@
    }
}

/// The settings a store is created with. None of them may be inherited: a store created
/// without them is silently wrong rather than broken, which is worse.
pub open spec fn store_settings() -> Seq<(Seq<char>, Seq<char>)> {
    seq![
        // Plain `true` logs refs/heads/* only, leaving refs/tycho/* - the refs
        // whose movement you would need to diagnose - with no reflog at all.
        ("core.logAllRefUpdates"@, "always"@),
        ("gc.pruneExpire"@, "never"@),
        ("gc.reflogExpire"@, "never"@),
        ("gc.reflogExpireUnreachable"@, "never"@),
    ]
}

/// The calls that create a store, in order.
pub open spec fn init_calls(target: Path) -> Seq<CallView> {
    let set = |key: Seq<char>, value: Seq<char>|
        process::git_call(Some(target), seq!["config"@, key, value], Timeout::Quick);
    seq![
        process::git_call(
            None,
            seq![
                "init"@,
                "--bare"@,
                "--object-format=sha1"@,
                "--shared=0600"@,
                "-b"@,
                "main"@,
                plan::shown(target),
            ],
            Timeout::Quick,
        ),
        // Without the explicit HEAD, a store whose init.defaultBranch differs clones
        // to an empty repository.
        process::git_call(
            Some(target),
            seq!["symbolic-ref"@, "HEAD"@, "refs/heads/main"@],
            Timeout::Quick,
        ),
        set(store_settings()[0].0, store_settings()[0].1),
        set(store_settings()[1].0, store_settings()[1].1),
        set(store_settings()[2].0, store_settings()[2].1),
        set(store_settings()[3].0, store_settings()[3].1),
    ]
}

/// The one id a call printed, or why there is none.
pub open spec fn one_oid(out: Output, got: Result<Oid, RepoError>) -> bool {
    if !out.success {
        got matches Err(RepoError::Unparsable(s)) && s@ == out.complaint()
    } else {
        match oid::read_oid(lines::trimmed(out.shown())) {
            Ok(bytes) => got matches Ok(o) && o.0@ == bytes,
            Err(e) => got == Err::<Oid, RepoError>(RepoError::Oid(e)),
        }
    }
}

pub fn parse_one(out: &Output) -> (got: Result<Oid, RepoError>)
    ensures
        one_oid(*out, got),
{
    if !out.success {
        return Err(RepoError::Unparsable(out.error_text()));
    }
    match Oid::parse(&out.trimmed()) {
        Ok(oid) => Ok(oid),
        Err(e) => Err(RepoError::Oid(e)),
    }
}

impl Repo {
    /// Names the store and the calls that create it. The attributes file of
    /// [`Repo::write_attributes`] is written behind them.
    pub fn init_bare(path: &AbsPath) -> (out: (Repo, Vec<Call>))
        ensures
            out.0@ == path@,
            process::call_views(out.1@) == init_calls(path@),
    {
        let shown = path.text();
        let init: Vec<&str> = vec![
            "init",
            "--bare",
            "--object-format=sha1",
            "--shared=0600",
            "-b",
            "main",
            shown.as_str(),
        ];
        let head: Vec<&str> = vec!["symbolic-ref", "HEAD", "refs/heads/main"];
        let repo = Repo { path: path.clone() };
        proof {
            assert(process::str_views(init@) =~= init_calls(path@)[0].args);
            assert(process::str_views(head@) =~= init_calls(path@)[1].args);
        }
        let calls: Vec<Call> = vec![
            git(None, init, Timeout::Quick),
            git(Some(path), head, Timeout::Quick),
            repo.set_config("core.logAllRefUpdates", "always"),
            repo.set_config("gc.pruneExpire", "never"),
            repo.set_config("gc.reflogExpire", "never"),
            repo.set_config("gc.reflogExpireUnreachable", "never"),
        ];
        assert(process::call_views(calls@) =~= init_calls(path@));
        (repo, calls)
    }

    /// The call that says whether a store can be opened.
    pub fn open_call(path: &AbsPath) -> (out: Call)
        ensures
            out@ == process::git_call(
                Some(path@),
                seq!["rev-parse"@, "--git-dir"@],
                Timeout::Quick,
            ),
    {
        let args: Vec<&str> = vec!["rev-parse", "--git-dir"];
        assert(process::str_views(args@) =~= seq!["rev-parse"@, "--git-dir"@]);
        git(Some(path), args, Timeout::Quick)
    }

    /// Opens an existing store, refusing one others can read. `exposure` says how others can
    /// read it, if they can; `opened` is what [`Repo::open_call`] came to.
    ///
    /// # Errors
    ///
    /// If the path is not a repository, or its mode grants group or other access.
    pub fn open(
        path: &AbsPath,
        exposure: Result<Option<String>, String>,
        opened: Result<Output, RunError>,
    ) -> (out: Result<Repo, RepoError>)
        ensures
            match exposure {
                Err(e) => out == Err::<Repo, RepoError>(RepoError::Volume(e)),
                Ok(Some(how)) => out matches Err(RepoError::Exposed { path: p, detail })
                    && p@ == plan::shown(path@) && detail == how,
                Ok(None) => match opened {
                    Err(e) => out == Err::<Repo, RepoError>(RepoError::Run(e)),
                    Ok(_) => out matches Ok(repo) && repo@ == path@,
                },
            },
    {
        match refuse_if_exposed(path, exposure) {
            Err(e) => return Err(e),
            Ok(()) => {},
        }
        match opened {
            Err(e) => Err(RepoError::Run(e)),
            Ok(_) => Ok(Repo { path: path.clone() }),
        }
    }

    /// Names a repository without opening it, for a caller that has already decided
    /// what it is looking at - a restore source it does not own, where [`Repo::open`]'s
    /// mode check would refuse a perfectly good mirror clone.
    #[must_use]
    pub fn at_unchecked(path: &AbsPath) -> (out: Repo)
        ensures
            out@ == path@,
    {
        Repo { path: path.clone() }
    }

    #[must_use]
    pub fn path(&self) -> (out: &AbsPath)
        ensures
            out@ == self@,
    {
        &self.path
    }

    /// The directory and the file the neutralising attributes go to. Restore writes them again
    /// on a clone, because `info/attributes` lives in the directory rather than the object
    /// database and no clone carries it.
    pub fn write_attributes(&self) -> (out: (AbsPath, AbsPath, &'static str))
        ensures
            out.0@ == self@.push(seq![105u8, 110, 102, 111]),
            out.1@ == out.0@.push(seq![97u8, 116, 116, 114, 105, 98, 117, 116, 101, 115]),
            out.2@ == NEUTRAL_ATTRIBUTES@,
    {
        let info: Vec<u8> = vec![105, 110, 102, 111];
        let attributes: Vec<u8> = vec![97, 116, 116, 114, 105, 98, 117, 116, 101, 115];
        proof {
            assert(info@ =~= seq![105u8, 110, 102, 111]);
            assert(attributes@ =~= seq![97u8, 116, 116, 114, 105, 98, 117, 116, 101, 115]);
            lemma_plain_component(info@);
            lemma_plain_component(attributes@);
        }
        let dir = self.path.join(&info);
        let file = dir.join(&attributes);
        (dir, file, NEUTRAL_ATTRIBUTES)
    }

    /// The call that sets one of the store's settings.
    pub fn set_config(&self, key: &str, value: &str) -> (out: Call)
        ensures
            out@ == process::git_call(
                Some(self@),
                seq!["config"@, key@, value@],
                Timeout::Quick,
            ),
    {
        let args: Vec<&str> = vec!["config", key, value];
        assert(process::str_views(args@) =~= seq!["config"@, key@, value@]);
        git(Some(&self.path), args, Timeout::Quick)
    }

    /// The call that reads one of the store's settings.
    pub fn config_call(&self, key: &str) -> (out: Call)
        ensures
            out@ == process::git_call(
                Some(self@),
                seq!["config"@, "--get"@, key@],
                Timeout::Quick,
            ),
    {
        let args: Vec<&str> = vec!["config", "--get", key];
        assert(process::str_views(args@) =~= seq!["config"@, "--get"@, key@]);
        git(Some(&self.path), args, Timeout::Quick)
    }

    /// The setting [`Repo::config_call`] read, where there is one.
    ///
    /// # Errors
    ///
    /// If git could not be run.
    pub fn config(out: Result<Output, RunError>) -> (value: Result<Option<String>, RepoError>)
        ensures
            match out {
                Err(e) => value == Err::<Option<String>, RepoError>(RepoError::Run(e)),
                Ok(o) => value matches Ok(v) && text::view_opt(v) == if o.success {
                    Some(lines::trimmed(o.shown()))
                } else {
                    None
                },
            },
    {
        match out {
            Err(e) => Err(RepoError::Run(e)),
            Ok(out) => {
                if out.success {
                    Ok(Some(out.trimmed()))
                } else {
                    Ok(None)
                }
            },
        }
    }

    /// The call that writes a blob from memory, for the small objects Tycho generates itself.
    pub fn hash_blob(&self, bytes: &[u8]) -> (out: Call)
        ensures
            out@ == (CallView {
                stdin: bytes@,
                ..process::git_call(
                    Some(self@),
                    seq![
                        "hash-object"@,
                        "-w"@,
                        "-t"@,
                        "blob"@,
                        "--no-filters"@,
                        "--stdin"@,
                    ],
                    Timeout::Work,
                )
            }),
    {
        let args: Vec<&str> = vec!["hash-object", "-w", "-t", "blob", "--no-filters", "--stdin"];
        assert(process::str_views(args@) =~= seq![
            "hash-object"@,
            "-w"@,
            "-t"@,
            "blob"@,
            "--no-filters"@,
            "--stdin"@,
        ]);
        git(Some(&self.path), args, Timeout::Work).with_stdin(copy_bytes(bytes))
    }

    /// The call that writes the empty tree: its id is computed rather than hardcoded - a
    /// literal is correct only for SHA-1 and only until it is not.
    pub fn empty_tree(&self) -> (out: Call)
        ensures
            out@ == process::git_call(
                Some(self@),
                seq!["hash-object"@, "-w"@, "-t"@, "tree"@, "--stdin"@],
                Timeout::Quick,
            ),
    {
        let args: Vec<&str> = vec!["hash-object", "-w", "-t", "tree", "--stdin"];
        assert(process::str_views(args@) =~= seq![
            "hash-object"@,
            "-w"@,
            "-t"@,
            "tree"@,
            "--stdin"@,
        ]);
        git(Some(&self.path), args, Timeout::Quick)
    }

    /// The call that writes a commit of a tree.
    pub fn commit_tree(&self, tree: Oid, parent: Option<Oid>, message: &str) -> (out: Call)
        ensures
            out@ == process::git_call(
                Some(self@),
                seq!["commit-tree"@, tree.hex()] + match parent {
                    Some(p) => seq!["-p"@, p.hex()],
                    None => Seq::empty(),
                } + seq!["-m"@, message@],
                Timeout::Work,
            ),
    {
        let shown = tree.text();
        let args: Vec<&str> = vec!["commit-tree", shown.as_str()];
        let ghost head = seq!["commit-tree"@, tree.hex()];
        assert(process::str_views(args@) =~= head);
        let call = git(Some(&self.path), args, Timeout::Work);
        match parent {
            Some(parent) => {
                let call = call.arg("-p").arg(&parent.text()).arg("-m").arg(message);
                assert(call@.args =~= head + seq!["-p"@, parent.hex()] + seq!["-m"@, message@]);
                call
            },
            None => {
                let call = call.arg("-m").arg(message);
                assert(call@.args =~= head + Seq::empty() + seq!["-m"@, message@]);
                call
            },
        }
    }

    /// A scratch index at a path. Whatever file is there is deleted first; see
    /// [`Index::clears`].
    ///
    /// `write_tree` is a method on the returned handle rather than on `Repo`,
    /// because without `GIT_INDEX_FILE` it would silently use the store's own index
    /// and a stale entry could survive into the tree.
    pub fn scratch_index(&self, path: Vec<u8>) -> (out: Index<'_>)
        ensures
            out.repo_path() == self@,
            out.file() == path@,
            out.clears(),
    {
        Index { repo: self, path, fresh: true }
    }

    /// The same index without clearing it, for a caller that built it with
    /// [`Repo::scratch_index`] and is now reading it back.
    #[must_use]
    pub fn open_index(&self, path: Vec<u8>) -> (out: Index<'_>)
        ensures
            out.repo_path() == self@,
            out.file() == path@,
            !out.clears(),
    {
        Index { repo: self, path, fresh: false }
    }
}

/// A lower-case word can stand between two slashes.
pub proof fn lemma_plain_component(part: Seq<u8>)
    requires
        part.len() > 2,
        forall|i: int| 0 <= i < part.len() ==> 97 <= #[trigger] part[i] <= 122,
    ensures
        path::is_component(part),
{
    assert(part != seq![46u8]) by {
        assert(part.len() != 1);
    }
    assert(part[0] != 46);
}

/// Refuses a store others can read, because it holds gitignored content.
fn refuse_if_exposed(path: &AbsPath, exposure: Result<Option<String>, String>) -> (out: Result<
    (),
    RepoError,
>)
    ensures
        match exposure {
            Err(e) => out == Err::<(), RepoError>(RepoError::Volume(e)),
            Ok(Some(how)) => out matches Err(RepoError::Exposed { path: p, detail }) && p@
                == plan::shown(path@) && detail == how,
            Ok(None) => out is Ok,
        },
{
    match exposure {
        Ok(None) => Ok(()),
        Ok(Some(detail)) => Err(RepoError::Exposed { path: path.text(), detail }),
        Err(source) => Err(RepoError::Volume(source)),
    }
}

// ---------------------------------------------------------------------------
// Hashing
// ---------------------------------------------------------------------------

/// Hashes every path into the object database, reading each file once.
///
/// `--no-filters` is not optional: without it `core.autocrlf` stores a CRLF file
/// LF-normalized and a `clean` filter replaces content wholesale.
///
/// A single unreadable file makes `hash-object` stop there, so a naive caller
/// pairs N paths against fewer than N hashes and builds a short tree that looks
/// healthy. The batch restarts past each failure until the list is exhausted,
/// and holds exactly one outcome per path when it is done.
#[derive(Debug)]
pub struct Batch {
    total: usize,
    outcomes: Vec<Hashed>,
}

pub enum HashedView {
    Object(Seq<u8>),
    Unreadable(Seq<char>),
}

impl View for Hashed {
    type V = HashedView;

    open spec fn view(&self) -> HashedView {
        match self {
            Hashed::Object(oid) => HashedView::Object(oid.0@),
            Hashed::Unreadable { reason } => HashedView::Unreadable(reason@),
        }
    }
}

pub open spec fn hashed_views(outcomes: Seq<Hashed>) -> Seq<HashedView> {
    outcomes.map_values(|h: Hashed| h@)
}

/// Whether the first `n` lines all name ids.
pub open spec fn all_ids(printed: Seq<Seq<char>>, n: int) -> bool {
    forall|i: int| 0 <= i < n ==> oid::read_oid(#[trigger] printed[i]) is Ok
}

pub open spec fn objects(printed: Seq<Seq<char>>, n: int) -> Seq<HashedView> {
    Seq::new(n as nat, |i: int| HashedView::Object(oid::read_oid(printed[i])->Ok_0))
}

/// The last line of a text, or nothing where it has none.
pub open spec fn last_line(s: Seq<char>) -> Seq<char> {
    let all = lines::lines_of(s);
    if all.len() == 0 {
        Seq::empty()
    } else {
        all.last()
    }
}

/// What a run over the paths from `done` on came to: the outcomes it adds, or why the batch
/// stops.
pub open spec fn batch_step(
    total: int,
    done: int,
    out: Output,
    added: Seq<HashedView>,
    failed: Option<RepoError>,
) -> bool {
    let printed = lines::lines_of(out.shown());
    let n = printed.len() as int;
    let next = done + n;
    if !all_ids(printed, n) {
        exists|i: int|
            0 <= i < n && all_ids(printed, i) && oid::read_oid(#[trigger] printed[i]) is Err
                && failed == Some(RepoError::Oid(oid::read_oid(printed[i])->Err_0))
    } else if out.success {
        if next != total {
            failed matches Some(RepoError::Unparsable(s)) && s@ == "hash-object exited 0 after "@
                + text::decimal_text(n as nat) + " of "@ + text::decimal_text(
                (total - done) as nat,
            ) + " paths"@
        } else {
            failed is None && added == objects(printed, n)
        }
    } else if next >= total {
        failed matches Some(RepoError::Stalled { remaining, stderr }) && remaining == 0 && stderr@
            == out.complaint()
    } else {
        failed is None && added == objects(printed, n).push(
            HashedView::Unreadable(last_line(out.complaint())),
        )
    }
}

/// The lines the paths from `done` on are handed over as.
pub open spec fn path_lines(paths: Seq<AbsPath>, done: int) -> Seq<u8>
    decreases paths.len() - done,
{
    if done >= paths.len() {
        Seq::empty()
    } else {
        encode::paths_line(crate::primitives::path::written(paths[done]@)) + path_lines(
            paths,
            done + 1,
        )
    }
}

impl Batch {
    pub closed spec fn total(self) -> int {
        self.total as int
    }

    /// One outcome for each path handled so far.
    pub closed spec fn outcomes(self) -> Seq<HashedView> {
        hashed_views(self.outcomes@)
    }

    #[verifier::type_invariant]
    closed spec fn valid(self) -> bool {
        self.outcomes@.len() <= self.total
    }

    /// A batch over this many paths, none of them handled.
    pub fn new(total: usize) -> (out: Batch)
        ensures
            out.total() == total,
            out.outcomes() == Seq::<HashedView>::empty(),
    {
        let out = Batch { total, outcomes: Vec::new() };
        assert(hashed_views(out.outcomes@) =~= Seq::<HashedView>::empty());
        out
    }

    pub fn is_done(&self) -> (out: bool)
        ensures
            out == (self.outcomes().len() == self.total()),
            self.outcomes().len() <= self.total(),
    {
        proof {
            use_type_invariant(self);
        }
        self.outcomes.len() == self.total
    }

    /// The run over the paths that are left.
    pub fn call(&self, repo: &Repo, paths: &[AbsPath]) -> (out: Call)
        requires
            paths@.len() == self.total(),
        ensures
            out@ == (CallView {
                stdin: path_lines(paths@, self.outcomes().len() as int),
                ..process::git_call(
                    Some(repo@),
                    seq!["hash-object"@, "-w"@, "--no-filters"@, "--stdin-paths"@],
                    Timeout::Work,
                )
            }),
    {
        proof {
            use_type_invariant(self);
        }
        let args: Vec<&str> = vec!["hash-object", "-w", "--no-filters", "--stdin-paths"];
        assert(process::str_views(args@) =~= seq![
            "hash-object"@,
            "-w"@,
            "--no-filters"@,
            "--stdin-paths"@,
        ]);
        let mut stdin: Vec<u8> = Vec::new();
        let first: usize = self.outcomes.len();
        let mut i: usize = first;
        let ghost whole = path_lines(paths@, first as int);
        assert(stdin@ + path_lines(paths@, i as int) =~= whole);
        while i < paths.len()
            invariant
                first <= i <= paths@.len(),
                whole == path_lines(paths@, first as int),
                stdin@ + path_lines(paths@, i as int) == whole,
            decreases paths@.len() - i,
        {
            let line = stdin_paths_line(&paths[i].as_path());
            let ghost before = stdin@;
            extend(&mut stdin, &line);
            proof {
                assert(before + (line@ + path_lines(paths@, i + 1)) =~= stdin@ + path_lines(
                    paths@,
                    i + 1,
                ));
            }
            i += 1;
        }
        assert(stdin@ =~= whole);
        git(Some(&repo.path), args, Timeout::Work).with_stdin(stdin)
    }

    /// Takes what a run came to.
    ///
    /// # Errors
    ///
    /// If git printed an unreadable id, or stopped with paths remaining and
    /// no path to attribute the failure to.
    pub fn hash_object_batch(&mut self, out: &Output) -> (result: Result<(), RepoError>)
        requires
            old(self).outcomes().len() < old(self).total(),
        ensures
            final(self).total() == old(self).total(),
            match result {
                Ok(()) => exists|added: Seq<HashedView>|
                    #[trigger] batch_step(
                        old(self).total(),
                        old(self).outcomes().len() as int,
                        *out,
                        added,
                        None,
                    ) && final(self).outcomes() == old(self).outcomes() + added && added.len() > 0,
                Err(e) => {
                    &&& final(self).outcomes() == old(self).outcomes()
                    &&& exists|added: Seq<HashedView>|
                        #[trigger] batch_step(
                            old(self).total(),
                            old(self).outcomes().len() as int,
                            *out,
                            added,
                            Some(e),
                        )
                },
            },
    {
        proof {
            use_type_invariant(&*self);
        }
        let shown = out.text();
        let printed = lines::lines(&shown);
        let ghost all = text::views(printed@);
        let total: usize = self.total;
        let done: usize = self.outcomes.len();
        let ghost none: Seq<HashedView> = Seq::empty();
        let mut added: Vec<Hashed> = Vec::new();
        let mut i: usize = 0;
        assert(hashed_views(added@) =~= objects(all, 0));
        while i < printed.len()
            invariant
                i <= printed@.len(),
                all == text::views(printed@),
                all == lines::lines_of(out.shown()),
                all_ids(all, i as int),
                hashed_views(added@) == objects(all, i as int),
                total == old(self).total(),
                done == old(self).outcomes().len(),
                *self == *old(self),
            decreases printed@.len() - i,
        {
            assert(all[i as int] == printed@[i as int]@);
            match Oid::parse(&printed[i]) {
                Err(e) => {
                    assert(oid::read_oid(all[i as int]) is Err);
                    assert(!all_ids(all, all.len() as int));
                    assert(batch_step(
                        total as int,
                        done as int,
                        *out,
                        Seq::empty(),
                        Some(RepoError::Oid(e)),
                    ));
                    return Err(RepoError::Oid(e));
                },
                Ok(oid) => {
                    let ghost before = hashed_views(added@);
                    let hashed = Hashed::Object(oid);
                    added.push(hashed);
                    assert(hashed_views(added@) =~= before.push(hashed@));
                    assert(hashed_views(added@) =~= objects(all, i + 1));
                },
            }
            i += 1;
        }
        let left: usize = total - done;
        let n: usize = printed.len();
        if out.success {
            if n != left {
                let e = RepoError::Unparsable(
                    cat5(
                        "hash-object exited 0 after ",
                        &decimal(n as u64),
                        " of ",
                        &decimal(left as u64),
                        " paths",
                    ),
                );
                assert(batch_step(total as int, done as int, *out, none, Some(e)));
                return Err(e);
            }
        } else {
            let stderr = out.error_text();
            if n >= left {
                let e = RepoError::Stalled { remaining: 0, stderr };
                assert(batch_step(total as int, done as int, *out, none, Some(e)));
                return Err(e);
            }
            let mut reasons = lines::lines(&stderr);
            let ghost told = text::views(reasons@);
            let reason = match reasons.pop() {
                Some(last) => {
                    assert(told.last() == last@);
                    last
                },
                None => "".to_owned(),
            };
            proof {
                reveal_strlit("");
                assert(reason@ =~= last_line(out.complaint()));
            }
            let ghost before = hashed_views(added@);
            let hashed = Hashed::Unreadable { reason };
            added.push(hashed);
            assert(hashed_views(added@) =~= before.push(hashed@));
        }
        let ghost more = hashed_views(added@);
        assert(batch_step(total as int, done as int, *out, more, None));
        let mut outcomes: Vec<Hashed> = Vec::new();
        std::mem::swap(&mut outcomes, &mut self.outcomes);
        let ghost held = hashed_views(outcomes@);
        outcomes.append(&mut added);
        proof {
            assert(hashed_views(outcomes@) =~= held + more);
        }
        self.outcomes = outcomes;
        Ok(())
    }

    /// The outcomes, one for each path handled and in the order of the paths.
    pub fn finish(self) -> (out: Vec<Hashed>)
        ensures
            hashed_views(out@) == self.outcomes(),
    {
        self.outcomes
    }
}

// ---------------------------------------------------------------------------
// The scratch index
// ---------------------------------------------------------------------------

/// A scratch index, built from nothing.
#[derive(Debug)]
pub struct Index<'a> {
    repo: &'a Repo,
    path: Vec<u8>,
    fresh: bool,
}

/// The records some entries are handed over as.
pub open spec fn index_records(entries: Seq<IndexEntry>) -> Seq<u8>
    decreases entries.len(),
{
    if entries.len() == 0 {
        Seq::empty()
    } else {
        let e = entries.last();
        index_records(entries.drop_last()) + encode::index_record(
            e.mode,
            e.oid,
            text::join(e.path@, seq![path::SLASH]),
        )
    }
}

/// How many of the pieces between NUL bytes are not empty.
pub open spec fn filled(pieces: Seq<Seq<u8>>) -> nat
    decreases pieces.len(),
{
    if pieces.len() == 0 {
        0
    } else {
        filled(pieces.drop_last()) + if pieces.last().len() > 0 {
            1nat
        } else {
            0
        }
    }
}

impl Index<'_> {
    pub closed spec fn repo_path(self) -> Path {
        self.repo@
    }

    pub closed spec fn file(self) -> Seq<u8> {
        self.path@
    }

    pub closed spec fn clears(self) -> bool {
        self.fresh
    }

    /// Whether a file already at the path has to be deleted before anything is added.
    pub fn must_clear(&self) -> (out: bool)
        ensures
            out == self.clears(),
    {
        self.fresh
    }

    /// The call that adds entries in one batch, where there are any. `-z` is what keeps a path
    /// starting with `"` from being dequoted and a path with a `.git` component from being
    /// discarded.
    pub fn update_call(&self, entries: &[IndexEntry]) -> (out: Option<Call>)
        ensures
            match out {
                None => entries@.len() == 0,
                Some(call) => entries@.len() > 0 && call@ == (CallView {
                    index: Some(self.file()),
                    stdin: index_records(entries@),
                    ..process::git_call(
                        Some(self.repo_path()),
                        seq!["update-index"@, "-z"@, "--index-info"@],
                        Timeout::Work,
                    )
                }),
            },
    {
        if entries.len() == 0 {
            return None;
        }
        let args: Vec<&str> = vec!["update-index", "-z", "--index-info"];
        assert(process::str_views(args@) =~= seq!["update-index"@, "-z"@, "--index-info"@]);
        let mut stdin: Vec<u8> = Vec::new();
        let mut i: usize = 0;
        assert(entries@.take(0) =~= Seq::<IndexEntry>::empty());
        assert(stdin@ =~= index_records(entries@.take(0)));
        while i < entries.len()
            invariant
                i <= entries@.len(),
                stdin@ == index_records(entries@.take(i as int)),
            decreases entries@.len() - i,
        {
            let e = &entries[i];
            let line = index_info_line(e.mode, e.oid, &e.path.as_path());
            extend(&mut stdin, &line);
            i += 1;
            assert(entries@.take(i as int).drop_last() =~= entries@.take(i - 1));
        }
        assert(entries@.take(i as int) =~= entries@);
        Some(
            git(Some(&self.repo.path), args, Timeout::Work).with_stdin(stdin).with_index(
                copy_bytes(&self.path),
            ),
        )
    }

    /// What [`Index::update_call`] came to.
    ///
    /// `update-index` answers a path it will not hold by printing `Ignoring path`
    /// and **exiting 0**, so a run that trusted the status would write a tree
    /// short of what it planned - or the empty tree - and report success.
    ///
    /// # Errors
    ///
    /// If git fails, or refuses a path without failing.
    pub fn update(out: &Output) -> (result: Result<(), RepoError>)
        ensures
            if !out.success {
                result matches Err(RepoError::Unparsable(s)) && s@ == out.complaint()
            } else if text::contains_text(octets::lossy(out.stderr@), "Ignoring path"@) {
                result matches Err(RepoError::PathRefused { detail }) && detail@
                    == out.complaint()
            } else {
                result is Ok
            },
    {
        if !out.success {
            return Err(RepoError::Unparsable(out.error_text()));
        }
        if holds_text(&lossy_text(&out.stderr), "Ignoring path") {
            return Err(RepoError::PathRefused { detail: out.error_text() });
        }
        Ok(())
    }

    /// The call that writes the index as a tree; [`parse_one`] reads what it printed.
    pub fn write_tree(&self) -> (out: Call)
        ensures
            out@ == (CallView {
                index: Some(self.file()),
                ..process::git_call(Some(self.repo_path()), seq!["write-tree"@], Timeout::Work)
            }),
    {
        let args: Vec<&str> = vec!["write-tree"];
        assert(process::str_views(args@) =~= seq!["write-tree"@]);
        git(Some(&self.repo.path), args, Timeout::Work).with_index(copy_bytes(&self.path))
    }

    /// The call that lists what the index holds.
    pub fn len_call(&self) -> (out: Call)
        ensures
            out@ == (CallView {
                index: Some(self.file()),
                ..process::git_call(
                    Some(self.repo_path()),
                    seq!["ls-files"@, "-z"@],
                    Timeout::Work,
                )
            }),
    {
        let args: Vec<&str> = vec!["ls-files", "-z"];
        assert(process::str_views(args@) =~= seq!["ls-files"@, "-z"@]);
        git(Some(&self.repo.path), args, Timeout::Work).with_index(copy_bytes(&self.path))
    }

    /// The number of entries the index holds, for the reconciliation that catches a
    /// short batch and a silently discarded path together.
    pub fn len(out: &Output) -> (count: usize)
        ensures
            count == filled(text::split(out.stdout@, 0u8)),
    {
        let pieces = split_bytes(&out.stdout, 0);
        let ghost all = octets::byte_views(pieces@);
        let mut count: usize = 0;
        let mut i: usize = 0;
        while i < pieces.len()
            invariant
                i <= pieces@.len(),
                count <= i,
                all == octets::byte_views(pieces@),
                count == filled(all.take(i as int)),
            decreases pieces@.len() - i,
        {
            proof {
                assert(all.take(i + 1).drop_last() =~= all.take(i as int));
                assert(all.take(i + 1).last() == pieces@[i as int]@);
            }
            if pieces[i].len() > 0 {
                count += 1;
            }
            i += 1;
        }
        assert(all.take(i as int) =~= all);
        count
    }

    /// Whether the index holds nothing.
    pub fn is_empty(out: &Output) -> (empty: bool)
        ensures
            empty == (filled(text::split(out.stdout@, 0u8)) == 0),
    {
        Index::len(out) == 0
    }
}

// ---------------------------------------------------------------------------
// Laws
// ---------------------------------------------------------------------------

/// A batch only ever moves forward and never past its paths, so a batch that goes on is done
/// after at most as many runs as it has paths, with exactly one outcome for each.
pub proof fn a_batch_reaches_its_end(
    total: int,
    done: int,
    out: Output,
    added: Seq<HashedView>,
)
    requires
        0 <= done < total,
        batch_step(total, done, out, added, None),
    ensures
        0 < added.len(),
        done + added.len() <= total,
        out.success ==> done + added.len() == total,
{
}

/// A run that goes on gives each path it handled its outcome, in the order of the lines: the id on
/// its line, and for the one path a failed run stopped at, that it could not be read.
pub proof fn a_batch_accounts_for_each_path(
    total: int,
    done: int,
    out: Output,
    added: Seq<HashedView>,
)
    requires
        0 <= done < total,
        batch_step(total, done, out, added, None),
    ensures
        ({
            let printed = lines::lines_of(out.shown());
            &&& added.len() == printed.len() + if out.success {
                0int
            } else {
                1
            }
            &&& forall|i: int|
                0 <= i < printed.len() ==> ((#[trigger] added[i]) matches HashedView::Object(id)
                    && oid::read_oid(printed[i]) == Ok::<Seq<u8>, OidError>(id))
            &&& !out.success ==> added.last() is Unreadable
        }),
{
    let printed = lines::lines_of(out.shown());
    assert forall|i: int| 0 <= i < printed.len() implies ((
    #[trigger] added[i]) matches HashedView::Object(id) && oid::read_oid(printed[i]) == Ok::<
        Seq<u8>,
        OidError,
    >(id)) by {
        assert(oid::read_oid(printed[i]) is Ok);
        assert(added[i] == objects(printed, printed.len() as int)[i]);
    }
}

/// A run stops the batch where a line is no id, where it succeeds short of the end, and where it
/// fails with no path left to blame.
pub proof fn a_batch_stops_on_what_it_cannot_place(
    total: int,
    done: int,
    out: Output,
    added: Seq<HashedView>,
    failed: Option<RepoError>,
)
    requires
        0 <= done < total,
        batch_step(total, done, out, added, failed),
    ensures
        ({
            let printed = lines::lines_of(out.shown());
            let read = forall|i: int|
                0 <= i < printed.len() ==> oid::read_oid(#[trigger] printed[i]) is Ok;
            &&& failed is None == (read && if out.success {
                done + printed.len() == total
            } else {
                done + printed.len() < total
            })
            &&& (failed matches Some(e) && e is Oid) == !read
            &&& (failed matches Some(e) && e is Stalled) == (read && !out.success && done
                + printed.len() >= total)
        }),
{
}

/// Pieces are counted where there is anything in them.
pub proof fn only_filled_pieces_are_counted(pieces: Seq<Seq<u8>>)
    ensures
        filled(pieces) == pieces.filter(|p: Seq<u8>| p.len() > 0).len(),
    decreases pieces.len(),
{
    reveal(Seq::filter);
    if pieces.len() > 0 {
        only_filled_pieces_are_counted(pieces.drop_last());
    }
}

/// An id is read of a call exactly where the call succeeded and printed one.
pub proof fn an_id_is_read_where_one_was_printed(out: Output, got: Result<Oid, RepoError>, id: Seq<u8>)
    requires
        one_oid(out, got),
        oid::read_oid(lines::trimmed(out.shown())) == Ok::<Seq<u8>, OidError>(id),
    ensures
        got is Ok <==> out.success,
        got matches Ok(o) ==> o.0@ == id,
{
}

/// The records of two lists of entries are those of each, one behind the other, and one entry's is
/// its own; paths are handed over a line each in the same way.
pub proof fn records_stand_one_behind_another(a: Seq<IndexEntry>, b: Seq<IndexEntry>, one: IndexEntry)
    ensures
        index_records(a + b) == index_records(a) + index_records(b),
        index_records(seq![one]) == encode::index_record(
            one.mode,
            one.oid,
            text::join(one.path@, seq![path::SLASH]),
        ),
    decreases b.len(),
{
    assert(seq![one].drop_last() =~= Seq::<IndexEntry>::empty());
    assert(index_records(seq![one].drop_last()) =~= Seq::<u8>::empty());
    assert(index_records(seq![one]) =~= encode::index_record(
        one.mode,
        one.oid,
        text::join(one.path@, seq![path::SLASH]),
    ));
    if b.len() == 0 {
        assert(a + b =~= a);
        assert(index_records(a) + index_records(b) =~= index_records(a));
    } else {
        records_stand_one_behind_another(a, b.drop_last(), one);
        assert((a + b).drop_last() =~= a + b.drop_last());
        assert((a + b).last() == b.last());
        assert(index_records(a + b) =~= index_records(a) + index_records(b));
    }
}

} // verus!
