//! Pushing the store to each remote, first-contact initialisation, and
//! post-push verification of the full ref set.
//!
//! A remote is a folder. Pushing to one is a **local filesystem write** - it does not
//! touch the network, so no internet is not the same as unreachable, and `verified`
//! means the bytes are written and handed to the sync client rather than that a
//! server has them.

use crate::git::refs;
use crate::git::refs::{PushOutcome, Refspec, RefspecView};
use crate::git::repo::RepoError;
use crate::git::Repo;
use crate::lines;
use crate::octets;
use crate::octets::{copy_bytes, extend, lossy_text};
use crate::plan;
use crate::primitives::oid::Oid;
use crate::primitives::path;
use crate::primitives::path::{drive_bytes, forward_bytes, AbsPath, BACKSLASH, SLASH};
use crate::config::rules::Path;
use crate::process;
use crate::process::{command, git, Call, Output, RunError, Timeout};
use crate::text;
use crate::text::{
    any_same, between, cat2, cat3, cat4, cat5, cat6, chars_of, decimal, ends_with, holds_text,
    join_text, sort_texts, starts_with,
};
use crate::textmap;
use crate::textmap::TextMap;
use vstd::prelude::*;
use vstd::utf8::*;

verus! {

// ---------------------------------------------------------------------------
// What the push carries
// ---------------------------------------------------------------------------

pub open spec fn push_specs() -> Seq<RefspecView> {
    seq![
        RefspecView { force: false, source: "refs/heads/*"@, destination: "refs/heads/*"@ },
        RefspecView { force: true, source: "refs/tycho/*"@, destination: "refs/tycho/*"@ },
    ]
}

/// What the push carries. `refs/heads/*` takes no `+`: Tycho's own history is
/// append-only, so a non-fast-forward there means a second machine is pushing this
/// profile name and must be rejected rather than forced through. `refs/tycho/*` keeps
/// its `+` because those legitimately track a rewritten upstream.
#[must_use]
pub fn refspecs() -> (out: Vec<Refspec>)
    ensures
        out@.map_values(|s: Refspec| s@) == push_specs(),
{
    let out: Vec<Refspec> = vec![
        Refspec::fast_forward("refs/heads/*", "refs/heads/*"),
        Refspec::forced("refs/tycho/*", "refs/tycho/*"),
    ];
    assert(out@.map_values(|s: Refspec| s@) =~= push_specs());
    out
}

#[derive(Debug, PartialEq, Eq)]
pub enum RemoteError {
    Store(String),
    Repo(RepoError),
    Run(RunError),
    AmbiguousGlob { path: String, count: usize, matches: String },
    NoGlobMatch { path: String },
    Io { context: String, source: String },
}

impl RemoteError {
    pub open spec fn message(self) -> Seq<char> {
        match self {
            RemoteError::Store(s) => s@,
            RemoteError::Repo(e) => e.message(),
            RemoteError::Run(e) => e.message@,
            RemoteError::AmbiguousGlob { path, count, matches } => path@ + " matches "@
                + text::decimal_text(count as nat)
                + " directories, so which one is a coin flip: "@ + matches@,
            RemoteError::NoGlobMatch { path } => path@ + " matches nothing"@,
            RemoteError::Io { context, source } => context@ + ": "@ + source@,
        }
    }

    pub fn text(&self) -> (out: String)
        ensures
            out@ == self.message(),
    {
        match self {
            RemoteError::Store(s) => s.clone(),
            RemoteError::Repo(e) => e.text(),
            RemoteError::Run(e) => e.message.clone(),
            RemoteError::AmbiguousGlob { path, count, matches } => cat5(
                path,
                " matches ",
                &decimal(*count as u64),
                " directories, so which one is a coin flip: ",
                matches,
            ),
            RemoteError::NoGlobMatch { path } => cat2(path, " matches nothing"),
            RemoteError::Io { context, source } => cat3(context, ": ", source),
        }
    }
}

// ---------------------------------------------------------------------------
// What is at a remote
// ---------------------------------------------------------------------------

/// What is at a remote path. Three-way rather than a boolean, because `git init
/// --bare` will happily initialise inside a directory holding your photos, and inside
/// a half-synced repository - orphaning its pre-existing pack.
#[derive(Debug, PartialEq, Eq)]
pub enum RemoteKind {
    /// Missing, or an empty directory. Initialise and configure it.
    Absent,
    /// A usable bare repository. Push.
    Repository,
    /// Holds something else entirely: you pointed at the wrong folder.
    Foreign { found: Vec<String> },
    /// Looks like a repository with pieces missing: the sync may still be running,
    /// or it needs repair. A different problem with a different remedy, which is why
    /// it is a different variant.
    Incomplete { missing: Vec<String> },
}

pub enum KindView {
    Absent,
    Repository,
    Foreign(Seq<Seq<char>>),
    Incomplete(Seq<Seq<char>>),
}

impl View for RemoteKind {
    type V = KindView;

    open spec fn view(&self) -> KindView {
        match self {
            RemoteKind::Absent => KindView::Absent,
            RemoteKind::Repository => KindView::Repository,
            RemoteKind::Foreign { found } => KindView::Foreign(text::views(found@)),
            RemoteKind::Incomplete { missing } => KindView::Incomplete(text::views(missing@)),
        }
    }
}

impl KindView {
    /// Why a push to this is refused, where it is.
    pub open spec fn refusal(self) -> Option<Seq<char>> {
        match self {
            KindView::Absent => None,
            KindView::Repository => None,
            KindView::Foreign(found) => Some(
                "holds content that is not a tycho repository ("@ + text::join(found, ", "@)
                    + "); pointing a backup at it would initialise over somebody's files"@,
            ),
            KindView::Incomplete(missing) => Some(
                "looks like a repository with "@ + text::join(missing, ", "@)
                    + " missing; the sync client may still be downloading it, so this is a wait-or-repair rather than a wrong path"@,
            ),
        }
    }
}

impl RemoteKind {
    #[must_use]
    pub fn refusal(&self) -> (out: Option<String>)
        ensures
            text::view_opt(out) == self@.refusal(),
    {
        match self {
            RemoteKind::Absent | RemoteKind::Repository => None,
            RemoteKind::Foreign { found } => Some(
                cat3(
                    "holds content that is not a tycho repository (",
                    &join_text(found, ", "),
                    "); pointing a backup at it would initialise over somebody's files",
                ),
            ),
            RemoteKind::Incomplete { missing } => Some(
                cat3(
                    "looks like a repository with ",
                    &join_text(missing, ", "),
                    " missing; the sync client may still be downloading it, so this is a wait-or-repair rather than a wrong path",
                ),
            ),
        }
    }
}

/// The pieces a bare repository is made of.
pub open spec fn pieces() -> Seq<Seq<char>> {
    seq!["HEAD"@, "objects"@, "refs"@]
}

/// Those of the first `n` pieces that a folder's names do not hold.
pub open spec fn lacking(names: Seq<Seq<char>>, n: int) -> Seq<Seq<char>>
    decreases n,
{
    if n <= 0 {
        Seq::empty()
    } else if names.contains(pieces()[n - 1]) {
        lacking(names, n - 1)
    } else {
        lacking(names, n - 1).push(pieces()[n - 1])
    }
}

/// At most four of the texts of a list.
pub open spec fn at_most_four(v: Seq<Seq<char>>) -> Seq<Seq<char>> {
    if v.len() <= 4 {
        v
    } else {
        v.take(4)
    }
}

/// What a folder's names alone say it is. `None` where it has every piece of a repository and
/// git has to be asked.
pub open spec fn named_kind(names: Seq<Seq<char>>) -> Option<KindView> {
    let missing = lacking(names, 3);
    if names.len() == 0 {
        Some(KindView::Absent)
    } else if missing.len() == 3 {
        Some(KindView::Foreign(at_most_four(text::in_order(names))))
    } else if missing.len() > 0 {
        Some(KindView::Incomplete(missing))
    } else {
        None
    }
}

fn keep_four(v: Vec<String>) -> (out: Vec<String>)
    ensures
        text::views(out@) == at_most_four(text::views(v@)),
{
    let mut v = v;
    let ghost all = text::views(v@);
    if v.len() > 4 {
        v.truncate(4);
        assert(text::views(v@) =~= all.take(4));
    }
    v
}

/// What a folder's names say it is, where they say enough.
pub fn classify_names(names: &[String]) -> (out: Option<RemoteKind>)
    ensures
        match out {
            Some(kind) => named_kind(text::views(names@)) == Some(kind@),
            None => named_kind(text::views(names@)) is None,
        },
{
    let ghost all = text::views(names@);
    if names.len() == 0 {
        return Some(RemoteKind::Absent);
    }
    let mut missing: Vec<String> = Vec::new();
    assert(text::views(missing@) =~= lacking(all, 0));
    proof {
        reveal_with_fuel(lacking, 4);
    }
    if !any_same(names, "HEAD") {
        missing.push("HEAD".to_owned());
    }
    assert(text::views(missing@) =~= lacking(all, 1));
    let ghost before = text::views(missing@);
    if !any_same(names, "objects") {
        missing.push("objects".to_owned());
        assert(text::views(missing@) =~= before.push("objects"@));
    }
    assert(text::views(missing@) =~= lacking(all, 2));
    let ghost before = text::views(missing@);
    if !any_same(names, "refs") {
        missing.push("refs".to_owned());
        assert(text::views(missing@) =~= before.push("refs"@));
    }
    assert(text::views(missing@) =~= lacking(all, 3));
    let n: usize = missing.len();
    assert(lacking(all, 3).len() == n);
    // Nothing recognisable at all: this is somebody's folder, not a repository.
    if n == 3 {
        return Some(RemoteKind::Foreign { found: keep_four(sort_texts(names)) });
    }
    if n > 0 {
        return Some(RemoteKind::Incomplete { missing });
    }
    None
}

/// What is at a path: nothing, what a listing of it says, or what git says where the listing
/// leaves it to git.
pub open spec fn kind_at(
    exists: bool,
    listing: Result<Seq<Seq<char>>, Seq<char>>,
    usable: bool,
) -> Result<KindView, Seq<char>> {
    if !exists {
        Ok(KindView::Absent)
    } else {
        match listing {
            Err(e) => Err(e),
            Ok(names) => Ok(
                match named_kind(names) {
                    Some(kind) => kind,
                    None => if usable {
                        KindView::Repository
                    } else {
                        KindView::Incomplete(seq!["a readable repository"@])
                    },
                },
            ),
        }
    }
}

pub open spec fn listing_view(listing: Result<Vec<String>, String>) -> Result<
    Seq<Seq<char>>,
    Seq<char>,
> {
    match listing {
        Ok(names) => Ok(text::views(names@)),
        Err(e) => Err(e@),
    }
}

/// Whether git answered that a directory is a repository.
pub open spec fn is_usable(probe: Result<Output, RunError>) -> bool {
    probe matches Ok(o) && o.success
}

/// Says what is at a path from whether it exists, what listing it came to, and what git answered
/// of it, which is only looked at where the listing leaves it open.
///
/// # Errors
///
/// If the directory could not be read.
pub fn classify(
    path: &AbsPath,
    exists: bool,
    listing: Result<Vec<String>, String>,
    probe: Result<Output, RunError>,
) -> (out: Result<RemoteKind, RemoteError>)
    ensures
        match kind_at(exists, listing_view(listing), is_usable(probe)) {
            Ok(kind) => out matches Ok(k) && k@ == kind,
            Err(e) => out matches Err(RemoteError::Io { context, source }) && context@
                == "reading "@ + plan::shown(path@) && source@ == e,
        },
{
    if !exists {
        return Ok(RemoteKind::Absent);
    }
    let names = match listing {
        Ok(names) => names,
        Err(source) => {
            return Err(
                RemoteError::Io { context: cat2("reading ", &path.text()), source },
            );
        },
    };
    if let Some(kind) = classify_names(&names) {
        return Ok(kind);
    }
    let usable = match probe {
        Ok(out) => out.success,
        Err(_) => false,
    };
    if usable {
        return Ok(RemoteKind::Repository);
    }
    let missing: Vec<String> = vec!["a readable repository".to_owned()];
    assert(text::views(missing@) =~= seq!["a readable repository"@]);
    Ok(RemoteKind::Incomplete { missing })
}

// ---------------------------------------------------------------------------
// Finding a remote
// ---------------------------------------------------------------------------

/// The greatest index at which `s` holds `c`.
pub open spec fn last_position(s: Seq<char>, c: char) -> Option<int>
    decreases s.len(),
{
    if s.len() == 0 {
        None
    } else if s.last() == c {
        Some(s.len() - 1)
    } else {
        last_position(s.drop_last(), c)
    }
}

fn rfind(s: &[char], c: char) -> (out: Option<usize>)
    ensures
        match out {
            Some(at) => last_position(s@, c) == Some(at as int) && at < s@.len(),
            None => last_position(s@, c) is None,
        },
{
    let mut i: usize = s.len();
    assert(s@.take(i as int) =~= s@);
    while i > 0
        invariant
            i <= s@.len(),
            last_position(s@, c) == last_position(s@.take(i as int), c),
        decreases i,
    {
        assert(s@.take(i as int).last() == s@[i - 1]);
        if s[i - 1] == c {
            return Some(i - 1);
        }
        assert(s@.take(i as int).drop_last() =~= s@.take(i - 1));
        i -= 1;
    }
    None
}

/// A path with one `*`, taken apart: the directory to look in, what a name there has to begin
/// and end with, and what follows the name.
pub struct GlobParts {
    pub between: char,
    pub parent: Seq<char>,
    pub prefix: Seq<char>,
    pub suffix: Seq<char>,
    pub rest: Seq<char>,
}

/// What a path's host puts between two components, as text.
pub open spec fn between_names(path: Path) -> char {
    if path::has_drive(path) {
        '\\'
    } else {
        '/'
    }
}

pub open spec fn glob_parts(between: char, s: Seq<char>) -> Option<GlobParts> {
    match text::split_first(s, '*') {
        None => None,
        Some((before, after)) => {
            let (parent, prefix) = match last_position(before, between) {
                Some(at) => (before.take(at), before.skip(at + 1)),
                None => ("."@, before),
            };
            let (suffix, rest) = match text::split_first(after, between) {
                Some(parts) => parts,
                None => (after, Seq::empty()),
            };
            Some(GlobParts { between, parent, prefix, suffix, rest })
        },
    }
}

impl GlobParts {
    pub open spec fn fits(self, name: Seq<char>) -> bool {
        text::has_prefix(name, self.prefix) && text::has_suffix(name, self.suffix)
    }

    /// The path a name completes.
    pub open spec fn completed(self, name: Seq<char>) -> Seq<char> {
        if self.rest.len() == 0 {
            self.parent + seq![self.between] + name
        } else {
            self.parent + seq![self.between] + name + seq![self.between] + self.rest
        }
    }

    /// The paths that the first `n` names complete.
    pub open spec fn matches(self, names: Seq<Seq<char>>, n: int) -> Seq<Seq<char>>
        decreases n,
    {
        if n <= 0 {
            Seq::empty()
        } else if self.fits(names[n - 1]) {
            self.matches(names, n - 1).push(self.completed(names[n - 1]))
        } else {
            self.matches(names, n - 1)
        }
    }
}

/// A configured path taken apart at its `*`.
#[derive(Debug)]
pub struct Glob {
    pub between: char,
    pub parent: String,
    pub prefix: String,
    pub suffix: String,
    pub rest: String,
}

impl View for Glob {
    type V = GlobParts;

    open spec fn view(&self) -> GlobParts {
        GlobParts {
            between: self.between,
            parent: self.parent@,
            prefix: self.prefix@,
            suffix: self.suffix@,
            rest: self.rest@,
        }
    }
}

/// Takes a configured path apart at its `*`. Where it has one, `parent` is the directory to list
/// for [`resolve`].
pub fn glob_of(path: &AbsPath) -> (out: Option<Glob>)
    ensures
        match out {
            Some(glob) => glob_parts(between_names(path@), plan::shown(path@)) == Some(glob@)
                && (glob.between == '/' || glob.between == '\\'),
            None => glob_parts(between_names(path@), plan::shown(path@)) is None,
        },
{
    let shown = path.text();
    let separator = if path.on_drive() {
        '\\'
    } else {
        '/'
    };
    let (before, after) = match text::split_once(&shown, '*') {
        Some(parts) => parts,
        None => return None,
    };
    let cs = chars_of(&before);
    let n: usize = cs.len();
    let (parent, prefix) = match rfind(&cs, separator) {
        Some(at) => {
            let a = between(&cs, 0, at);
            let b = between(&cs, at + 1, n);
            assert(a@ =~= before@.take(at as int));
            assert(b@ =~= before@.skip(at + 1));
            (a, b)
        },
        None => (".".to_owned(), before),
    };
    let (suffix, rest) = match text::split_once(&after, separator) {
        Some(parts) => parts,
        None => {
            let none = "".to_owned();
            proof {
                reveal_strlit("");
                assert(none@ =~= Seq::<char>::empty());
            }
            (after, none)
        },
    };
    Some(Glob { between: separator, parent, prefix, suffix, rest })
}

/// What a configured path resolves to. Without a `*` it is the path itself.
pub open spec fn resolved_as(
    path: Path,
    names: Seq<Seq<char>>,
    out: Result<Vec<u8>, RemoteError>,
) -> bool {
    let shown = plan::shown(path);
    match glob_parts(between_names(path), shown) {
        None => out matches Ok(p) && p@ == crate::primitives::path::written(path),
        Some(parts) => {
            let found = parts.matches(text::in_order(names), names.len() as int);
            if found.len() == 1 {
                out matches Ok(p) && p@ == encode_utf8(found[0])
            } else if found.len() == 0 {
                out matches Err(RemoteError::NoGlobMatch { path: p }) && p@ == shown
            } else {
                out matches Err(RemoteError::AmbiguousGlob { path: p, count, matches }) && p@
                    == shown && count == found.len() && matches@ == text::join(found, ", "@)
            }
        },
    }
}

fn completions(glob: &Glob, names: &Vec<String>) -> (out: Vec<String>)
    requires
        glob.between == '/' || glob.between == '\\',
    ensures
        text::views(out@) == glob@.matches(text::views(names@), names@.len() as int),
{
    let ghost all = text::views(names@);
    let mut out: Vec<String> = Vec::new();
    let mut i: usize = 0;
    assert(text::views(out@) =~= glob@.matches(all, 0));
    let between = if glob.between == '/' {
        "/"
    } else {
        "\\"
    };
    proof {
        reveal_strlit("/");
        reveal_strlit("\\");
        assert(between@ =~= seq![glob.between]);
    }
    while i < names.len()
        invariant
            between@ == seq![glob.between],
            i <= names@.len(),
            all == text::views(names@),
            text::views(out@) == glob@.matches(all, i as int),
        decreases names@.len() - i,
    {
        let name = &names[i];
        assert(all[i as int] == name@);
        let cs = chars_of(name);
        if starts_with(&cs, &glob.prefix) && ends_with(&cs, &glob.suffix) {
            let whole = if glob.rest.as_str().unicode_len() == 0 {
                cat3(&glob.parent, between, name)
            } else {
                cat5(&glob.parent, between, name, between, &glob.rest)
            };
            let ghost before = text::views(out@);
            let ghost w = whole@;
            out.push(whole);
            assert(text::views(out@) =~= before.push(w));
        }
        i += 1;
    }
    out
}

/// Expands the single `*` a configured remote path may carry, for the account
/// directory whose exact name you cannot predict. `names` is what the directory
/// [`glob_of`] names holds; nothing where it could not be listed.
///
/// **More than one match is an error, not a choice.** Directory order is not stable,
/// so a first-match-wins rule would put one account's backups in another.
///
/// # Errors
///
/// If the glob matches more than one directory, or none at all.
pub fn resolve(path: &AbsPath, names: &[String]) -> (out: Result<Vec<u8>, RemoteError>)
    ensures
        resolved_as(path@, text::views(names@), out),
{
    let glob = match glob_of(path) {
        None => return Ok(path.as_path()),
        Some(glob) => glob,
    };
    let sorted = sort_texts(names);
    proof {
        text::sorting_only_reorders(text::views(names@));
        assert(text::views(sorted@).len() == sorted@.len());
    }
    let found = completions(&glob, &sorted);
    let count: usize = found.len();
    let ghost views = text::views(found@);
    assert(views.len() == count);
    if count == 1 {
        assert(views[0] == found@[0]@);
        return Ok(copy_bytes(found[0].as_str().as_bytes()));
    }
    let shown = path.text();
    if count == 0 {
        return Err(RemoteError::NoGlobMatch { path: shown });
    }
    Err(RemoteError::AmbiguousGlob { path: shown, count, matches: join_text(&found, ", ") })
}

/// The bare repository inside the folder is named after the profile, so one folder
/// holds as many profiles as you point at it and they never interact.
#[must_use]
pub fn repo_path(folder: &[u8], profile: &str) -> (out: Vec<u8>)
    ensures
        out@ == folder@ + seq![
            if path::drive_length(path::forward(folder@)) is Some && folder@[0] != SLASH {
                BACKSLASH
            } else {
                SLASH
            },
        ] + encode_utf8(profile@ + ".git"@),
{
    let mut out = copy_bytes(folder);
    let drive = drive_bytes(&forward_bytes(folder)).is_some() && folder[0] != SLASH;
    out.push(if drive {
        BACKSLASH
    } else {
        SLASH
    });
    let name = cat2(profile, ".git");
    extend(&mut out, name.as_str().as_bytes());
    assert(out@ =~= folder@ + seq![out@[folder@.len() as int]] + encode_utf8(profile@ + ".git"@));
    out
}

// ---------------------------------------------------------------------------
// Creating a remote
// ---------------------------------------------------------------------------

/// The calls that create and configure a remote repository, in order.
pub open spec fn initialise_calls(repo: Path) -> Seq<process::CallView> {
    let call = |args: Seq<Seq<char>>| process::git_call(Some(repo), args, Timeout::Quick);
    seq![
        call(seq!["init"@, "--bare"@, "--object-format=sha1"@, "-b"@, "main"@, "."@]),
        call(seq!["config"@, "receive.autogc"@, "false"@]),
        call(seq!["config"@, "gc.auto"@, "0"@]),
        call(seq!["config"@, "receive.denyNonFastForwards"@, "true"@]),
        // A remote whose HEAD dangles clones to an empty repository, and cloning a remote
        // is the disaster path.
        call(seq!["symbolic-ref"@, "HEAD"@, "refs/heads/main"@]),
    ]
}

/// Creates and configures a remote repository, once its directory is there.
///
/// Configuration happens before any push, and the order is load-bearing:
/// `receive.autogc` is **on by default**, so a remote that receives a push first
/// would run `git gc` - rewriting packfiles inside a cloud-synced folder and
/// permanently pruning whatever a forced push orphaned. A remote is a write-once,
/// append-only replica that Tycho never compacts.
pub fn initialise(repo: &AbsPath) -> (out: Vec<Call>)
    ensures
        process::call_views(out@) == initialise_calls(repo@),
{
    let a: Vec<&str> = vec!["init", "--bare", "--object-format=sha1", "-b", "main", "."];
    let b: Vec<&str> = vec!["config", "receive.autogc", "false"];
    let c: Vec<&str> = vec!["config", "gc.auto", "0"];
    let d: Vec<&str> = vec!["config", "receive.denyNonFastForwards", "true"];
    let e: Vec<&str> = vec!["symbolic-ref", "HEAD", "refs/heads/main"];
    proof {
        assert(process::str_views(a@) =~= initialise_calls(repo@)[0].args);
        assert(process::str_views(b@) =~= initialise_calls(repo@)[1].args);
        assert(process::str_views(c@) =~= initialise_calls(repo@)[2].args);
        assert(process::str_views(d@) =~= initialise_calls(repo@)[3].args);
        assert(process::str_views(e@) =~= initialise_calls(repo@)[4].args);
    }
    let out: Vec<Call> = vec![
        git(Some(repo), a, Timeout::Quick),
        git(Some(repo), b, Timeout::Quick),
        git(Some(repo), c, Timeout::Quick),
        git(Some(repo), d, Timeout::Quick),
        git(Some(repo), e, Timeout::Quick),
    ];
    assert(process::call_views(out@) =~= initialise_calls(repo@));
    out
}

// ---------------------------------------------------------------------------
// Verification
// ---------------------------------------------------------------------------

/// What is said of a ref that the remote does not hold as it is here.
pub open spec fn ref_fault(name: Seq<char>, here: Oid, there: Option<Oid>) -> Option<Seq<char>> {
    match there {
        Some(o) => if o.0@ == here.0@ {
            None
        } else {
            Some(name + " is "@ + o.hex() + " there and "@ + here.hex() + " here"@)
        },
        None => Some(name + " is absent"@),
    }
}

pub open spec fn held_by(remote: Map<Seq<char>, Oid>, name: Seq<char>) -> Option<Oid> {
    if remote.contains_key(name) {
        Some(remote[name])
    } else {
        None
    }
}

/// What is said of the first `n` refs.
pub open spec fn ref_faults(
    local: Seq<(Seq<char>, Oid)>,
    remote: Map<Seq<char>, Oid>,
    n: int,
) -> Seq<Seq<char>>
    decreases n,
{
    if n <= 0 {
        Seq::empty()
    } else {
        let row = local[n - 1];
        match ref_fault(row.0, row.1, held_by(remote, row.0)) {
            Some(fault) => ref_faults(local, remote, n - 1).push(fault),
            None => ref_faults(local, remote, n - 1),
        }
    }
}

fn same_oid(a: &Oid, b: &Oid) -> (out: bool)
    ensures
        out == (a.0@ == b.0@),
{
    octets::same_bytes(a.0.as_slice(), b.0.as_slice())
}

/// What is said of a remote, given the refs held here: nothing where it holds each of them, and
/// else its first four faults.
pub open spec fn is_verified(
    local: Seq<(Seq<char>, Oid)>,
    remote: Map<Seq<char>, Oid>,
    out: Option<String>,
) -> bool {
    let faults = ref_faults(local, remote, local.len() as int);
    if faults.len() == 0 {
        out is None
    } else {
        out matches Some(s) && s@ == text::join(at_most_four(faults), "; "@)
    }
}

/// Compares the **full ref set**, not one ref.
///
/// Checking only `refs/heads/main` lets a run print `verified` while the captured
/// repository history failed to land - and that history is nearly the whole backup.
pub fn verify(local: &TextMap<Oid>, remote: &TextMap<Oid>) -> (out: Option<String>)
    ensures
        is_verified(local.rows(), remote@, out),
{
    let n: usize = local.len();
    let ghost rows = local.rows();
    let mut missing: Vec<String> = Vec::new();
    let mut i: usize = 0;
    assert(text::views(missing@) =~= ref_faults(rows, remote@, 0));
    while i < n
        invariant
            i <= n == rows.len(),
            rows == local.rows(),
            text::views(missing@) == ref_faults(rows, remote@, i as int),
        decreases n - i,
    {
        let name = local.key(i);
        let here = local.value(i);
        assert(rows[i as int] == (name@, *here));
        let ghost before = text::views(missing@);
        match remote.get(name) {
            Some(there) => {
                if !same_oid(there, here) {
                    let line = cat6(
                        name,
                        " is ",
                        &there.text(),
                        " there and ",
                        &here.text(),
                        " here",
                    );
                    let ghost l = line@;
                    missing.push(line);
                    assert(text::views(missing@) =~= before.push(l));
                }
            },
            None => {
                let line = cat2(name, " is absent");
                let ghost l = line@;
                missing.push(line);
                assert(text::views(missing@) =~= before.push(l));
            },
        }
        i += 1;
    }
    let count: usize = missing.len();
    assert(text::views(missing@).len() == count);
    if count == 0 {
        return None;
    }
    Some(join_text(&keep_four(missing), "; "))
}

/// The calls whose answers [`verify`] compares: what the remote holds, and then what is held here
/// under each prefix that a push carries.
pub open spec fn compare_call_views(store: Path, repo: Path) -> Seq<process::CallView> {
    seq![
        process::git_call(Some(store), seq!["ls-remote"@, plan::shown(repo)], Timeout::Remote),
        process::git_call(
            Some(store),
            seq!["for-each-ref"@, "--format=%(objectname)\t%(refname)"@, "refs/heads/"@],
            Timeout::Quick,
        ),
        process::git_call(
            Some(store),
            seq!["for-each-ref"@, "--format=%(objectname)\t%(refname)"@, "refs/tycho/"@],
            Timeout::Quick,
        ),
    ]
}

/// [`compare_call_views`], for [`compare`] to take the answers of.
pub fn compare_calls(store: &Repo, repo: &AbsPath) -> (out: Vec<Call>)
    ensures
        process::call_views(out@) == compare_call_views(store@, repo@),
{
    let out = vec![
        store.ls_remote(repo),
        store.for_each_ref_call("refs/heads/"),
        store.for_each_ref_call("refs/tycho/"),
    ];
    assert(process::call_views(out@) =~= compare_call_views(store@, repo@));
    out
}

/// What a listing of refs came to.
pub open spec fn refs_answered(
    answer: Result<Output, RunError>,
    refs: Result<TextMap<Oid>, RepoError>,
) -> bool {
    match answer {
        Err(e) => refs == Err::<TextMap<Oid>, RepoError>(RepoError::Run(e)),
        Ok(o) => refs::refs_read(lines::lines_of(o.shown()), refs),
    }
}

/// What comparing three listings comes to: the first that failed, or the faults of the refs held
/// here, all of those under the first prefix and all of those under the second, against those
/// held there.
pub open spec fn compared(
    there: Result<TextMap<Oid>, RepoError>,
    heads: Result<TextMap<Oid>, RepoError>,
    captured: Result<TextMap<Oid>, RepoError>,
    out: Result<Option<String>, RemoteError>,
) -> bool {
    match (there, heads, captured) {
        (Err(e), _, _) => out == Err::<Option<String>, RemoteError>(RemoteError::Repo(e)),
        (_, Err(e), _) => out == Err::<Option<String>, RemoteError>(RemoteError::Repo(e)),
        (_, _, Err(e)) => out == Err::<Option<String>, RemoteError>(RemoteError::Repo(e)),
        (Ok(there), Ok(heads), Ok(captured)) => out matches Ok(said) && exists|
            local: Seq<(Seq<char>, Oid)>,
        |
            text::sorted(textmap::row_keys(local)) && #[trigger] textmap::row_map(local)
                == heads@.union_prefer_right(captured@) && is_verified(local, there@, said),
    }
}

/// Compares what the remote was found to hold with what is held here.
///
/// # Errors
///
/// If one of the listings failed or could not be read, the first of them in the order of
/// [`compare_calls`].
pub fn compare(
    there: Result<Output, RunError>,
    heads: Result<Output, RunError>,
    captured: Result<Output, RunError>,
) -> (out: Result<Option<String>, RemoteError>)
    ensures
        exists|
            a: Result<TextMap<Oid>, RepoError>,
            b: Result<TextMap<Oid>, RepoError>,
            c: Result<TextMap<Oid>, RepoError>,
        |
            refs_answered(there, a) && refs_answered(heads, b) && refs_answered(captured, c)
                && #[trigger] compared(a, b, c, out),
        out is Ok ==> readable(there) && readable(heads) && readable(captured),
        out matches Ok(said) ==> (said is None <==> {
            let held = printed_refs(there);
            &&& forall|name: Seq<char>| #[trigger]
                printed_refs(captured).contains_key(name) ==> held.contains_key(name) && held[name]
                    == printed_refs(captured)[name]
            &&& forall|name: Seq<char>| #[trigger]
                printed_refs(heads).contains_key(name) && !printed_refs(captured).contains_key(name)
                    ==> held.contains_key(name) && held[name] == printed_refs(heads)[name]
        }),
        readable(there) && readable(heads) && readable(captured) ==> out is Ok,
{
    let a = Repo::for_each_ref(there);
    let b = Repo::for_each_ref(heads);
    let c = Repo::for_each_ref(captured);
    let ghost (there_read, heads_read, captured_read) = (a, b, c);
    let out = match a {
        Err(e) => Err(RemoteError::Repo(e)),
        Ok(there) => match b {
            Err(e) => Err(RemoteError::Repo(e)),
            Ok(mut local) => match c {
                Err(e) => Err(RemoteError::Repo(e)),
                Ok(more) => {
                    local.extend(more);
                    let said = verify(&local, &there);
                    assert(textmap::row_map(local.rows()) == local@);
                    Ok(said)
                },
            },
        },
    };
    assert(compared(there_read, heads_read, captured_read, out));
    proof {
        lemma_readable(there, there_read);
        lemma_readable(heads, heads_read);
        lemma_readable(captured, captured_read);
        if out is Ok {
            a_verified_remote_holds_every_ref(
                there_read->Ok_0,
                heads_read->Ok_0,
                captured_read->Ok_0,
                out->Ok_0,
            );
            let t = there_read->Ok_0@;
            let h = heads_read->Ok_0@;
            let k = captured_read->Ok_0@;
            assert(refs::ids_of(t) == printed_refs(there));
            assert(refs::ids_of(h) == printed_refs(heads));
            assert(refs::ids_of(k) == printed_refs(captured));
            lemma_ids(t);
            lemma_ids(h);
            lemma_ids(k);
        }
    }
    out
}

/// Whether a listing of refs was made, and every line of it is one of a listing's.
pub open spec fn readable(answer: Result<Output, RunError>) -> bool {
    answer matches Ok(o) && forall|i: int|
        0 <= i < lines::lines_of(o.shown()).len() ==> refs::line_is_good(
            #[trigger] lines::lines_of(o.shown())[i],
        )
}

/// The refs a listing printed, each with the bytes of its id.
pub open spec fn printed_refs(answer: Result<Output, RunError>) -> Map<Seq<char>, Seq<u8>> {
    match answer {
        Ok(o) => refs::refs_in(
            lines::lines_of(o.shown()),
            lines::lines_of(o.shown()).len() as int,
        ),
        Err(_) => Map::empty(),
    }
}

proof fn lemma_ids(held: Map<Seq<char>, Oid>)
    ensures
        forall|name: Seq<char>|
            #![trigger held.contains_key(name)]
            #![trigger refs::ids_of(held).contains_key(name)]
            held.contains_key(name) == refs::ids_of(held).contains_key(name) && (held.contains_key(
                name,
            ) ==> refs::ids_of(held)[name] == held[name].0@),
{
}

proof fn lemma_readable(
    answer: Result<Output, RunError>,
    read: Result<TextMap<Oid>, RepoError>,
)
    requires
        refs_answered(answer, read),
    ensures
        read is Ok <==> readable(answer),
        read matches Ok(refs) ==> refs::ids_of(refs@) == printed_refs(answer),
{
    if let Ok(o) = answer {
        let printed = lines::lines_of(o.shown());
        if let Err(e) = read {
            let at = choose|at: int| #[trigger] refs::first_bad_line(printed, at, e);
            assert(!refs::line_is_good(printed[at]));
        }
    }
}

/// A remote is said to be verified exactly where it holds every ref of both listings that were
/// made here, each with the same id: all that was captured, and all of the heads. (A name in both
/// counts as the second listing has it; the two are made under different prefixes.)
pub proof fn a_verified_remote_holds_every_ref(
    there: TextMap<Oid>,
    heads: TextMap<Oid>,
    captured: TextMap<Oid>,
    said: Option<String>,
)
    requires
        compared(Ok(there), Ok(heads), Ok(captured), Ok(said)),
    ensures
        said is None <==> {
            &&& forall|name: Seq<char>| #[trigger]
                captured@.contains_key(name) ==> there@.contains_key(name) && there@[name].0@
                    == captured@[name].0@
            &&& forall|name: Seq<char>| #[trigger]
                heads@.contains_key(name) && !captured@.contains_key(name)
                    ==> there@.contains_key(name) && there@[name].0@ == heads@[name].0@
        },
{
    let all = heads@.union_prefer_right(captured@);
    let local = choose|local: Seq<(Seq<char>, Oid)>|
        text::sorted(textmap::row_keys(local)) && #[trigger] textmap::row_map(local) == all
            && is_verified(local, there@, said);
    textmap::lemma_row_map(local);
    verified_means_every_ref_is_there(local, there@, local.len() as int);
    if said is None {
        assert forall|name: Seq<char>| all.contains_key(name) implies #[trigger] there@.contains_key(
            name,
        ) && there@[name].0@ == all[name].0@ by {
            assert(textmap::row_map(local).contains_key(name));
            let i = choose|i: int| 0 <= i < local.len() && (#[trigger] local[i]).0 == name;
            assert(textmap::row_map(local)[local[i].0] == local[i].1);
        }
        assert forall|name: Seq<char>| #[trigger] captured@.contains_key(name) implies there@.contains_key(
            name,
        ) && there@[name].0@ == captured@[name].0@ by {
            assert(all.contains_key(name) && all[name] == captured@[name]);
        }
        assert forall|name: Seq<char>| #[trigger]
            heads@.contains_key(name) && !captured@.contains_key(name) implies there@.contains_key(
            name,
        ) && there@[name].0@ == heads@[name].0@ by {
            assert(all.contains_key(name) && all[name] == heads@[name]);
        }
    } else {
        let i = choose|i: int|
            0 <= i < local.len() && !(there@.contains_key((#[trigger] local[i]).0)
                && there@[local[i].0].0@ == local[i].1.0@);
        let name = local[i].0;
        assert(textmap::row_map(local).contains_key(name));
        assert(textmap::row_map(local)[name] == local[i].1);
        if captured@.contains_key(name) {
            assert(all[name] == captured@[name]);
        } else {
            assert(heads@.contains_key(name) && all[name] == heads@[name]);
        }
    }
}

/// The call that removes the AppleDouble sidecars macOS leaves on a volume that cannot hold an
/// extended attribute.
///
/// **Not cosmetic, and not optional.** Every exFAT and FAT32 drive is such a volume,
/// and git opens `._pack-<hex>.idx` as a pack index and answers `non-monotonic index`;
/// every `._` under `refs/` is a `badRefName`.
///
/// `-m` deletes rather than merging the sidecar back into the file it shadows,
/// which is what we want: the data is git's, and the metadata being carried is
/// macOS's own noise.
pub fn sweep_sidecars(repo: &AbsPath) -> (out: Call)
    ensures
        out@ == process::program_call(
            "dot_clean"@,
            seq!["-m"@, plan::shown(repo@)],
            Timeout::Work,
        ),
{
    let shown = repo.text();
    let args: Vec<&str> = vec!["-m", shown.as_str()];
    assert(process::str_views(args@) =~= seq!["-m"@, plan::shown(repo@)]);
    command("dot_clean", args, Timeout::Work)
}

/// What git says of a repository on a filesystem that records no ownership.
pub const GUARD: &'static str = "dubious ownership";

/// What is said of a failure, once git has been asked about the repository itself.
pub open spec fn explained(
    repo: Path,
    failure: Seq<char>,
    probe: Result<Output, RunError>,
) -> Seq<char> {
    match probe {
        Ok(o) if !text::contains_text(failure, GUARD@) && text::contains_text(
            octets::lossy(o.stderr@),
            GUARD@,
        ) => "git will not use "@ + plan::shown(repo)
            + ": it is on a filesystem that records no ownership. "@ + o.complaint(),
        _ => failure,
    }
}

/// Names the cause when git's own answer does not.
///
/// Git refuses a repository on a filesystem that records no ownership - exFAT and
/// FAT32, which is what an external drive usually is. The refusal makes every command
/// after `init` fail, and the first one Tycho runs is `git config`, which answers a
/// non-repository with `fatal: not in a git directory`: true, useless, and silent
/// about ownership. Asking git directly gets the real complaint, and git's own text
/// carries the remedy with the exact path spelling `safe.directory` has to match.
pub fn explain(repo: &AbsPath, failure: &str, probe: &Result<Output, RunError>) -> (out: String)
    ensures
        out@ == explained(repo@, failure@, *probe),
{
    if holds_text(failure, GUARD) {
        return failure.to_owned();
    }
    match probe {
        Err(_) => failure.to_owned(),
        Ok(out) => {
            if !holds_text(&lossy_text(&out.stderr), GUARD) {
                return failure.to_owned();
            }
            cat4(
                "git will not use ",
                &repo.text(),
                ": it is on a filesystem that records no ownership. ",
                &out.error_text(),
            )
        },
    }
}

// ---------------------------------------------------------------------------
// Publishing
// ---------------------------------------------------------------------------

#[derive(Debug, PartialEq, Eq)]
pub enum FailureReason {
    Unusable(String),
    Rejected(String),
    Unverified(String),
    Other(String),
}

/// What one remote came to in a run.
#[derive(Debug, PartialEq, Eq)]
pub enum Observation {
    Unreachable,
    Refused(FailureReason),
    Verified { head: String },
}

/// Where publishing to a remote stands.
#[derive(Debug, PartialEq, Eq)]
pub enum Stage {
    /// The configured path is to be resolved, and its folder looked for.
    Locate,
    /// The folder is to be made: its parent is there.
    MakeFolder,
    /// What is at the repository's path is to be looked at.
    Classify,
    /// The repository is to be created and configured.
    Initialise,
    /// The store is to be pushed.
    Push,
    /// Sidecars are to be swept and the refs compared.
    Verify,
    Done(Observation),
}

/// What a stage came to.
#[allow(inconsistent_fields)]
#[derive(Debug)]
pub enum Event {
    Located { folder: Result<Vec<u8>, RemoteError>, exists: bool, parent_exists: bool },
    FolderMade { folder: String, outcome: Result<(), String> },
    /// What is there, with git's answer about the repository beside it.
    Classified {
        repo: AbsPath,
        kind: Result<RemoteKind, RemoteError>,
        probe: Result<Output, RunError>,
    },
    Initialised {
        repo: AbsPath,
        outcome: Result<(), RemoteError>,
        probe: Result<Output, RunError>,
    },
    Pushed(Result<PushOutcome, RepoError>),
    Compared { outcome: Result<Option<String>, RemoteError>, head: Option<Oid> },
}

/// What a stage says, with each text as its characters.
pub enum StageView {
    Locate,
    MakeFolder,
    Classify,
    Initialise,
    Push,
    Verify,
    Unreachable,
    Unusable(Seq<char>),
    Rejected(Seq<char>),
    Unverified(Seq<char>),
    Other(Seq<char>),
    Verified(Seq<char>),
}

impl View for Stage {
    type V = StageView;

    open spec fn view(&self) -> StageView {
        match self {
            Stage::Locate => StageView::Locate,
            Stage::MakeFolder => StageView::MakeFolder,
            Stage::Classify => StageView::Classify,
            Stage::Initialise => StageView::Initialise,
            Stage::Push => StageView::Push,
            Stage::Verify => StageView::Verify,
            Stage::Done(Observation::Unreachable) => StageView::Unreachable,
            Stage::Done(Observation::Refused(FailureReason::Unusable(s))) => StageView::Unusable(
                s@,
            ),
            Stage::Done(Observation::Refused(FailureReason::Rejected(s))) => StageView::Rejected(
                s@,
            ),
            Stage::Done(
                Observation::Refused(FailureReason::Unverified(s)),
            ) => StageView::Unverified(s@),
            Stage::Done(Observation::Refused(FailureReason::Other(s))) => StageView::Other(s@),
            Stage::Done(Observation::Verified { head }) => StageView::Verified(head@),
        }
    }
}

/// The stage behind another. An event that is none of a stage's leaves it where it is.
///
/// A missing folder whose **parent** exists is first contact: `/Volumes/T7` is
/// mounted and `/Volumes/T7/tycho` has not been made yet. A missing parent is the
/// drive not being plugged in, which is unreachable and not Tycho's to create -
/// making it would write the backup to the boot disk under the mount point.
pub open spec fn next_stage(stage: StageView, event: Event) -> StageView {
    match (stage, event) {
        (StageView::Locate, Event::Located { folder, exists, parent_exists }) => match folder {
            Err(RemoteError::NoGlobMatch { .. }) => StageView::Unreachable,
            Err(e) => StageView::Unusable(e.message()),
            Ok(_) => if exists {
                StageView::Classify
            } else if parent_exists {
                StageView::MakeFolder
            } else {
                StageView::Unreachable
            },
        },
        (StageView::MakeFolder, Event::FolderMade { folder, outcome }) => match outcome {
            Ok(()) => StageView::Classify,
            Err(e) => StageView::Unusable("creating "@ + folder@ + ": "@ + e@),
        },
        (StageView::Classify, Event::Classified { repo, kind, probe }) => match kind {
            Err(e) => StageView::Unusable(explained(repo@, e.message(), probe)),
            Ok(kind) => match kind@.refusal() {
                Some(refusal) => StageView::Unusable(refusal),
                None => if kind@ is Absent {
                    StageView::Initialise
                } else {
                    StageView::Push
                },
            },
        },
        (StageView::Initialise, Event::Initialised { repo, outcome, probe }) => match outcome {
            Ok(()) => StageView::Push,
            Err(e) => StageView::Unusable(explained(repo@, e.message(), probe)),
        },
        (StageView::Push, Event::Pushed(outcome)) => match outcome {
            Ok(PushOutcome::Accepted) => StageView::Verify,
            Ok(PushOutcome::Refused { detail }) => StageView::Rejected(detail@),
            Err(e) => StageView::Other(e.message()),
        },
        (StageView::Verify, Event::Compared { outcome, head }) => match outcome {
            Ok(None) => StageView::Verified(
                match head {
                    Some(oid) => oid.hex(),
                    None => Seq::empty(),
                },
            ),
            Ok(Some(detail)) => StageView::Unverified(detail@),
            Err(e) => StageView::Other(e.message()),
        },
        (stage, _) => stage,
    }
}

fn unusable(reason: String) -> (out: Stage)
    ensures
        out@ == StageView::Unusable(reason@),
{
    Stage::Done(Observation::Refused(FailureReason::Unusable(reason)))
}

/// Everything one remote needs from a run, in the order it has to happen: takes what a stage came
/// to, and says what comes next.
///
/// A remote that is unreachable, refuses, or fails verification is an [`Observation`]
/// rather than an error - one bad destination must not stop the others - so this
/// never fails outright.
pub fn publish(stage: Stage, event: Event) -> (out: Stage)
    ensures
        out@ == next_stage(stage@, event),
{
    match (stage, event) {
        (Stage::Locate, Event::Located { folder, exists, parent_exists }) => match folder {
            Err(RemoteError::NoGlobMatch { .. }) => Stage::Done(Observation::Unreachable),
            Err(error) => unusable(error.text()),
            Ok(_) => {
                if exists {
                    Stage::Classify
                } else if parent_exists {
                    Stage::MakeFolder
                } else {
                    Stage::Done(Observation::Unreachable)
                }
            },
        },
        (Stage::MakeFolder, Event::FolderMade { folder, outcome }) => match outcome {
            Ok(()) => Stage::Classify,
            Err(error) => unusable(cat4("creating ", &folder, ": ", &error)),
        },
        (Stage::Classify, Event::Classified { repo, kind, probe }) => match kind {
            Err(error) => unusable(explain(&repo, &error.text(), &probe)),
            Ok(kind) => match kind.refusal() {
                Some(refusal) => unusable(refusal),
                None => match kind {
                    RemoteKind::Absent => Stage::Initialise,
                    _ => Stage::Push,
                },
            },
        },
        (Stage::Initialise, Event::Initialised { repo, outcome, probe }) => match outcome {
            Ok(()) => Stage::Push,
            Err(error) => unusable(explain(&repo, &error.text(), &probe)),
        },
        (Stage::Push, Event::Pushed(outcome)) => match outcome {
            Ok(PushOutcome::Accepted) => Stage::Verify,
            Ok(PushOutcome::Refused { detail }) => Stage::Done(
                Observation::Refused(FailureReason::Rejected(detail)),
            ),
            Err(error) => Stage::Done(
                Observation::Refused(FailureReason::Other(error.text())),
            ),
        },
        (Stage::Verify, Event::Compared { outcome, head }) => match outcome {
            Ok(None) => {
                let head = match head {
                    Some(oid) => oid.text(),
                    None => {
                        proof {
                            reveal_strlit("");
                            assert(""@ =~= Seq::<char>::empty());
                        }
                        "".to_owned()
                    },
                };
                Stage::Done(Observation::Verified { head })
            },
            Ok(Some(detail)) => Stage::Done(
                Observation::Refused(FailureReason::Unverified(detail)),
            ),
            Err(error) => Stage::Done(
                Observation::Refused(FailureReason::Other(error.text())),
            ),
        },
        (stage, _) => stage,
    }
}

// ---------------------------------------------------------------------------
// Laws
// ---------------------------------------------------------------------------

/// Only what legitimately tracks a rewritten upstream is forced: Tycho's own history is pushed
/// fast-forward or not at all.
pub proof fn history_is_never_forced(i: int)
    requires
        0 <= i < push_specs().len(),
    ensures
        push_specs()[i].force == (push_specs()[i].source == "refs/tycho/*"@),
        push_specs()[i].source == push_specs()[i].destination,
{
    reveal_strlit("refs/heads/*");
    reveal_strlit("refs/tycho/*");
    assert("refs/heads/*"@[5] != "refs/tycho/*"@[5]);
}

/// Nothing is pushed into a remote that is not a usable repository or has not just been
/// configured, and nothing but a push that was accepted is verified.
pub proof fn a_push_needs_a_configured_remote(stage: StageView, event: Event)
    requires
        next_stage(stage, event) != stage,
    ensures
        next_stage(stage, event) is Push ==> (stage is Classify && (event matches Event::Classified {
            kind: Ok(kind),
            ..
        } && kind@ is Repository)) || (stage is Initialise && (event matches Event::Initialised {
            outcome: Ok(()),
            ..
        })),
        next_stage(stage, event) is Verify ==> stage is Push && (event matches Event::Pushed(
            Ok(PushOutcome::Accepted),
        )),
        next_stage(stage, event) is Verified ==> stage is Verify && (event matches Event::Compared {
            outcome: Ok(None),
            ..
        }),
{
}

/// A remote verifies exactly where every ref that is here is there with the same id.
pub proof fn verified_means_every_ref_is_there(
    local: Seq<(Seq<char>, Oid)>,
    remote: Map<Seq<char>, Oid>,
    n: int,
)
    requires
        0 <= n <= local.len(),
    ensures
        (ref_faults(local, remote, n).len() == 0) == (forall|i: int|
            0 <= i < n ==> remote.contains_key((#[trigger] local[i]).0)
                && remote[local[i].0].0@ == local[i].1.0@),
    decreases n,
{
    if n > 0 {
        verified_means_every_ref_is_there(local, remote, n - 1);
        let row = local[n - 1];
        let fault = ref_fault(row.0, row.1, held_by(remote, row.0));
        if ref_faults(local, remote, n).len() == 0 {
            assert(fault is None);
        } else if forall|i: int|
            0 <= i < n ==> remote.contains_key((#[trigger] local[i]).0)
                && remote[local[i].0].0@ == local[i].1.0@ {
            assert(remote.contains_key(local[n - 1].0));
        }
    }
}

/// Two matching directories are never chosen between.
pub proof fn an_ambiguous_glob_is_never_resolved(
    path: Path,
    names: Seq<Seq<char>>,
    out: Result<Vec<u8>, RemoteError>,
)
    requires
        resolved_as(path, names, out),
        glob_parts(between_names(path), plan::shown(path)) matches Some(parts) && parts.matches(
            text::in_order(names),
            names.len() as int,
        ).len() != 1,
    ensures
        out is Err,
{
}

/// What a folder holds says what it is: nothing, a repository where all three of a bare
/// repository's pieces are there and git can use it, somebody's files where none of the three is,
/// and an incomplete repository for the rest, told by exactly the pieces it lacks.
pub proof fn a_folder_is_what_it_holds(exists: bool, names: Seq<Seq<char>>, usable: bool)
    ensures
        kind_at(exists, Ok(names), usable) is Ok,
        ({
            let kind = kind_at(exists, Ok(names), usable)->Ok_0;
            let head = names.contains("HEAD"@);
            let objects = names.contains("objects"@);
            let refs = names.contains("refs"@);
            &&& (kind is Absent) == (names.len() == 0 || !exists)
            &&& (kind is Repository) == (exists && head && objects && refs && usable)
            &&& (kind is Foreign) == (exists && names.len() > 0 && !head && !objects && !refs)
            &&& kind matches KindView::Foreign(found) ==> {
                &&& found.len() == if names.len() < 4 {
                    names.len()
                } else {
                    4
                }
                &&& text::ordered(found)
                &&& forall|i: int| 0 <= i < found.len() ==> names.contains(#[trigger] found[i])
            }
            &&& kind matches KindView::Incomplete(missing) ==> {
                &&& missing.len() > 0
                &&& !(head && objects && refs) ==> forall|name: Seq<char>| #[trigger]
                    missing.contains(name) == (!names.contains(name) && (name == "HEAD"@ || name
                        == "objects"@ || name == "refs"@))
            }
        }),
{
    lemma_lacking(names);
    if !exists {
    } else if names.len() == 0 {
        assert(!names.contains("HEAD"@) && !names.contains("objects"@) && !names.contains(
            "refs"@,
        ));
    } else {
        lemma_first_four(names);
    }
}

proof fn lemma_lacking(names: Seq<Seq<char>>)
    ensures
        ({
            let missing = lacking(names, 3);
            let head = names.contains("HEAD"@);
            let objects = names.contains("objects"@);
            let refs = names.contains("refs"@);
            &&& (missing.len() == 3) == (!head && !objects && !refs)
            &&& (missing.len() == 0) == (head && objects && refs)
            &&& missing.len() <= 3
            &&& forall|name: Seq<char>| #[trigger]
                missing.contains(name) == (!names.contains(name) && (name == "HEAD"@ || name
                    == "objects"@ || name == "refs"@))
        }),
{
    reveal_with_fuel(lacking, 4);
    let missing = lacking(names, 3);
    assert(pieces()[0] == "HEAD"@ && pieces()[1] == "objects"@ && pieces()[2] == "refs"@);
    assert forall|name: Seq<char>| #[trigger] missing.contains(name) == (!names.contains(name) && (
    name == "HEAD"@ || name == "objects"@ || name == "refs"@)) by {
        let one = lacking(names, 1);
        let two = lacking(names, 2);
        lemma_pushed(one, "objects"@, name);
        lemma_pushed(two, "refs"@, name);
        lemma_pushed(Seq::empty(), "HEAD"@, name);
    }
}

proof fn lemma_first_four(names: Seq<Seq<char>>)
    ensures
        ({
            let found = at_most_four(text::in_order(names));
            &&& found.len() == if names.len() < 4 {
                names.len()
            } else {
                4
            }
            &&& text::ordered(found)
            &&& forall|i: int| 0 <= i < found.len() ==> names.contains(#[trigger] found[i])
        }),
{
    broadcast use vstd::seq_lib::group_to_multiset_ensures;

    let sorted = text::in_order(names);
    let found = at_most_four(sorted);
    text::sorting_only_reorders(names);
    assert forall|i: int, j: int| 0 <= i < j < found.len() implies !text::text_less(
        #[trigger] found[j],
        #[trigger] found[i],
    ) by {
        assert(found[j] == sorted[j] && found[i] == sorted[i]);
    }
    assert forall|i: int| 0 <= i < found.len() implies names.contains(#[trigger] found[i]) by {
        assert(found[i] == sorted[i]);
        assert(sorted.contains(sorted[i]));
        assert(sorted.to_multiset().count(sorted[i]) > 0);
    }
}

proof fn lemma_pushed(v: Seq<Seq<char>>, x: Seq<char>, name: Seq<char>)
    ensures
        v.push(x).contains(name) == (v.contains(name) || name == x),
{
    if v.contains(name) {
        let i = choose|i: int| 0 <= i < v.len() && v[i] == name;
        assert(v.push(x)[i] == name);
    }
    assert(v.push(x)[v.len() as int] == x);
}

/// A folder that cannot be read is never taken for one that is empty.
pub proof fn an_unread_folder_is_an_error(error: Seq<char>, usable: bool)
    ensures
        kind_at(true, Err(error), usable) == Err::<KindView, Seq<char>>(error),
{
}

/// Only an absent repository and a usable one are gone on with, and what is said of the others
/// names what was found or what is missing.
pub proof fn only_a_repository_or_nothing_is_accepted(kind: KindView)
    ensures
        (kind.refusal() is None) == (kind is Absent || kind is Repository),
        kind matches KindView::Foreign(found) ==> text::contains_text(
            kind.refusal()->0,
            text::join(found, ", "@),
        ),
        kind matches KindView::Incomplete(missing) ==> text::contains_text(
            kind.refusal()->0,
            text::join(missing, ", "@),
        ),
{
    match kind {
        KindView::Foreign(found) => {
            let a = "holds content that is not a tycho repository ("@;
            let b = "); pointing a backup at it would initialise over somebody's files"@;
            let all = text::join(found, ", "@);
            assert((a + all + b).subrange(a.len() as int, (a.len() + all.len()) as int) =~= all);
            assert(text::occurs_at(kind.refusal()->0, all, a.len() as int));
        },
        KindView::Incomplete(missing) => {
            let a = "looks like a repository with "@;
            let b =
                " missing; the sync client may still be downloading it, so this is a wait-or-repair rather than a wrong path"@;
            let all = text::join(missing, ", "@);
            assert((a + all + b).subrange(a.len() as int, (a.len() + all.len()) as int) =~= all);
            assert(text::occurs_at(kind.refusal()->0, all, a.len() as int));
        },
        _ => {},
    }
}

/// A folder is made only where its parent is there: a drive that is not plugged in is unreachable,
/// and so is a glob that names nothing.
pub proof fn a_missing_drive_is_never_written_to(
    folder: Result<Vec<u8>, RemoteError>,
    exists: bool,
    parent_exists: bool,
)
    ensures
        ({
            let next = next_stage(
                StageView::Locate,
                Event::Located { folder, exists, parent_exists },
            );
            &&& (next is MakeFolder) == (folder is Ok && !exists && parent_exists)
            &&& (next is Classify) == (folder is Ok && exists)
            &&& (next is Unreachable) == (folder matches Err(e) && e is NoGlobMatch || folder is Ok
                && !exists && !parent_exists)
            &&& (next is Unusable) == (folder matches Err(e) && !(e is NoGlobMatch))
        }),
{
}

/// What each stage behind the first leads to, by what it came to: a failure ends the remote where
/// it stands, with the failure's own words, and a remote is verified by its comparison alone.
pub proof fn each_stage_leads_to_the_next(stage: StageView, event: Event)
    ensures
        ({
            let next = next_stage(stage, event);
            match event {
                Event::FolderMade { outcome, .. } => stage is MakeFolder ==> {
                    &&& (next is Classify) == (outcome is Ok)
                    &&& (next is Unusable) == (outcome is Err)
                },
                Event::Classified { kind, .. } => stage is Classify ==> {
                    &&& (next is Push) == (kind matches Ok(k) && k is Repository)
                    &&& (next is Initialise) == (kind matches Ok(k) && k is Absent)
                    &&& (next is Unusable) == (kind is Err || (kind matches Ok(k) && (k is Foreign
                        || k is Incomplete)))
                },
                Event::Initialised { outcome, .. } => stage is Initialise ==> {
                    &&& (next is Push) == (outcome is Ok)
                    &&& (next is Unusable) == (outcome is Err)
                },
                Event::Pushed(outcome) => stage is Push ==> {
                    &&& (next is Verify) == (outcome matches Ok(o) && o is Accepted)
                    &&& outcome matches Ok(PushOutcome::Refused { detail }) ==> next
                        == StageView::Rejected(detail@)
                    &&& outcome matches Err(e) ==> next == StageView::Other(e.message())
                },
                Event::Compared { outcome, head } => stage is Verify ==> {
                    &&& (next is Verified) == (outcome matches Ok(said) && said is None)
                    &&& next matches StageView::Verified(shown) ==> (head matches Some(oid) ==> shown
                        == oid.hex()) && (head is None ==> shown.len() == 0)
                    &&& outcome matches Ok(Some(detail)) ==> next == StageView::Unverified(
                        detail@,
                    )
                    &&& outcome matches Err(e) ==> next == StageView::Other(e.message())
                },
                _ => true,
            }
        }),
        stage is Unreachable || stage is Unusable || stage is Rejected || stage is Unverified
            || stage is Other || stage is Verified ==> next_stage(stage, event) == stage,
{
}

/// A failure keeps its own words unless git's answer alone tells of the ownership guard, and then
/// git's complaint and the repository are both named.
pub proof fn a_failure_keeps_its_words(
    repo: Path,
    failure: Seq<char>,
    probe: Result<Output, RunError>,
)
    ensures
        text::contains_text(failure, GUARD@) || probe is Err || (probe matches Ok(o)
            && !text::contains_text(octets::lossy(o.stderr@), GUARD@)) ==> explained(
            repo,
            failure,
            probe,
        ) == failure,
        probe matches Ok(o) ==> (!text::contains_text(failure, GUARD@) && text::contains_text(
            octets::lossy(o.stderr@),
            GUARD@,
        ) ==> text::has_suffix(explained(repo, failure, probe), o.complaint())
            && text::contains_text(explained(repo, failure, probe), plan::shown(repo))),
{
    if let Ok(o) = probe {
        if !text::contains_text(failure, GUARD@) && text::contains_text(
            octets::lossy(o.stderr@),
            GUARD@,
        ) {
            let a = "git will not use "@;
            let b = plan::shown(repo);
            let c = ": it is on a filesystem that records no ownership. "@;
            let all = a + b + c + o.complaint();
            assert(all.skip(all.len() - o.complaint().len()) =~= o.complaint());
            assert(all.subrange(a.len() as int, (a.len() + b.len()) as int) =~= b);
            assert(text::occurs_at(all, b, a.len() as int));
        }
    }
}

/// A glob names its directory, and a name there completes it exactly as if the name's middle stood
/// in place of the `*`.
pub proof fn a_star_stands_for_part_of_a_name(
    between: char,
    before: Seq<char>,
    lead: Seq<char>,
    middle: Seq<char>,
    tail: Seq<char>,
    after: Seq<char>,
)
    requires
        !before.contains('*'),
        !lead.contains('*'),
        !lead.contains(between),
        !tail.contains(between),
        between != '*',
        after.len() > 0,
    ensures
        ({
            let start = before + seq![between] + lead;
            glob_parts(between, start + seq!['*'] + tail + seq![between] + after) matches Some(
                parts,
            ) && {
                &&& parts.parent == before
                &&& parts.fits(lead + middle + tail)
                &&& parts.completed(lead + middle + tail) == start + middle + tail + seq![between]
                    + after
            }
        }),
        ({
            let start = before + seq![between] + lead;
            glob_parts(between, start + seq!['*'] + tail) matches Some(parts) && {
                &&& parts.parent == before
                &&& parts.fits(lead + middle + tail)
                &&& parts.completed(lead + middle + tail) == start + middle + tail
            }
        }),
{
    let start = before + seq![between] + lead;
    let name = lead + middle + tail;
    lemma_last_position(before, between, lead);
    assert forall|i: int| 0 <= i < start.len() implies start[i] != '*' by {
        if i < before.len() {
            assert(before.contains(before[i]));
        } else if i > before.len() {
            assert(lead.contains(lead[i - before.len() - 1]));
        }
    }
    let whole = start + seq!['*'] + tail + seq![between] + after;
    let rest = tail + seq![between] + after;
    text::lemma_position(whole, '*', start.len() as int);
    assert(whole.take(start.len() as int) =~= start);
    assert(whole.skip(start.len() as int + 1) =~= rest);
    assert forall|i: int| 0 <= i < tail.len() implies rest[i] != between by {
        assert(tail.contains(tail[i]));
    }
    text::lemma_position(rest, between, tail.len() as int);
    assert(rest.take(tail.len() as int) =~= tail);
    assert(rest.skip(tail.len() as int + 1) =~= after);
    assert(start.take(before.len() as int) =~= before);
    assert(start.skip(before.len() as int + 1) =~= lead);
    assert(name.take(lead.len() as int) =~= lead);
    assert(name.skip(name.len() - tail.len()) =~= tail);
    assert(before + seq![between] + name + seq![between] + after =~= start + middle + tail
        + seq![between] + after);
    let short = start + seq!['*'] + tail;
    text::lemma_position(short, '*', start.len() as int);
    assert(short.take(start.len() as int) =~= start);
    assert(short.skip(start.len() as int + 1) =~= tail);
    assert forall|i: int| 0 <= i < tail.len() implies tail[i] != between by {
        assert(tail.contains(tail[i]));
    }
    text::lemma_position(tail, between, tail.len() as int);
    assert(before + seq![between] + name =~= start + middle + tail);
}

proof fn lemma_last_position(before: Seq<char>, between: char, lead: Seq<char>)
    requires
        !lead.contains(between),
    ensures
        last_position(before + seq![between] + lead, between) == Some(before.len() as int),
    decreases lead.len(),
{
    let all = before + seq![between] + lead;
    if lead.len() == 0 {
        assert(all.last() == between);
    } else {
        assert(all.last() == lead.last());
        assert(lead.contains(lead.last()));
        assert(all.drop_last() =~= before + seq![between] + lead.drop_last());
        assert(!lead.drop_last().contains(between)) by {
            if lead.drop_last().contains(between) {
                let i = choose|i: int|
                    0 <= i < lead.drop_last().len() && lead.drop_last()[i] == between;
                assert(lead[i] == between);
            }
        }
        lemma_last_position(before, between, lead.drop_last());
    }
}

/// A name that fits a glob begins with what stands before the `*` and ends with what follows it.
pub proof fn a_fitting_name_has_both_ends(parts: GlobParts, name: Seq<char>)
    ensures
        parts.fits(name) == (parts.prefix.is_prefix_of(name) && parts.suffix.is_suffix_of(name)),
{
    if parts.prefix.is_prefix_of(name) {
        assert(name.take(parts.prefix.len() as int) =~= parts.prefix);
    }
    if text::has_prefix(name, parts.prefix) {
        assert(parts.prefix =~= name.subrange(0, parts.prefix.len() as int));
    }
    if parts.suffix.is_suffix_of(name) {
        assert(name.skip(name.len() - parts.suffix.len()) =~= parts.suffix);
    }
    if text::has_suffix(name, parts.suffix) {
        assert(parts.suffix =~= name.subrange(
            name.len() - parts.suffix.len(),
            name.len() as int,
        ));
    }
}

/// A glob resolves exactly where one name of the directory fits it, to what that name completes. No
/// name that fits leaves it unreachable, and two leave it ambiguous.
pub proof fn a_glob_resolves_to_the_one_that_fits(
    path: Path,
    names: Seq<Seq<char>>,
    out: Result<Vec<u8>, RemoteError>,
    parts: GlobParts,
)
    requires
        resolved_as(path, names, out),
        glob_parts(between_names(path), plan::shown(path)) == Some(parts),
        names.no_duplicates(),
    ensures
        out matches Ok(p) ==> exists|i: int|
            0 <= i < names.len() && parts.fits(#[trigger] names[i]) && p@ == encode_utf8(
                parts.completed(names[i]),
            ) && forall|j: int|
                0 <= j < names.len() && parts.fits(#[trigger] names[j]) ==> j == i,
        out matches Err(e) ==> (e is NoGlobMatch || e is AmbiguousGlob),
        (out matches Err(e) && e is NoGlobMatch) == (forall|i: int|
            0 <= i < names.len() ==> !parts.fits(#[trigger] names[i])),
        (out matches Err(e) && e is AmbiguousGlob) == (exists|i: int, j: int|
            0 <= i < j < names.len() && parts.fits(#[trigger] names[i]) && parts.fits(
                #[trigger] names[j],
            )),
{
    broadcast use vstd::seq_lib::group_to_multiset_ensures;

    let sorted = text::in_order(names);
    text::sorting_only_reorders(names);
    let n = names.len() as int;
    names.lemma_multiset_has_no_duplicates();
    sorted.lemma_multiset_has_no_duplicates_conv();
    lemma_matches(parts, sorted, n);
    let found = parts.matches(sorted, n);
    assert forall|i: int| 0 <= i < n implies sorted.contains(#[trigger] names[i]) by {
        assert(names.contains(names[i]));
        assert(names.to_multiset().count(names[i]) > 0);
    }
    assert forall|i: int| 0 <= i < n implies names.contains(#[trigger] sorted[i]) by {
        assert(sorted.contains(sorted[i]));
        assert(sorted.to_multiset().count(sorted[i]) > 0);
    }
    if found.len() == 0 {
        assert forall|i: int| 0 <= i < n implies !parts.fits(#[trigger] names[i]) by {
            let k = choose|k: int| 0 <= k < n && sorted[k] == names[i];
            assert(!parts.fits(sorted[k]));
        }
    } else if found.len() == 1 {
        let k = choose|k: int|
            0 <= k < n && parts.fits(#[trigger] sorted[k]) && found[0] == parts.completed(sorted[k])
                && forall|j: int| 0 <= j < n && parts.fits(#[trigger] sorted[j]) ==> j == k;
        let i = choose|i: int| 0 <= i < n && names[i] == sorted[k];
        assert forall|j: int| 0 <= j < n && parts.fits(#[trigger] names[j]) implies j == i by {
            let m = choose|m: int| 0 <= m < n && sorted[m] == names[j];
            assert(parts.fits(sorted[m]));
        }
        assert(parts.fits(names[i]));
    } else {
        let (a, b) = choose|a: int, b: int|
            0 <= a < b < n && parts.fits(#[trigger] sorted[a]) && parts.fits(#[trigger] sorted[b]);
        let i = choose|i: int| 0 <= i < n && names[i] == sorted[a];
        let j = choose|j: int| 0 <= j < n && names[j] == sorted[b];
        assert(i != j);
        assert(parts.fits(names[i]) && parts.fits(names[j]));
        if i < j {
        } else {
            assert(j < i);
        }
    }
}

proof fn lemma_matches(parts: GlobParts, names: Seq<Seq<char>>, n: int)
    requires
        0 <= n <= names.len(),
    ensures
        ({
            let found = parts.matches(names, n);
            &&& found.len() == 0 ==> forall|i: int| 0 <= i < n ==> !parts.fits(#[trigger] names[i])
            &&& found.len() == 1 ==> exists|k: int|
                0 <= k < n && parts.fits(#[trigger] names[k]) && found[0] == parts.completed(
                    names[k],
                ) && forall|j: int| 0 <= j < n && parts.fits(#[trigger] names[j]) ==> j == k
            &&& found.len() > 1 ==> exists|a: int, b: int|
                0 <= a < b < n && parts.fits(#[trigger] names[a]) && parts.fits(#[trigger] names[b])
            &&& found.len() >= 1 ==> exists|k: int| 0 <= k < n && parts.fits(#[trigger] names[k])
        }),
    decreases n,
{
    if n > 0 {
        lemma_matches(parts, names, n - 1);
        let before = parts.matches(names, n - 1);
        if parts.fits(names[n - 1]) {
            if before.len() == 0 {
                assert(parts.matches(names, n)[0] == parts.completed(names[n - 1]));
            } else {
                let k = choose|k: int| 0 <= k < n - 1 && parts.fits(#[trigger] names[k]);
                assert(parts.fits(names[k]) && parts.fits(names[n - 1]));
            }
        }
    }
}

/// What is compared after a push is what the push carried: the remote is asked for all it holds, and
/// the store for everything under the prefix of each refspec.
pub proof fn what_is_compared_is_what_was_pushed(store: Path, repo: Path, i: int)
    requires
        0 <= i < push_specs().len(),
    ensures
        ({
            let calls = compare_call_views(store, repo);
            &&& calls.len() == push_specs().len() + 1
            &&& calls[0].args.last() == plan::shown(repo)
            &&& calls[i + 1].args.last() + seq!['*'] == push_specs()[i].source
            &&& forall|k: int| 0 <= k < calls.len() ==> (#[trigger] calls[k]).at == Some(store)
        }),
{
    reveal_strlit("refs/heads/*");
    reveal_strlit("refs/tycho/*");
    reveal_strlit("refs/heads/");
    reveal_strlit("refs/tycho/");
    assert("refs/heads/"@ + seq!['*'] =~= "refs/heads/*"@);
    assert("refs/tycho/"@ + seq!['*'] =~= "refs/tycho/*"@);
}

/// A remote is created and configured in its own directory, and it is created before anything is
/// set.
pub proof fn a_remote_is_configured_where_it_is(repo: Path, i: int)
    requires
        0 <= i < initialise_calls(repo).len(),
    ensures
        initialise_calls(repo)[i].at == Some(repo),
        initialise_calls(repo)[i].args[0] == "init"@ <==> i == 0,
        initialise_calls(repo).last().args.last() == "refs/heads/main"@,
{
    reveal_strlit("init");
    reveal_strlit("config");
    reveal_strlit("symbolic-ref");
    assert("init"@.len() == 4 && "config"@.len() == 6 && "symbolic-ref"@.len() == 12);
}

/// What a remote is said to lack is told of each ref: that it is absent, or which id it has there
/// and which here.
pub proof fn every_fault_is_told(
    local: Seq<(Seq<char>, Oid)>,
    there: Map<Seq<char>, Oid>,
    n: int,
    i: int,
)
    requires
        0 <= i < n <= local.len(),
    ensures
        ({
            let faults = ref_faults(local, there, n);
            let (name, here) = local[i];
            &&& !there.contains_key(name) ==> faults.contains(name + " is absent"@)
            &&& there.contains_key(name) && there[name].0@ != here.0@ ==> faults.contains(
                name + " is "@ + there[name].hex() + " there and "@ + here.hex() + " here"@,
            )
        }),
    decreases n,
{
    let before = ref_faults(local, there, n - 1);
    let after = ref_faults(local, there, n);
    if i < n - 1 {
        every_fault_is_told(local, there, n - 1, i);
        assert forall|x: Seq<char>| before.contains(x) implies #[trigger] after.contains(x) by {
            let k = choose|k: int| 0 <= k < before.len() && before[k] == x;
            assert(after[k] == x);
        }
    } else {
        let (name, here) = local[i];
        if !there.contains_key(name) || there[name].0@ != here.0@ {
            assert(after[after.len() - 1] == ref_fault(name, here, held_by(there, name))->0);
        }
    }
}

/// A path without a `*` is resolved to itself, whatever its directory holds.
pub proof fn a_path_without_a_star_is_itself(
    path: Path,
    names: Seq<Seq<char>>,
    out: Result<Vec<u8>, RemoteError>,
)
    requires
        resolved_as(path, names, out),
        !plan::shown(path).contains('*'),
    ensures
        out matches Ok(p) && p@ == path::written(path),
{
    let shown = plan::shown(path);
    text::lemma_position_bounds(shown, '*');
    let at = text::position(shown, '*');
    if at < shown.len() {
        assert(shown[at] == '*');
        assert(shown.contains('*'));
    }
}

} // verus!
