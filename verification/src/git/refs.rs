//! Refs, and moving them between repositories.

use crate::git::repo::{Repo, RepoError};
use crate::lines;
use crate::plan;
use crate::primitives::names;
use crate::primitives::names::{RefName, RefNameError};
use crate::primitives::oid;
use crate::primitives::oid::{Oid, OidError};
use crate::primitives::path::AbsPath;
use crate::process;
use crate::process::{git, Call, Output, RunError, Timeout};
use crate::text;
use crate::text::{cat3, cat4, chars_of, ends_with, split_once, starts_with};
use crate::textmap::TextMap;
use vstd::prelude::*;

verus! {

/// `force` is a field rather than a `+` inside a string, because which refspecs may
/// be forced is the whole of it: forced on `refs/tycho/*`, never on `refs/heads/*`.
/// A leading `+` on the wrong one destroys another machine's backup history at
/// exit 0.
#[derive(Debug, PartialEq, Eq)]
pub struct Refspec {
    force: bool,
    source: String,
    destination: String,
}

/// A refspec's parts.
pub struct RefspecView {
    pub force: bool,
    pub source: Seq<char>,
    pub destination: Seq<char>,
}

impl View for Refspec {
    type V = RefspecView;

    closed spec fn view(&self) -> RefspecView {
        RefspecView { force: self.force, source: self.source@, destination: self.destination@ }
    }
}

impl RefspecView {
    /// A refspec as git reads it.
    pub open spec fn written(self) -> Seq<char> {
        if self.force {
            "+"@ + self.source + ":"@ + self.destination
        } else {
            self.source + ":"@ + self.destination
        }
    }
}

pub open spec fn refspec_texts(specs: Seq<Refspec>) -> Seq<Seq<char>> {
    specs.map_values(|s: Refspec| s@.written())
}

impl Refspec {
    #[must_use]
    pub fn fast_forward(source: &str, destination: &str) -> (out: Refspec)
        ensures
            out@ == (RefspecView { force: false, source: source@, destination: destination@ }),
    {
        Refspec {
            force: false,
            source: source.to_owned(),
            destination: destination.to_owned(),
        }
    }

    #[must_use]
    pub fn forced(source: &str, destination: &str) -> (out: Refspec)
        ensures
            out@ == (RefspecView { force: true, source: source@, destination: destination@ }),
    {
        Refspec { force: true, source: source.to_owned(), destination: destination.to_owned() }
    }

    #[must_use]
    pub fn is_forced(&self) -> (out: bool)
        ensures
            out == self@.force,
    {
        self.force
    }

    /// The refspec as git reads it.
    #[must_use]
    pub fn text(&self) -> (out: String)
        ensures
            out@ == self@.written(),
    {
        if self.force {
            cat4("+", &self.source, ":", &self.destination)
        } else {
            cat3(&self.source, ":", &self.destination)
        }
    }
}

/// Whether the remote took the push. A refusal is an answer rather than an error:
/// a non-fast-forward on `refs/heads/*` means a second machine is pushing this
/// profile name, which the caller classifies.
#[derive(Debug, PartialEq, Eq)]
pub enum PushOutcome {
    Accepted,
    Refused { detail: String },
}

/// What one printed line says.
pub enum RefLine {
    /// A ref and the id it names.
    Ref(Seq<char>, Seq<u8>),
    /// `HEAD`, or a peeled tag: neither is a ref that is ever pushed.
    Skipped,
    /// No tab parts an id from a name.
    Formless,
    /// The name is none that git would accept.
    BadName(Seq<char>),
    /// The id cannot be read.
    BadId(OidError),
}

pub open spec fn ref_line(line: Seq<char>) -> RefLine {
    match text::split_first(line, '\t') {
        None => RefLine::Formless,
        Some((id, name)) => if !text::has_prefix(name, "refs/"@) || text::has_suffix(
            name,
            "^{}"@,
        ) {
            RefLine::Skipped
        } else if !names::is_refname(name) {
            RefLine::BadName(name)
        } else {
            match oid::read_oid(id) {
                Ok(bytes) => RefLine::Ref(name, bytes),
                Err(e) => RefLine::BadId(e),
            }
        },
    }
}

pub open spec fn line_is_good(line: Seq<char>) -> bool {
    ref_line(line) is Ref || ref_line(line) is Skipped
}

/// Whether this is what a bad line is refused with.
pub open spec fn line_refused(line: Seq<char>, e: RepoError) -> bool {
    match ref_line(line) {
        RefLine::Formless => e matches RepoError::Unparsable(s) && s@ == line,
        RefLine::BadName(name) => e matches RepoError::Unparsable(s) && exists|why: RefNameError|
            why.refuses_path(name) && s@ == name + ": "@ + #[trigger] why.message(),
        RefLine::BadId(why) => e == RepoError::Oid(why),
        _ => false,
    }
}

/// The refs the first `n` lines name, the later line for a name that comes twice.
pub open spec fn refs_in(printed: Seq<Seq<char>>, n: int) -> Map<Seq<char>, Seq<u8>>
    decreases n,
{
    if n <= 0 {
        Map::empty()
    } else {
        match ref_line(printed[n - 1]) {
            RefLine::Ref(name, bytes) => refs_in(printed, n - 1).insert(name, bytes),
            _ => refs_in(printed, n - 1),
        }
    }
}

/// A map of refs with each id as its bytes.
pub open spec fn ids_of(refs: Map<Seq<char>, Oid>) -> Map<Seq<char>, Seq<u8>> {
    refs.map_values(|o: Oid| o.0@)
}

pub open spec fn first_bad_line(printed: Seq<Seq<char>>, at: int, e: RepoError) -> bool {
    &&& 0 <= at < printed.len()
    &&& forall|i: int| 0 <= i < at ==> line_is_good(#[trigger] printed[i])
    &&& line_refused(printed[at], e)
}

/// What a listing of refs came to.
pub open spec fn refs_read(
    printed: Seq<Seq<char>>,
    got: Result<TextMap<Oid>, RepoError>,
) -> bool {
    match got {
        Ok(refs) => {
            &&& forall|i: int| 0 <= i < printed.len() ==> line_is_good(#[trigger] printed[i])
            &&& ids_of(refs@) == refs_in(printed, printed.len() as int)
        },
        Err(e) => exists|at: int| #[trigger] first_bad_line(printed, at, e),
    }
}

/// Both `for-each-ref` and `ls-remote` print `<oid><tab><refname>`. `HEAD` and the
/// `^{}` peel lines are skipped: neither is a ref that is ever pushed, and neither
/// is a name `RefName` accepts.
///
/// # Errors
///
/// If a line is none of these.
pub fn parse_ref_lines(out: &Output) -> (got: Result<TextMap<Oid>, RepoError>)
    ensures
        refs_read(lines::lines_of(out.shown()), got),
{
    let shown = out.text();
    let printed = lines::lines(&shown);
    let ghost all = text::views(printed@);
    let mut refs: TextMap<Oid> = TextMap::new();
    let mut i: usize = 0;
    assert(ids_of(refs@) =~= refs_in(all, 0));
    while i < printed.len()
        invariant
            i <= printed@.len(),
            all == text::views(printed@),
            all == lines::lines_of(out.shown()),
            forall|j: int| 0 <= j < i ==> line_is_good(#[trigger] all[j]),
            ids_of(refs@) == refs_in(all, i as int),
        decreases printed@.len() - i,
    {
        let line = &printed[i];
        assert(all[i as int] == line@);
        let (id, name) = match split_once(line, '\t') {
            Some(parts) => parts,
            None => {
                let e = RepoError::Unparsable(line.clone());
                assert(first_bad_line(all, i as int, e));
                return Err(e);
            },
        };
        let chars = chars_of(&name);
        if starts_with(&chars, "refs/") && !ends_with(&chars, "^{}") {
            let parsed = match RefName::parse(&name) {
                Ok(parsed) => parsed,
                Err(why) => {
                    let e = RepoError::Unparsable(cat3(&name, ": ", &why.text()));
                    proof {
                        lemma_refused_name(name@, why);
                        assert(why.refuses_path(name@) && e->Unparsable_0@ == name@ + ": "@
                            + why.message());
                        assert(first_bad_line(all, i as int, e));
                    }
                    return Err(e);
                },
            };
            let oid = match Oid::parse(&id) {
                Ok(oid) => oid,
                Err(why) => {
                    let e = RepoError::Oid(why);
                    assert(first_bad_line(all, i as int, e));
                    return Err(e);
                },
            };
            let ghost before = refs@;
            refs.insert(name, oid);
            assert(ids_of(refs@) =~= ids_of(before).insert(name@, oid.0@));
        }
        i += 1;
    }
    Ok(refs)
}

proof fn lemma_refused_name(name: Seq<char>, why: RefNameError)
    requires
        text::has_prefix(name, "refs/"@),
        why.refuses_path(name),
    ensures
        !names::is_refname(name),
{
    names::lemma_refused_path(name, why);
}

impl Repo {
    /// The call that lists every ref under `prefix`.
    pub fn for_each_ref_call(&self, prefix: &str) -> (out: Call)
        ensures
            out@ == process::git_call(
                Some(self@),
                seq!["for-each-ref"@, "--format=%(objectname)\t%(refname)"@, prefix@],
                Timeout::Quick,
            ),
    {
        let args: Vec<&str> = vec!["for-each-ref", "--format=%(objectname)\t%(refname)", prefix];
        assert(process::str_views(args@) =~= seq![
            "for-each-ref"@,
            "--format=%(objectname)\t%(refname)"@,
            prefix@,
        ]);
        git(Some(self.path()), args, Timeout::Quick)
    }

    /// Every ref [`Repo::for_each_ref_call`] listed, keyed by name.
    ///
    /// # Errors
    ///
    /// If git failed or printed a line this cannot parse.
    pub fn for_each_ref(out: Result<Output, RunError>) -> (got: Result<TextMap<Oid>, RepoError>)
        ensures
            match out {
                Err(e) => got == Err::<TextMap<Oid>, RepoError>(RepoError::Run(e)),
                Ok(o) => refs_read(lines::lines_of(o.shown()), got),
            },
    {
        match out {
            Err(e) => Err(RepoError::Run(e)),
            Ok(out) => parse_ref_lines(&out),
        }
    }

    /// The call that moves a ref.
    pub fn update_ref(&self, name: &RefName, to: Oid) -> (out: Call)
        ensures
            out@ == process::git_call(
                Some(self@),
                seq!["update-ref"@, name@, to.hex()],
                Timeout::Quick,
            ),
    {
        let shown = to.text();
        let args: Vec<&str> = vec!["update-ref", name.as_str(), shown.as_str()];
        assert(process::str_views(args@) =~= seq!["update-ref"@, name@, to.hex()]);
        git(Some(self.path()), args, Timeout::Quick)
    }

    /// The call that fetches a source repository's refs into this one.
    ///
    /// `--no-tags` is load-bearing rather than tidy: without it git auto-follows
    /// tags into this repository's *own* `refs/tags/`, so two captured repositories
    /// that both tag `v1.0` fight over one ref, last fetch winning.
    ///
    /// There is deliberately no prune option. Captured history is reachable only
    /// through these refs, so a pruned ref is garbage rather than "still reachable
    /// from an older backup commit".
    pub fn fetch_refs(&self, from: &AbsPath, spec: &Refspec) -> (out: Call)
        ensures
            out@ == process::git_call(
                Some(self@),
                seq!["fetch"@, "--no-tags"@, "--quiet"@, plan::shown(from@), spec@.written()],
                Timeout::Work,
            ),
    {
        let shown = from.text();
        let written = spec.text();
        let args: Vec<&str> = vec![
            "fetch",
            "--no-tags",
            "--quiet",
            shown.as_str(),
            written.as_str(),
        ];
        assert(process::str_views(args@) =~= seq![
            "fetch"@,
            "--no-tags"@,
            "--quiet"@,
            plan::shown(from@),
            spec@.written(),
        ]);
        git(Some(self.path()), args, Timeout::Work)
    }

    /// The call that pushes to a bare repository in a folder.
    ///
    /// `--atomic` has no parameter because it is not a choice: without it a
    /// rejection on one ref family still lets the other land, leaving the remote
    /// half-clobbered.
    pub fn push_call(&self, to: &AbsPath, specs: &[Refspec]) -> (out: Call)
        ensures
            out@ == process::git_call(
                Some(self@),
                seq!["push"@, "--atomic"@, "--porcelain"@, plan::shown(to@)] + refspec_texts(
                    specs@,
                ),
                Timeout::Remote,
            ),
    {
        let shown = to.text();
        let args: Vec<&str> = vec!["push", "--atomic", "--porcelain", shown.as_str()];
        let ghost head = seq!["push"@, "--atomic"@, "--porcelain"@, plan::shown(to@)];
        assert(process::str_views(args@) =~= head);
        let mut call = git(Some(self.path()), args, Timeout::Remote);
        let ghost texts = refspec_texts(specs@);
        let mut i: usize = 0;
        assert(call@.args =~= head + texts.take(0));
        while i < specs.len()
            invariant
                i <= specs@.len(),
                texts == refspec_texts(specs@),
                call@ == process::git_call(
                    Some(self@),
                    head + texts.take(i as int),
                    Timeout::Remote,
                ),
            decreases specs@.len() - i,
        {
            call = call.arg(&specs[i].text());
            i += 1;
            assert(call@.args =~= head + texts.take(i as int));
        }
        assert(texts.take(i as int) =~= texts);
        call
    }

    /// What [`Repo::push_call`] came to.
    ///
    /// # Errors
    ///
    /// If git could not run at all. A refusal by the remote is [`PushOutcome::Refused`],
    /// not an error.
    pub fn push(out: Result<Output, RunError>) -> (got: Result<PushOutcome, RepoError>)
        ensures
            match out {
                Err(e) => got == Err::<PushOutcome, RepoError>(RepoError::Run(e)),
                Ok(o) => if o.success {
                    got == Ok::<PushOutcome, RepoError>(PushOutcome::Accepted)
                } else {
                    got matches Ok(PushOutcome::Refused { detail }) && detail@
                        == if o.complaint().len() > 0 {
                        o.complaint()
                    } else {
                        lines::trimmed(o.shown())
                    }
                },
            },
    {
        let out = match out {
            Err(e) => return Err(RepoError::Run(e)),
            Ok(out) => out,
        };
        if out.success {
            return Ok(PushOutcome::Accepted);
        }
        let detail = out.error_text();
        if detail.as_str().is_empty() {
            return Ok(PushOutcome::Refused { detail: out.trimmed() });
        }
        Ok(PushOutcome::Refused { detail })
    }

    /// The call that lists the refs a remote currently holds, for the verification that compares
    /// the full ref set rather than just heads. [`Repo::for_each_ref`] reads what it printed.
    pub fn ls_remote(&self, to: &AbsPath) -> (out: Call)
        ensures
            out@ == process::git_call(
                Some(self@),
                seq!["ls-remote"@, plan::shown(to@)],
                Timeout::Remote,
            ),
    {
        let shown = to.text();
        let args: Vec<&str> = vec!["ls-remote", shown.as_str()];
        assert(process::str_views(args@) =~= seq!["ls-remote"@, plan::shown(to@)]);
        git(Some(self.path()), args, Timeout::Remote)
    }
}

/// The call that lists every ref in a repository Tycho does not own.
///
/// A free function rather than a method, because [`Repo::open`] refuses anything not
/// mode `0700` - right for a store that holds gitignored content, wrong for a source
/// repository that is simply somebody's working copy.
pub fn list_refs(repo: &AbsPath) -> (out: Call)
    ensures
        out@ == process::git_call(
            Some(repo@),
            seq!["for-each-ref"@, "--format=%(objectname)\t%(refname)"@],
            Timeout::Quick,
        ),
{
    let args: Vec<&str> = vec!["for-each-ref", "--format=%(objectname)\t%(refname)"];
    assert(process::str_views(args@) =~= seq![
        "for-each-ref"@,
        "--format=%(objectname)\t%(refname)"@,
    ]);
    git(Some(repo), args, Timeout::Quick)
}

// ---------------------------------------------------------------------------
// Laws
// ---------------------------------------------------------------------------

/// A refspec is written with a plus sign exactly where it is forced, so no fast-forward can be
/// read as a force: its source names a ref, and no ref's name begins with a plus.
pub proof fn only_a_forced_refspec_is_written_with_a_plus(s: RefspecView)
    requires
        text::has_prefix(s.source, "refs/"@),
    ensures
        (s.written().len() > 0 && s.written()[0] == '+') == s.force,
{
    reveal_strlit("refs/");
    reveal_strlit("+");
    assert(s.source[0] == 'r') by {
        assert(s.source.take(5)[0] == 'r');
    }
}

/// A line as git prints it, an id and a name with a tab between, is read as that id and that name;
/// a peeled tag and what is no ref is passed over, and a line without a tab is no listing's.
pub proof fn a_ref_line_reads_back(bytes: Seq<u8>, name: Seq<char>)
    requires
        bytes.len() == 20,
    ensures
        ({
            let line = oid::hex_text(bytes) + seq!['\t'] + name;
            let peeled = "^{}"@.is_suffix_of(name);
            let under = "refs/"@.is_prefix_of(name);
            &&& (ref_line(line) is Skipped) == (peeled || !under)
            &&& under && !peeled && names::is_ref_path(name) ==> ref_line(line) == RefLine::Ref(
                name,
                bytes,
            )
            &&& under && !peeled && !names::is_ref_path(name) ==> ref_line(line)
                == RefLine::BadName(name)
        }),
        !name.contains('\t') ==> ref_line(name) is Formless,
{
    let hex = oid::hex_text(bytes);
    let line = hex + seq!['\t'] + name;
    oid::oid_round_trips(bytes);
    assert forall|i: int| 0 <= i < hex.len() implies line[i] != '\t' by {
        assert(line[i] == hex[i]);
        assert(hex[i] == oid::hex_lower(bytes[i / 2] / 16) || hex[i] == oid::hex_lower(
            bytes[i / 2] % 16,
        ));
    }
    text::lemma_position(line, '\t', hex.len() as int);
    assert(line.take(hex.len() as int) =~= hex);
    assert(line.skip(hex.len() as int + 1) =~= name);
    lemma_ends(name, "refs/"@, "^{}"@);
    if !name.contains('\t') {
        assert forall|i: int| 0 <= i < name.len() implies name[i] != '\t' by {
            if name[i] == '\t' {
                assert(name.contains('\t'));
            }
        }
        text::lemma_position(name, '\t', name.len() as int);
    }
}

proof fn lemma_ends(s: Seq<char>, a: Seq<char>, b: Seq<char>)
    ensures
        text::has_prefix(s, a) == a.is_prefix_of(s),
        text::has_suffix(s, b) == b.is_suffix_of(s),
{
    if text::has_prefix(s, a) {
        assert(a =~= s.subrange(0, a.len() as int));
    }
    if a.is_prefix_of(s) {
        assert(s.take(a.len() as int) =~= a);
    }
    if text::has_suffix(s, b) {
        assert(b =~= s.subrange(s.len() - b.len(), s.len() as int));
    }
    if b.is_suffix_of(s) {
        assert(s.skip(s.len() - b.len()) =~= b);
    }
}

/// A listing holds exactly the refs its lines name, each with the id of the last line that names
/// it.
pub proof fn a_listing_holds_what_its_lines_name(printed: Seq<Seq<char>>, n: int, name: Seq<char>)
    requires
        0 <= n <= printed.len(),
    ensures
        refs_in(printed, n).contains_key(name) == exists|i: int|
            0 <= i < n && (ref_line(#[trigger] printed[i]) matches RefLine::Ref(found, _) && found
                == name),
        forall|i: int|
            0 <= i < n && (ref_line(#[trigger] printed[i]) matches RefLine::Ref(found, _) && found
                == name) && (forall|j: int|
                i < j < n ==> !(ref_line(#[trigger] printed[j]) matches RefLine::Ref(found, _)
                    && found == name)) ==> refs_in(printed, n)[name] == ref_line(printed[i])->Ref_1,
    decreases n,
{
    if n > 0 {
        a_listing_holds_what_its_lines_name(printed, n - 1, name);
        let hit = ref_line(printed[n - 1]) matches RefLine::Ref(found, _) && found == name;
        if hit {
            assert forall|i: int|
                0 <= i < n && (ref_line(#[trigger] printed[i]) matches RefLine::Ref(found, _)
                    && found == name) && (forall|j: int|
                    i < j < n ==> !(ref_line(#[trigger] printed[j]) matches RefLine::Ref(found, _)
                        && found == name)) implies refs_in(printed, n)[name] == ref_line(
                printed[i],
            )->Ref_1 by {
                if i < n - 1 {
                    assert(ref_line(printed[n - 1]) matches RefLine::Ref(found, _) && found
                        == name);
                }
            }
        }
    }
}

} // verus!
