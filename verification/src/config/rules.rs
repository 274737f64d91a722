//! The rule tree: one algorithm, deepest match wins, ties broken by tier.
//!
//! Every rule is weighed against a path and each of its ancestors. A rule that matches deeper
//! beats one that matches shallower; at one depth an explicit path beats a glob and a glob
//! beats the junk list; at one depth and tier the operator's config beats a local file, and a
//! deeper local file beats a shallower one.

use crate::text;
use crate::octets;
use crate::config::local::{Entry, GlobEntry, LocalRules};
use crate::octets::same_bytes;
use crate::primitives::path::{AbsPath, SLASH};
use crate::text::{cat2, cat3, cat4, chars_of, find, join_text};
use globset::{Candidate, Glob, GlobSet, GlobSetBuilder};
use vstd::prelude::*;
use vstd::string::*;
use vstd::utf8::*;

verus! {

// ---------------------------------------------------------------------------
// The outside matcher
// ---------------------------------------------------------------------------

#[verifier::external_type_specification]
#[verifier::external_body]
pub struct ExGlobSet(globset::GlobSet);

#[verifier::external_type_specification]
#[verifier::external_body]
pub struct ExGlobSetBuilder(globset::GlobSetBuilder);

/// The patterns a set was built from, in order.
pub uninterp spec fn set_patterns(set: globset::GlobSet) -> Seq<Seq<char>>;

/// The patterns added to a builder so far, in order.
pub uninterp spec fn builder_patterns(builder: globset::GlobSetBuilder) -> Seq<Seq<char>>;

/// What `Glob::new` says of a pattern: nothing where it parses, its complaint where it does not.
pub uninterp spec fn glob_fault(pattern: Seq<char>) -> Option<Seq<char>>;

/// What `GlobSetBuilder::build` says of patterns that parse each on its own.
pub uninterp spec fn set_fault(patterns: Seq<Seq<char>>) -> Option<Seq<char>>;

/// Whether a pattern matches a path, as `GlobSet::matches_candidate` decides it.
pub uninterp spec fn glob_matches(pattern: Seq<char>, path: Seq<u8>) -> bool;

/// Calls `GlobSetBuilder::new`: a builder that holds no pattern yet.
#[verifier::external_body]
fn new_builder() -> (out: GlobSetBuilder)
    ensures
        builder_patterns(out).len() == 0,
{
    GlobSetBuilder::new()
}

/// Calls `Glob::new` and hands what it parsed to `GlobSetBuilder::add`, which puts it behind
/// the patterns already there. Where the pattern does not parse, the builder is left as it was
/// and the complaint comes back as text.
#[verifier::external_body]
fn add_glob(builder: &mut GlobSetBuilder, pattern: &str) -> (out: Result<(), String>)
    ensures
        match out {
            Ok(()) => glob_fault(pattern@) is None && builder_patterns(*final(builder))
                == builder_patterns(*old(builder)).push(pattern@),
            Err(e) => glob_fault(pattern@) == Some(e@) && *final(builder) == *old(builder),
        },
{
    let glob = Glob::new(pattern).map_err(|error| error.to_string())?;
    builder.add(glob);
    Ok(())
}

/// Calls `GlobSetBuilder::build`. The set holds the builder's patterns in their order. A
/// builder with no pattern always builds.
#[verifier::external_body]
fn build_set(builder: &GlobSetBuilder) -> (out: Result<GlobSet, String>)
    ensures
        match out {
            Ok(set) => set_fault(builder_patterns(*builder)) is None && set_patterns(set)
                == builder_patterns(*builder),
            Err(e) => set_fault(builder_patterns(*builder)) == Some(e@),
        },
        builder_patterns(*builder).len() == 0 ==> out is Ok,
{
    builder.build().map_err(|error| error.to_string())
}

/// Calls `GlobSet::matches_candidate` on `Candidate::from_bytes`: the index of every pattern
/// that matches, ascending, none twice.
#[verifier::external_body]
fn matching(set: &GlobSet, path: &[u8]) -> (out: Vec<usize>)
    ensures
        forall|i: int|
            0 <= i < out@.len() ==> (#[trigger] out@[i]) < set_patterns(*set).len()
                && glob_matches(set_patterns(*set)[out@[i] as int], path@),
        forall|i: int, j: int| 0 <= i < j < out@.len() ==> #[trigger] out@[i] < #[trigger] out@[j],
        forall|k: usize|
            k < set_patterns(*set).len() && glob_matches(
                #[trigger] set_patterns(*set)[k as int],
                path@,
            ) ==> out@.contains(k),
{
    set.matches_candidate(&Candidate::from_bytes(path))
}

/// One character as it has to be written to stand for itself in a glob.
pub open spec fn glob_literal_char(c: char) -> Seq<char> {
    if c == '?' || c == '*' || c == '[' || c == ']' || c == '{' || c == '}' {
        seq!['[', c, ']']
    } else {
        seq![c]
    }
}

/// A text as it has to be written to stand for itself in a glob.
pub open spec fn glob_literal(s: Seq<char>) -> Seq<char>
    decreases s.len(),
{
    if s.len() == 0 {
        Seq::empty()
    } else {
        glob_literal(s.drop_last()) + glob_literal_char(s.last())
    }
}

/// Calls `globset::escape`, which puts each of `?*[]{}` in brackets and leaves every other
/// character as it is.
#[verifier::external_body]
fn escape_glob(s: &str) -> (out: String)
    ensures
        out@ == glob_literal(s@),
{
    globset::escape(s)
}

// ---------------------------------------------------------------------------
// Types
// ---------------------------------------------------------------------------

/// One default ignore. A `Name` is a whole path component compared for equality, so
/// `out` cannot reach `output`; a `Glob` is a pattern matched against one component.
/// Which of the two an entry is belongs in the type, because an entry that was meant
/// as a name and silently behaved as a pattern would take files nobody named.
#[derive(Clone, Copy, Debug, PartialEq, Eq)]
pub enum Junk {
    Name(&'static str),
    Glob(&'static str),
}

/// Tier, strongest last. A tie at equal depth is broken by this and nothing else.
#[derive(Clone, Copy, Debug, PartialEq, Eq, PartialOrd, Ord, Structural)]
pub enum Tier {
    Junk,
    Glob,
    ExplicitPath,
}

#[derive(Clone, Copy, Debug, PartialEq, Eq, Structural)]
pub enum Verdict {
    Capture,
    Skip,
}

/// Where a rule came from, and how much authority that gives it when two rules
/// name the same path at the same tier and depth. Ordered: junk loses to a local
/// file, a deeper local file beats a shallower one, and the operator's own config
/// beats every local file, so a repository's rules can always be overridden
/// without editing the repository.
#[derive(Clone, Copy, Debug, PartialEq, Eq, PartialOrd, Ord, Structural)]
pub enum Origin {
    Junk,
    /// Depth of the directory holding the `.tycho` that declared the rule.
    Local(usize),
    Global,
}

/// One rule's identity in the tree's arena, so a `Decision` costs a copy rather
/// than a clone of the rule's text in the hottest loop in the program.
#[derive(Clone, Copy, Debug, PartialEq, Eq, PartialOrd, Ord, Structural)]
pub struct RuleId(pub usize);

/// What an id resolves to when a person needs to read the rule.
#[derive(Debug, PartialEq, Eq)]
pub struct RuleMeta {
    /// As written in its file, not as expanded.
    pub text: String,
    pub source: Source,
}

/// The file a rule was written in. A `Local` carries the line so `rules explain`
/// can point at it; the junk list is compiled in and has no file.
#[derive(Debug, PartialEq, Eq)]
pub enum Source {
    Junk,
    Global,
    Local { file: AbsPath, line: u32 },
}

/// Which rule decided, and how deep it matched. Returned rather than a bare verdict
/// so `--dry-run` can name the rule that excluded a path and `config check` can
/// report a rule that matched nothing.
#[derive(Clone, Copy, Debug, PartialEq, Eq, Structural)]
pub struct Decision {
    pub verdict: Verdict,
    pub tier: Tier,
    pub depth: usize,
    pub origin: Origin,
    /// `None` when no rule matched anywhere along the path.
    pub rule: Option<RuleId>,
}

#[derive(Debug, PartialEq, Eq)]
pub enum RuleError {
    BadGlob { pattern: String, reason: String },
}

/// An explicit path and what is to happen to it.
#[derive(Debug)]
struct ExplicitRule {
    path: AbsPath,
    verdict: Verdict,
    id: RuleId,
    origin: Origin,
}

#[derive(Debug)]
struct JunkName {
    name: &'static str,
    id: RuleId,
}

/// One local file's compiled globs. The patterns are anchored to the declaring
/// directory when they are built, so matching needs no base check here.
#[derive(Debug)]
struct LocalGlobSet {
    /// The declaring directory's depth, which is the rules' origin.
    depth: usize,
    set: GlobSet,
    ids: Vec<RuleId>,
}

/// Explicit paths resolve by lookup, globs by two batch matchers.
#[derive(Debug)]
pub struct RuleTree {
    explicit: Vec<ExplicitRule>,
    globs: GlobSet,
    glob_ids: Vec<RuleId>,
    junk_names: Vec<JunkName>,
    junk_globs: GlobSet,
    junk_glob_ids: Vec<RuleId>,
    local_globs: Vec<LocalGlobSet>,
    metas: Vec<RuleMeta>,
}

/// The inputs, already expanded and validated by layer 0.
#[derive(Debug)]
pub struct RuleSet {
    pub watch: Vec<AbsPath>,
    pub ignore_paths: Vec<AbsPath>,
    pub reinclude: Vec<AbsPath>,
    pub ignore_globs: Vec<String>,
    pub junk: Vec<Junk>,
}

impl Default for RuleSet {
    fn default() -> (out: Self)
        ensures
            out.watch@.len() == 0,
            out.ignore_paths@.len() == 0,
            out.reinclude@.len() == 0,
            out.ignore_globs@.len() == 0,
            out.junk@.len() == 0,
    {
        RuleSet {
            watch: Vec::new(),
            ignore_paths: Vec::new(),
            reinclude: Vec::new(),
            ignore_globs: Vec::new(),
            junk: Vec::new(),
        }
    }
}

/// Which of the rules a person wrote fired during a walk. The junk list is not
/// tracked: the report of unfired rules excludes it on purpose, so recording it would be state
/// with no reader.
#[derive(Debug)]
pub struct Hits {
    /// Global glob rules that fired, by index.
    pub globs: Vec<usize>,
    /// Local glob rules that fired, by id.
    pub local: Vec<RuleId>,
}

impl Default for Hits {
    fn default() -> (out: Self)
        ensures
            out.globs@.len() == 0,
            out.local@.len() == 0,
    {
        Hits { globs: Vec::new(), local: Vec::new() }
    }
}

// ---------------------------------------------------------------------------
// Order
// ---------------------------------------------------------------------------

pub open spec fn tier_rank(t: Tier) -> int {
    match t {
        Tier::Junk => 0,
        Tier::Glob => 1,
        Tier::ExplicitPath => 2,
    }
}

/// Whether `a` has less authority than `b`.
pub open spec fn origin_less(a: Origin, b: Origin) -> bool {
    match (a, b) {
        (Origin::Junk, Origin::Junk) => false,
        (Origin::Junk, _) => true,
        (Origin::Local(x), Origin::Local(y)) => x < y,
        (Origin::Local(_), Origin::Global) => true,
        _ => false,
    }
}

/// Whether `c` outranks `b`: by depth, then tier, then origin.
pub open spec fn beats(c: Decision, b: Decision) -> bool {
    ||| c.depth > b.depth
    ||| c.depth == b.depth && tier_rank(c.tier) > tier_rank(b.tier)
    ||| c.depth == b.depth && c.tier == b.tier && origin_less(b.origin, c.origin)
}

/// Resolution's starting point: nothing has matched, so the verdict is skip.
pub open spec fn nothing() -> Decision {
    Decision {
        verdict: Verdict::Skip,
        tier: Tier::Junk,
        depth: 0,
        origin: Origin::Junk,
        rule: None,
    }
}

/// The better of two, the first where neither outranks the other.
pub open spec fn weighed(best: Decision, candidate: Option<Decision>) -> Decision {
    match candidate {
        Some(c) => if beats(c, best) {
            c
        } else {
            best
        },
        None => best,
    }
}

impl Decision {
    /// Resolution's starting point: nothing has matched, so the verdict is skip.
    pub fn none() -> (out: Decision)
        ensures
            out == nothing(),
    {
        Decision {
            verdict: Verdict::Skip,
            tier: Tier::Junk,
            depth: 0,
            origin: Origin::Junk,
            rule: None,
        }
    }
}

fn rank(t: Tier) -> (out: u8)
    ensures
        out == tier_rank(t),
{
    match t {
        Tier::Junk => 0,
        Tier::Glob => 1,
        Tier::ExplicitPath => 2,
    }
}

fn has_less_authority(a: Origin, b: Origin) -> (out: bool)
    ensures
        out == origin_less(a, b),
{
    match (a, b) {
        (Origin::Junk, Origin::Junk) => false,
        (Origin::Junk, _) => true,
        (Origin::Local(x), Origin::Local(y)) => x < y,
        (Origin::Local(_), Origin::Global) => true,
        _ => false,
    }
}

/// The better of the best so far and one more candidate.
pub fn consider(best: Decision, candidate: Option<Decision>) -> (out: Decision)
    ensures
        out == weighed(best, candidate),
{
    match candidate {
        Some(c) => {
            if c.depth > best.depth || (c.depth == best.depth && rank(c.tier) > rank(best.tier))
                || (c.depth == best.depth && c.tier == best.tier && has_less_authority(
                best.origin,
                c.origin,
            )) {
                c
            } else {
                best
            }
        },
        None => best,
    }
}

// ---------------------------------------------------------------------------
// The model
// ---------------------------------------------------------------------------

pub type Path = Seq<Seq<u8>>;

/// What is to happen to an explicit path, and which rule says so.
pub struct Held {
    pub verdict: Verdict,
    pub id: RuleId,
    pub origin: Origin,
}

pub enum SourceView {
    Junk,
    Global,
    Local { file: Path, line: u32 },
}

pub struct MetaView {
    pub text: Seq<char>,
    pub source: SourceView,
}

/// One local file's globs: its directory's depth, the patterns compiled, and their ids.
pub struct LocalModel {
    pub depth: usize,
    pub patterns: Seq<Seq<char>>,
    pub ids: Seq<RuleId>,
}

/// What a tree holds.
#[verifier::ext_equal]
pub struct TreeModel {
    pub explicit: Map<Path, Held>,
    pub globs: Seq<Seq<char>>,
    pub glob_ids: Seq<RuleId>,
    pub junk_names: Seq<(Seq<char>, RuleId)>,
    pub junk_globs: Seq<Seq<char>>,
    pub junk_glob_ids: Seq<RuleId>,
    pub locals: Seq<LocalModel>,
    pub metas: Seq<MetaView>,
}

impl View for Source {
    type V = SourceView;

    open spec fn view(&self) -> SourceView {
        match self {
            Source::Junk => SourceView::Junk,
            Source::Global => SourceView::Global,
            Source::Local { file, line } => SourceView::Local { file: file@, line: *line },
        }
    }
}

impl View for RuleMeta {
    type V = MetaView;

    open spec fn view(&self) -> MetaView {
        MetaView { text: self.text@, source: self.source@ }
    }
}

pub open spec fn meta_views(metas: Seq<RuleMeta>) -> Seq<MetaView> {
    metas.map_values(|m: RuleMeta| m@)
}

pub open spec fn path_views(paths: Seq<AbsPath>) -> Seq<Path> {
    paths.map_values(|p: AbsPath| p@)
}

/// The rules in a list, the later of two for one path.
spec fn explicit_map(rules: Seq<ExplicitRule>) -> Map<Path, Held>
    decreases rules.len(),
{
    if rules.len() == 0 {
        Map::empty()
    } else {
        let r = rules.last();
        explicit_map(rules.drop_last()).insert(
            r.path@,
            Held { verdict: r.verdict, id: r.id, origin: r.origin },
        )
    }
}

spec fn junk_name_views(names: Seq<JunkName>) -> Seq<(Seq<char>, RuleId)> {
    names.map_values(|n: JunkName| (n.name@, n.id))
}

spec fn local_view(l: LocalGlobSet) -> LocalModel {
    LocalModel { depth: l.depth, patterns: set_patterns(l.set), ids: l.ids@ }
}

spec fn local_views(locals: Seq<LocalGlobSet>) -> Seq<LocalModel> {
    locals.map_values(|l: LocalGlobSet| local_view(l))
}

impl View for RuleTree {
    type V = TreeModel;

    closed spec fn view(&self) -> TreeModel {
        TreeModel {
            explicit: explicit_map(self.explicit@),
            globs: set_patterns(self.globs),
            glob_ids: self.glob_ids@,
            junk_names: junk_name_views(self.junk_names@),
            junk_globs: set_patterns(self.junk_globs),
            junk_glob_ids: self.junk_glob_ids@,
            locals: local_views(self.local_globs@),
            metas: meta_views(self.metas@),
        }
    }
}

pub open spec fn ids_in(ids: Seq<RuleId>, n: nat) -> bool {
    forall|i: int| 0 <= i < ids.len() ==> (#[trigger] ids[i]).0 < n
}

impl TreeModel {
    /// Every pattern has its id, and every id its rule.
    pub open spec fn wf(self) -> bool {
        &&& self.globs.len() == self.glob_ids.len()
        &&& self.junk_globs.len() == self.junk_glob_ids.len()
        &&& ids_in(self.glob_ids, self.metas.len())
        &&& ids_in(self.junk_glob_ids, self.metas.len())
        &&& forall|p: Path|
            self.explicit.dom().contains(p) ==> (#[trigger] self.explicit[p]).id.0
                < self.metas.len()
        &&& forall|i: int|
            0 <= i < self.junk_names.len() ==> (#[trigger] self.junk_names[i]).1.0
                < self.metas.len()
        &&& forall|i: int|
            0 <= i < self.locals.len() ==> (#[trigger] self.locals[i]).patterns.len()
                == self.locals[i].ids.len() && ids_in(self.locals[i].ids, self.metas.len())
    }

    /// The last junk name that is this component, where there is one.
    pub open spec fn junk_named(self, component: Seq<u8>, n: int) -> Option<RuleId>
        decreases n,
    {
        if n <= 0 {
            None
        } else if encode_utf8(self.junk_names[n - 1].0) == component {
            Some(self.junk_names[n - 1].1)
        } else {
            self.junk_named(component, n - 1)
        }
    }

    /// What the explicit rules say of a path.
    pub open spec fn explicit_candidate(self, prefix: Path, depth: usize) -> Option<Decision> {
        if self.explicit.dom().contains(prefix) {
            let held = self.explicit[prefix];
            Some(
                Decision {
                    verdict: held.verdict,
                    tier: Tier::ExplicitPath,
                    depth,
                    origin: held.origin,
                    rule: Some(held.id),
                },
            )
        } else {
            None
        }
    }

    /// The candidates of the first `n` local files weighed one after another.
    pub open spec fn locals_weighed(self, best: Decision, path: Seq<u8>, depth: usize, n: int) -> Decision
        decreases n,
    {
        if n <= 0 {
            best
        } else {
            let l = self.locals[n - 1];
            weighed(
                self.locals_weighed(best, path, depth, n - 1),
                skip_by(first_match(l.patterns, l.ids, path), Tier::Glob, depth, Origin::Local(l.depth)),
            )
        }
    }

    /// One step of resolution: every rule that matches the path itself, weighed against the
    /// best that its parent's chain produced.
    pub open spec fn step(
        self,
        best: Decision,
        prefix: Path,
        component: Seq<u8>,
        depth: usize,
    ) -> Decision {
        let path = crate::primitives::path::slashed(prefix);
        let by_path = weighed(best, self.explicit_candidate(prefix, depth));
        let by_name = weighed(
            by_path,
            skip_by(
                self.junk_named(component, self.junk_names.len() as int),
                Tier::Junk,
                depth,
                Origin::Junk,
            ),
        );
        let by_glob = weighed(
            by_name,
            skip_by(first_match(self.globs, self.glob_ids, path), Tier::Glob, depth, Origin::Global),
        );
        let by_junk = weighed(
            by_glob,
            skip_by(
                first_match(self.junk_globs, self.junk_glob_ids, path),
                Tier::Junk,
                depth,
                Origin::Junk,
            ),
        );
        self.locals_weighed(by_junk, path, depth, self.locals.len() as int)
    }

    /// The first `n` steps down a path. The root is the first of them.
    pub open spec fn resolved_to(self, path: Path, n: int) -> Decision
        decreases n,
    {
        if n <= 0 {
            nothing()
        } else {
            self.step(
                self.resolved_to(path, n - 1),
                path.take(n - 1),
                component_of(path, n - 1),
                n as usize,
            )
        }
    }

    /// What every rule says of a path and its ancestors.
    pub open spec fn resolved(self, path: Path) -> Decision {
        self.resolved_to(path, path.len() as int + 1)
    }

    /// Whether some path at or beneath `dir` is explicitly captured.
    pub open spec fn may_capture_under(self, dir: Path) -> bool {
        exists|p: Path|
            #[trigger] self.explicit.dom().contains(p) && crate::primitives::path::holds_path(dir, p)
                && self.explicit[p].verdict == Verdict::Capture
    }
}

/// The name of the `n`th directory on the way down a path; the root is named by its slash.
pub open spec fn component_of(path: Path, n: int) -> Seq<u8> {
    if n <= 0 {
        seq![SLASH]
    } else {
        path[n - 1]
    }
}

/// The id of the first pattern that matches.
pub open spec fn first_match(patterns: Seq<Seq<char>>, ids: Seq<RuleId>, path: Seq<u8>) -> Option<RuleId>
    decreases patterns.len(),
{
    if patterns.len() == 0 {
        None
    } else if glob_matches(patterns[0], path) {
        Some(ids[0])
    } else {
        first_match(patterns.skip(1), ids.skip(1), path)
    }
}

/// A rule that says to skip what it matched.
pub open spec fn skip_by(rule: Option<RuleId>, tier: Tier, depth: usize, origin: Origin) -> Option<
    Decision,
> {
    match rule {
        Some(id) => Some(
            Decision { verdict: Verdict::Skip, tier, depth, origin, rule: Some(id) },
        ),
        None => None,
    }
}

/// The explicit paths of a config, from `first` on in the arena.
pub open spec fn held_paths(
    before: Map<Path, Held>,
    paths: Seq<Path>,
    verdict: Verdict,
    first: int,
) -> Map<Path, Held>
    decreases paths.len(),
{
    if paths.len() == 0 {
        before
    } else {
        held_paths(before, paths.drop_last(), verdict, first).insert(
            paths.last(),
            Held {
                verdict,
                id: RuleId((first + paths.len() - 1) as usize),
                origin: Origin::Global,
            },
        )
    }
}

pub open spec fn path_metas(paths: Seq<Path>) -> Seq<MetaView> {
    paths.map_values(
        |p: Path| MetaView { text: octets::lossy(crate::primitives::path::written(p)), source: SourceView::Global },
    )
}

pub open spec fn junk_text(j: Junk) -> Seq<char> {
    match j {
        Junk::Name(s) => s@,
        Junk::Glob(s) => s@,
    }
}

pub open spec fn junk_metas(junk: Seq<Junk>) -> Seq<MetaView> {
    junk.map_values(|j: Junk| MetaView { text: junk_text(j), source: SourceView::Junk })
}

pub open spec fn glob_metas(globs: Seq<Seq<char>>) -> Seq<MetaView> {
    globs.map_values(|g: Seq<char>| MetaView { text: g, source: SourceView::Global })
}

/// The junk names of a list whose first entry is rule `first`.
pub open spec fn junk_name_rules(junk: Seq<Junk>, first: int) -> Seq<(Seq<char>, RuleId)>
    decreases junk.len(),
{
    if junk.len() == 0 {
        Seq::empty()
    } else {
        let before = junk_name_rules(junk.drop_last(), first);
        match junk.last() {
            Junk::Name(s) => before.push((s@, RuleId((first + junk.len() - 1) as usize))),
            Junk::Glob(_) => before,
        }
    }
}

/// The junk globs of a list.
pub open spec fn junk_glob_texts(junk: Seq<Junk>) -> Seq<Seq<char>>
    decreases junk.len(),
{
    if junk.len() == 0 {
        Seq::empty()
    } else {
        let before = junk_glob_texts(junk.drop_last());
        match junk.last() {
            Junk::Name(_) => before,
            Junk::Glob(s) => before.push(s@),
        }
    }
}

pub open spec fn junk_glob_rules(junk: Seq<Junk>, first: int) -> Seq<RuleId>
    decreases junk.len(),
{
    if junk.len() == 0 {
        Seq::empty()
    } else {
        let before = junk_glob_rules(junk.drop_last(), first);
        match junk.last() {
            Junk::Name(_) => before,
            Junk::Glob(_) => before.push(RuleId((first + junk.len() - 1) as usize)),
        }
    }
}

/// Consecutive ids.
pub open spec fn id_range(first: int, n: nat) -> Seq<RuleId> {
    Seq::new(n, |i: int| RuleId((first + i) as usize))
}

/// A pattern with no separator matches a basename at any level, so it is anchored
/// with `**/`.
pub open spec fn unrooted(pattern: Seq<char>) -> Seq<char> {
    if pattern.contains('/') {
        pattern
    } else {
        "**/"@ + pattern
    }
}

pub open spec fn all_unrooted(patterns: Seq<Seq<char>>) -> Seq<Seq<char>> {
    patterns.map_values(|p: Seq<char>| unrooted(p))
}

/// What a pattern list compiles to: nothing wrong, or the pattern complained of and the
/// complaint.
pub open spec fn compile_fault(patterns: Seq<Seq<char>>) -> Option<(Seq<char>, Seq<char>)> {
    match first_fault(patterns) {
        Some(fault) => Some(fault),
        None => match set_fault(all_unrooted(patterns)) {
            Some(reason) => Some((text::join(patterns, ", "@), reason)),
            None => None,
        },
    }
}

/// The first pattern that does not parse.
pub open spec fn first_fault(patterns: Seq<Seq<char>>) -> Option<(Seq<char>, Seq<char>)>
    decreases patterns.len(),
{
    if patterns.len() == 0 {
        None
    } else {
        match first_fault(patterns.drop_last()) {
            Some(fault) => Some(fault),
            None => match glob_fault(unrooted(patterns.last())) {
                Some(reason) => Some((patterns.last(), reason)),
                None => None,
            },
        }
    }
}

/// What is wrong with the patterns of a rule set: the written globs first, then the junk.
pub open spec fn build_fault(globs: Seq<Seq<char>>, junk: Seq<Junk>) -> Option<
    (Seq<char>, Seq<char>),
> {
    match compile_fault(globs) {
        Some(fault) => Some(fault),
        None => compile_fault(junk_glob_texts(junk)),
    }
}

/// The tree that a rule set builds.
pub open spec fn built(
    watch: Seq<Path>,
    reinclude: Seq<Path>,
    ignore: Seq<Path>,
    globs: Seq<Seq<char>>,
    junk: Seq<Junk>,
) -> TreeModel {
    let w = watch.len() as int;
    let r = reinclude.len() as int;
    let i = ignore.len() as int;
    let j = junk.len() as int;
    TreeModel {
        explicit: held_paths(
            held_paths(
                held_paths(Map::empty(), watch, Verdict::Capture, 0),
                reinclude,
                Verdict::Capture,
                w,
            ),
            ignore,
            Verdict::Skip,
            w + r,
        ),
        globs: all_unrooted(globs),
        glob_ids: id_range(w + r + i + j, globs.len()),
        junk_names: junk_name_rules(junk, w + r + i),
        junk_globs: all_unrooted(junk_glob_texts(junk)),
        junk_glob_ids: junk_glob_rules(junk, w + r + i),
        locals: Seq::empty(),
        metas: path_metas(watch) + path_metas(reinclude) + path_metas(ignore) + junk_metas(junk)
            + glob_metas(globs),
    }
}

impl RuleError {
    pub open spec fn message(self) -> Seq<char> {
        match self {
            RuleError::BadGlob { pattern, reason } => "'"@ + pattern@ + "' is not a valid glob: "@
                + reason@,
        }
    }

    pub open spec fn is_fault(self, fault: (Seq<char>, Seq<char>)) -> bool {
        match self {
            RuleError::BadGlob { pattern, reason } => pattern@ == fault.0 && reason@ == fault.1,
        }
    }

    pub fn text(&self) -> (out: String)
        ensures
            out@ == self.message(),
    {
        match self {
            RuleError::BadGlob { pattern, reason } => cat4(
                "'",
                pattern,
                "' is not a valid glob: ",
                reason,
            ),
        }
    }
}

// ---------------------------------------------------------------------------
// Building
// ---------------------------------------------------------------------------

/// The first fault among some patterns stays the first among more of them.
proof fn lemma_first_fault(patterns: Seq<Seq<char>>, n: int)
    requires
        0 <= n <= patterns.len(),
        first_fault(patterns.take(n)) is Some,
    ensures
        first_fault(patterns) == first_fault(patterns.take(n)),
    decreases patterns.len() - n,
{
    if n < patterns.len() {
        assert(patterns.take(n + 1).drop_last() =~= patterns.take(n));
        lemma_first_fault(patterns, n + 1);
    } else {
        assert(patterns.take(n) =~= patterns);
    }
}

fn holds_slash(s: &str) -> (out: bool)
    ensures
        out == s@.contains('/'),
{
    let cs = chars_of(s);
    proof {
        crate::text::lemma_position_bounds(cs@, '/');
    }
    find(&cs, '/').is_some()
}

/// A pattern with no separator matches a basename at any level, so it is anchored
/// with `**/`. That is what makes `*.log` match `~/A/s/keep/a.log` at the file's own
/// depth rather than not at all.
fn compile(patterns: &[String]) -> (out: Result<GlobSet, RuleError>)
    ensures
        match out {
            Ok(set) => compile_fault(text::views(patterns@)) is None && set_patterns(set)
                == all_unrooted(text::views(patterns@)),
            Err(e) => compile_fault(text::views(patterns@)) is Some && e.is_fault(
                compile_fault(text::views(patterns@))->0,
            ),
        },
{
    let ghost all = text::views(patterns@);
    let mut builder = new_builder();
    let mut i: usize = 0;
    proof {
        assert(builder_patterns(builder) =~= all_unrooted(all.take(0)));
    }
    while i < patterns.len()
        invariant
            i <= patterns@.len(),
            all == text::views(patterns@),
            builder_patterns(builder) == all_unrooted(all.take(i as int)),
            first_fault(all.take(i as int)) is None,
        decreases patterns@.len() - i,
    {
        let pattern = &patterns[i];
        let anchored = if holds_slash(pattern) {
            pattern.clone()
        } else {
            cat2("**/", pattern)
        };
        let ghost before = builder_patterns(builder);
        proof {
            assert(all.take(i + 1).drop_last() =~= all.take(i as int));
            assert(all.take(i + 1).last() == pattern@);
        }
        match add_glob(&mut builder, &anchored) {
            Ok(()) => {
                assert(builder_patterns(builder) =~= all_unrooted(all.take(i + 1)));
            },
            Err(reason) => {
                proof {
                    lemma_first_fault(all, i + 1);
                }
                return Err(RuleError::BadGlob { pattern: pattern.clone(), reason });
            },
        }
        i += 1;
    }
    assert(all.take(i as int) =~= all);
    match build_set(&builder) {
        Ok(set) => Ok(set),
        Err(reason) => Err(RuleError::BadGlob { pattern: join_text(patterns, ", "), reason }),
    }
}

fn intern(metas: &mut Vec<RuleMeta>, text: String, source: Source) -> (out: RuleId)
    ensures
        out.0 == old(metas)@.len(),
        meta_views(final(metas)@) == meta_views(old(metas)@).push(
            MetaView { text: text@, source: source@ },
        ),
{
    let id = RuleId(metas.len());
    let ghost before = meta_views(metas@);
    metas.push(RuleMeta { text, source });
    assert(meta_views(metas@) =~= before.push(MetaView { text: text@, source: source@ }));
    id
}

fn hold(
    explicit: &mut Vec<ExplicitRule>,
    path: &AbsPath,
    verdict: Verdict,
    id: RuleId,
    origin: Origin,
)
    ensures
        explicit_map(final(explicit)@) == explicit_map(old(explicit)@).insert(
            path@,
            Held { verdict, id, origin },
        ),
{
    let ghost before = explicit@;
    explicit.push(ExplicitRule { path: path.clone(), verdict, id, origin });
    assert(explicit@.drop_last() =~= before);
}

fn hold_all(
    explicit: &mut Vec<ExplicitRule>,
    metas: &mut Vec<RuleMeta>,
    paths: &[AbsPath],
    verdict: Verdict,
)
    ensures
        explicit_map(final(explicit)@) == held_paths(
            explicit_map(old(explicit)@),
            path_views(paths@),
            verdict,
            old(metas)@.len() as int,
        ),
        meta_views(final(metas)@) == meta_views(old(metas)@) + path_metas(path_views(paths@)),
{
    let ghost all = path_views(paths@);
    let ghost first = metas@.len() as int;
    let ghost held = explicit_map(explicit@);
    let ghost known = meta_views(metas@);
    let mut i: usize = 0;
    proof {
        assert(all.take(0) =~= Seq::<Path>::empty());
        assert(known + path_metas(all.take(0)) =~= known);
    }
    while i < paths.len()
        invariant
            i <= paths@.len(),
            all == path_views(paths@),
            first == known.len(),
            metas@.len() == first + i,
            explicit_map(explicit@) == held_paths(held, all.take(i as int), verdict, first),
            meta_views(metas@) == known + path_metas(all.take(i as int)),
        decreases paths@.len() - i,
    {
        let path = &paths[i];
        let ghost before = meta_views(metas@);
        let id = intern(metas, path.text(), Source::Global);
        hold(explicit, path, verdict, id, Origin::Global);
        proof {
            let now = all.take(i + 1);
            assert(now.drop_last() =~= all.take(i as int));
            assert(now.last() == path@);
            assert(meta_views(metas@).len() == metas@.len());
            assert(meta_views(metas@) =~= known + path_metas(now));
        }
        i += 1;
    }
    assert(all.take(i as int) =~= all);
}

/// What a junk list contributes: the names compared whole, the patterns, and their ids.
struct JunkRules {
    names: Vec<JunkName>,
    patterns: Vec<String>,
    ids: Vec<RuleId>,
}

fn take_junk(metas: &mut Vec<RuleMeta>, junk: &[Junk]) -> (out: JunkRules)
    ensures
        junk_name_views(out.names@) == junk_name_rules(junk@, old(metas)@.len() as int),
        text::views(out.patterns@) == junk_glob_texts(junk@),
        out.ids@ == junk_glob_rules(junk@, old(metas)@.len() as int),
        meta_views(final(metas)@) == meta_views(old(metas)@) + junk_metas(junk@),
{
    let ghost first = metas@.len() as int;
    let ghost known = meta_views(metas@);
    let mut names: Vec<JunkName> = Vec::new();
    let mut patterns: Vec<String> = Vec::new();
    let mut ids: Vec<RuleId> = Vec::new();
    let mut i: usize = 0;
    proof {
        assert(junk@.take(0) =~= Seq::<Junk>::empty());
        assert(junk_name_views(names@) =~= Seq::<(Seq<char>, RuleId)>::empty());
        assert(text::views(patterns@) =~= Seq::<Seq<char>>::empty());
        assert(known + junk_metas(junk@.take(0)) =~= known);
    }
    while i < junk.len()
        invariant
            i <= junk@.len(),
            first == known.len(),
            metas@.len() == first + i,
            junk_name_views(names@) == junk_name_rules(junk@.take(i as int), first),
            text::views(patterns@) == junk_glob_texts(junk@.take(i as int)),
            ids@ == junk_glob_rules(junk@.take(i as int), first),
            meta_views(metas@) == known + junk_metas(junk@.take(i as int)),
        decreases junk@.len() - i,
    {
        let ghost now = junk@.take(i + 1);
        let ghost names_before = junk_name_views(names@);
        let ghost patterns_before = text::views(patterns@);
        proof {
            assert(now.drop_last() =~= junk@.take(i as int));
            assert(now.last() == junk@[i as int]);
        }
        match junk[i] {
            Junk::Name(name) => {
                let id = intern(metas, name.to_owned(), Source::Junk);
                names.push(JunkName { name, id });
                assert(junk_name_views(names@) =~= names_before.push((name@, id)));
            },
            Junk::Glob(pattern) => {
                let id = intern(metas, pattern.to_owned(), Source::Junk);
                patterns.push(pattern.to_owned());
                ids.push(id);
                assert(text::views(patterns@) =~= patterns_before.push(pattern@));
            },
        }
        proof {
            assert(meta_views(metas@).len() == metas@.len());
            assert(meta_views(metas@) =~= known + junk_metas(now));
        }
        i += 1;
    }
    assert(junk@.take(i as int) =~= junk@);
    JunkRules { names, patterns, ids }
}

fn intern_globs(metas: &mut Vec<RuleMeta>, globs: &[String]) -> (out: Vec<RuleId>)
    ensures
        out@ == id_range(old(metas)@.len() as int, globs@.len()),
        meta_views(final(metas)@) == meta_views(old(metas)@) + glob_metas(text::views(globs@)),
{
    let ghost first = metas@.len() as int;
    let ghost known = meta_views(metas@);
    let ghost all = text::views(globs@);
    let mut ids: Vec<RuleId> = Vec::new();
    let mut i: usize = 0;
    proof {
        assert(known + glob_metas(all.take(0)) =~= known);
        assert(ids@ =~= id_range(first, 0));
    }
    while i < globs.len()
        invariant
            i <= globs@.len(),
            all == text::views(globs@),
            first == known.len(),
            metas@.len() == first + i,
            ids@ == id_range(first, i as nat),
            meta_views(metas@) == known + glob_metas(all.take(i as int)),
        decreases globs@.len() - i,
    {
        let id = intern(metas, globs[i].clone(), Source::Global);
        ids.push(id);
        i += 1;
        proof {
            assert(meta_views(metas@).len() == metas@.len());
            assert(ids@ =~= id_range(first, i as nat));
            assert(meta_views(metas@) =~= known + glob_metas(all.take(i as int)));
        }
    }
    assert(all.take(i as int) =~= all);
    ids
}

proof fn lemma_held_ids(
    before: Map<Path, Held>,
    paths: Seq<Path>,
    verdict: Verdict,
    first: int,
    n: int,
)
    requires
        0 <= first,
        first + paths.len() <= n <= usize::MAX,
        forall|p: Path| before.dom().contains(p) ==> (#[trigger] before[p]).id.0 < n,
    ensures
        forall|p: Path|
            held_paths(before, paths, verdict, first).dom().contains(p) ==> (
            #[trigger] held_paths(before, paths, verdict, first)[p]).id.0 < n,
    decreases paths.len(),
{
    if paths.len() > 0 {
        lemma_held_ids(before, paths.drop_last(), verdict, first, n);
    }
}

proof fn lemma_junk_ids(junk: Seq<Junk>, first: int, n: int)
    requires
        0 <= first,
        first + junk.len() <= n <= usize::MAX,
    ensures
        ids_in(junk_glob_rules(junk, first), n as nat),
        forall|i: int|
            0 <= i < junk_name_rules(junk, first).len() ==> (#[trigger] junk_name_rules(
                junk,
                first,
            )[i]).1.0 < n,
        junk_glob_rules(junk, first).len() == junk_glob_texts(junk).len(),
    decreases junk.len(),
{
    if junk.len() > 0 {
        lemma_junk_ids(junk.drop_last(), first, n);
        let before = junk_name_rules(junk.drop_last(), first);
        assert forall|i: int| 0 <= i < junk_name_rules(junk, first).len() implies (
        #[trigger] junk_name_rules(junk, first)[i]).1.0 < n by {
            if i < before.len() {
                assert(junk_name_rules(junk, first)[i] == before[i]);
            }
        }
    }
}

/// Every tree that is built has a rule for each of its ids.
proof fn lemma_built_wf(
    watch: Seq<Path>,
    reinclude: Seq<Path>,
    ignore: Seq<Path>,
    globs: Seq<Seq<char>>,
    junk: Seq<Junk>,
)
    requires
        watch.len() + reinclude.len() + ignore.len() + junk.len() + globs.len() <= usize::MAX,
    ensures
        built(watch, reinclude, ignore, globs, junk).wf(),
{
    let n = (watch.len() + reinclude.len() + ignore.len() + junk.len() + globs.len()) as int;
    let w = watch.len() as int;
    let r = reinclude.len() as int;
    let m0 = Map::<Path, Held>::empty();
    lemma_held_ids(m0, watch, Verdict::Capture, 0, n);
    let m1 = held_paths(m0, watch, Verdict::Capture, 0);
    lemma_held_ids(m1, reinclude, Verdict::Capture, w, n);
    let m2 = held_paths(m1, reinclude, Verdict::Capture, w);
    lemma_held_ids(m2, ignore, Verdict::Skip, w + r, n);
    lemma_junk_ids(junk, w + r + ignore.len(), n);
    assert(built(watch, reinclude, ignore, globs, junk).metas.len() == n);
}

impl RuleTree {
    /// # Errors
    ///
    /// If a glob or junk pattern does not compile.
    pub fn build(rules: &RuleSet) -> (out: Result<RuleTree, RuleError>)
        ensures
            match out {
                Ok(tree) => {
                    &&& build_fault(text::views(rules.ignore_globs@), rules.junk@) is None
                    &&& tree@ == built(
                        path_views(rules.watch@),
                        path_views(rules.reinclude@),
                        path_views(rules.ignore_paths@),
                        text::views(rules.ignore_globs@),
                        rules.junk@,
                    )
                    &&& tree@.wf()
                },
                Err(e) => {
                    &&& build_fault(text::views(rules.ignore_globs@), rules.junk@) is Some
                    &&& e.is_fault(build_fault(text::views(rules.ignore_globs@), rules.junk@)->0)
                },
            },
    {
        let mut metas: Vec<RuleMeta> = Vec::new();
        let mut explicit: Vec<ExplicitRule> = Vec::new();
        let ghost none = meta_views(metas@);
        hold_all(&mut explicit, &mut metas, &rules.watch, Verdict::Capture);
        let ghost first = meta_views(metas@);
        assert(first.len() == metas@.len());
        hold_all(&mut explicit, &mut metas, &rules.reinclude, Verdict::Capture);
        let ghost second = meta_views(metas@);
        assert(second.len() == metas@.len());
        // Last wins only if the same path appears twice with different verdicts,
        // which `check` reports as an error before this is ever built.
        hold_all(&mut explicit, &mut metas, &rules.ignore_paths, Verdict::Skip);
        let ghost third = meta_views(metas@);
        assert(third.len() == metas@.len());
        let junk = take_junk(&mut metas, &rules.junk);
        let ghost fourth = meta_views(metas@);
        assert(fourth.len() == metas@.len());
        let glob_ids = intern_globs(&mut metas, &rules.ignore_globs);
        let total: usize = metas.len();
        let globs = match compile(&rules.ignore_globs) {
            Ok(set) => set,
            Err(e) => return Err(e),
        };
        let junk_globs = match compile(&junk.patterns) {
            Ok(set) => set,
            Err(e) => return Err(e),
        };
        let tree = RuleTree {
            explicit,
            globs,
            glob_ids,
            junk_names: junk.names,
            junk_globs,
            junk_glob_ids: junk.ids,
            local_globs: Vec::new(),
            metas,
        };
        proof {
            let w = path_views(rules.watch@);
            let r = path_views(rules.reinclude@);
            let i = path_views(rules.ignore_paths@);
            let g = text::views(rules.ignore_globs@);
            let model = built(w, r, i, g, rules.junk@);
            assert(explicit_map(Seq::<ExplicitRule>::empty()) =~= Map::<Path, Held>::empty());
            assert(none + path_metas(w) =~= path_metas(w));
            assert(meta_views(tree.metas@).len() == total);
            assert(tree@.metas =~= model.metas);
            assert(tree@.locals =~= model.locals);
            assert(tree@.glob_ids =~= model.glob_ids);
            assert(tree@ =~= model);
            lemma_built_wf(w, r, i, g, rules.junk@);
        }
        Ok(tree)
    }
}

// ---------------------------------------------------------------------------
// Resolving
// ---------------------------------------------------------------------------

proof fn lemma_first_match(
    patterns: Seq<Seq<char>>,
    ids: Seq<RuleId>,
    path: Seq<u8>,
    at: int,
)
    requires
        patterns.len() == ids.len(),
        0 <= at <= patterns.len(),
        forall|i: int| 0 <= i < at ==> !glob_matches(#[trigger] patterns[i], path),
        at < patterns.len() ==> glob_matches(patterns[at], path),
    ensures
        first_match(patterns, ids, path) == (if at < patterns.len() {
            Some(ids[at])
        } else {
            None
        }),
    decreases patterns.len(),
{
    if at > 0 {
        assert(!glob_matches(patterns[0], path));
        assert forall|i: int| 0 <= i < at - 1 implies !glob_matches(
            #[trigger] patterns.skip(1)[i],
            path,
        ) by {
            assert(patterns.skip(1)[i] == patterns[i + 1]);
        }
        lemma_first_match(patterns.skip(1), ids.skip(1), path, at - 1);
    }
}

fn matched(set: &GlobSet, ids: &Vec<RuleId>, path: &[u8]) -> (out: Option<RuleId>)
    requires
        set_patterns(*set).len() == ids@.len(),
    ensures
        out == first_match(set_patterns(*set), ids@, path@),
{
    let hits = matching(set, path);
    let ghost patterns = set_patterns(*set);
    if hits.len() == 0 {
        proof {
            let n: usize = ids.len();
            assert forall|i: int| 0 <= i < patterns.len() implies !glob_matches(
                #[trigger] patterns[i],
                path@,
            ) by {
                let k = i as usize;
                assert(patterns[k as int] == patterns[i]);
            }
            lemma_first_match(patterns, ids@, path@, patterns.len() as int);
        }
        return None;
    }
    let first: usize = hits[0];
    proof {
        assert forall|i: int| 0 <= i < first implies !glob_matches(
            #[trigger] patterns[i],
            path@,
        ) by {
            let k = i as usize;
            assert(patterns[k as int] == patterns[i]);
            if glob_matches(patterns[i], path@) {
                assert(hits@.contains(k));
                let j = choose|j: int| 0 <= j < hits@.len() && hits@[j] == k;
                if j > 0 {
                    assert(hits@[0] < hits@[j]);
                }
            }
        }
        lemma_first_match(patterns, ids@, path@, first as int);
    }
    Some(ids[first])
}

fn skip_rule(rule: Option<RuleId>, tier: Tier, depth: usize, origin: Origin) -> (out: Option<
    Decision,
>)
    ensures
        out == skip_by(rule, tier, depth, origin),
{
    match rule {
        Some(id) => Some(
            Decision { verdict: Verdict::Skip, tier, depth, origin, rule: Some(id) },
        ),
        None => None,
    }
}

/// What is decided of a path, from what each kind of rule says of it: the explicit rule, the
/// junk name, the first glob, the first junk glob, and of each local file the depth of its
/// directory with its first glob that matched.
pub fn decide(
    best: Decision,
    depth: usize,
    explicit: Option<(Verdict, RuleId, Origin)>,
    name: Option<RuleId>,
    glob: Option<RuleId>,
    junk: Option<RuleId>,
    locals: &[(usize, Option<RuleId>)],
) -> (out: Decision)
    ensures
        out == decided(best, depth, explicit, name, glob, junk, locals@, locals@.len() as int),
{
    let by_path = match explicit {
        Some((verdict, id, origin)) => consider(
            best,
            Some(Decision { verdict, tier: Tier::ExplicitPath, depth, origin, rule: Some(id) }),
        ),
        None => best,
    };
    let by_name = consider(by_path, skip_rule(name, Tier::Junk, depth, Origin::Junk));
    let by_glob = consider(by_name, skip_rule(glob, Tier::Glob, depth, Origin::Global));
    let mut out = consider(by_glob, skip_rule(junk, Tier::Junk, depth, Origin::Junk));
    let mut i: usize = 0;
    while i < locals.len()
        invariant
            i <= locals@.len(),
            out == decided(best, depth, explicit, name, glob, junk, locals@, i as int),
        decreases locals@.len() - i,
    {
        let (at, rule) = locals[i];
        out = consider(out, skip_rule(rule, Tier::Glob, depth, Origin::Local(at)));
        i += 1;
    }
    out
}

/// What each kind of rule says of a path, weighed in turn; of the local files the first `n`.
pub open spec fn decided(
    best: Decision,
    depth: usize,
    explicit: Option<(Verdict, RuleId, Origin)>,
    name: Option<RuleId>,
    glob: Option<RuleId>,
    junk: Option<RuleId>,
    locals: Seq<(usize, Option<RuleId>)>,
    n: int,
) -> Decision
    decreases n,
{
    if n <= 0 {
        let by_path = match explicit {
            Some((verdict, id, origin)) => weighed(
                best,
                Some(Decision { verdict, tier: Tier::ExplicitPath, depth, origin, rule: Some(id) }),
            ),
            None => best,
        };
        let by_name = weighed(by_path, skip_by(name, Tier::Junk, depth, Origin::Junk));
        let by_glob = weighed(by_name, skip_by(glob, Tier::Glob, depth, Origin::Global));
        weighed(by_glob, skip_by(junk, Tier::Junk, depth, Origin::Junk))
    } else {
        weighed(
            decided(best, depth, explicit, name, glob, junk, locals, n - 1),
            skip_by(locals[n - 1].1, Tier::Glob, depth, Origin::Local(locals[n - 1].0)),
        )
    }
}

fn explicit_rule(rules: &Vec<ExplicitRule>, path: &AbsPath) -> (out: Option<
    (Verdict, RuleId, Origin),
>)
    ensures
        match out {
            Some((verdict, id, origin)) => explicit_map(rules@).dom().contains(path@)
                && explicit_map(rules@)[path@] == (Held { verdict, id, origin }),
            None => !explicit_map(rules@).dom().contains(path@),
        },
{
    let mut i: usize = rules.len();
    assert(rules@.take(i as int) =~= rules@);
    while i > 0
        invariant
            i <= rules@.len(),
            explicit_map(rules@).dom().contains(path@) == explicit_map(
                rules@.take(i as int),
            ).dom().contains(path@),
            explicit_map(rules@).dom().contains(path@) ==> explicit_map(rules@)[path@]
                == explicit_map(rules@.take(i as int))[path@],
        decreases i,
    {
        i -= 1;
        let r = &rules[i];
        proof {
            assert(rules@.take(i + 1).drop_last() =~= rules@.take(i as int));
            assert(rules@.take(i + 1).last() == rules@[i as int]);
        }
        if r.path.same(path) {
            return Some((r.verdict, r.id, r.origin));
        }
    }
    None
}

impl RuleTree {
    fn junk_rule(&self, component: &[u8]) -> (out: Option<RuleId>)
        ensures
            out == self@.junk_named(component@, self@.junk_names.len() as int),
    {
        let mut i: usize = self.junk_names.len();
        while i > 0
            invariant
                i <= self.junk_names@.len(),
                self@.junk_names.len() == self.junk_names@.len(),
                self@.junk_named(component@, self@.junk_names.len() as int) == self@.junk_named(
                    component@,
                    i as int,
                ),
            decreases i,
        {
            i -= 1;
            let n = &self.junk_names[i];
            assert(self@.junk_names[i as int] == (n.name@, n.id));
            if same_bytes(n.name.as_bytes(), component) {
                return Some(n.id);
            }
        }
        None
    }

    fn local_matches(&self, path: &[u8]) -> (out: Vec<(usize, Option<RuleId>)>)
        requires
            self@.wf(),
        ensures
            out@.len() == self@.locals.len(),
            forall|i: int|
                0 <= i < out@.len() ==> #[trigger] out@[i] == (
                    self@.locals[i].depth,
                    first_match(self@.locals[i].patterns, self@.locals[i].ids, path@),
                ),
    {
        let mut out: Vec<(usize, Option<RuleId>)> = Vec::new();
        let mut i: usize = 0;
        while i < self.local_globs.len()
            invariant
                i <= self.local_globs@.len(),
                self@.wf(),
                out@.len() == i,
                self@.locals.len() == self.local_globs@.len(),
                forall|j: int|
                    0 <= j < i ==> #[trigger] out@[j] == (
                        self@.locals[j].depth,
                        first_match(self@.locals[j].patterns, self@.locals[j].ids, path@),
                    ),
            decreases self.local_globs@.len() - i,
        {
            let l = &self.local_globs[i];
            assert(self@.locals[i as int] == local_view(self.local_globs@[i as int]));
            let rule = matched(&l.set, &l.ids, path);
            out.push((l.depth, rule));
            i += 1;
        }
        out
    }

    fn step(&self, best: Decision, prefix: &AbsPath, component: &[u8], depth: usize) -> (out:
        Decision)
        requires
            self@.wf(),
        ensures
            out == self@.step(best, prefix@, component@, depth),
    {
        let path = prefix.slashed();
        let explicit = explicit_rule(&self.explicit, prefix);
        let name = self.junk_rule(component);
        let glob = matched(&self.globs, &self.glob_ids, &path);
        let junk = matched(&self.junk_globs, &self.junk_glob_ids, &path);
        let locals = self.local_matches(&path);
        proof {
            self.lemma_step(
                best,
                prefix@,
                component@,
                depth,
                explicit,
                locals@,
                self@.locals.len() as int,
            );
        }
        decide(best, depth, explicit, name, glob, junk, &locals)
    }

    proof fn lemma_step(
        &self,
        best: Decision,
        prefix: Path,
        component: Seq<u8>,
        depth: usize,
        explicit: Option<(Verdict, RuleId, Origin)>,
        locals: Seq<(usize, Option<RuleId>)>,
        n: int,
    )
        requires
            self@.wf(),
            0 <= n <= locals.len() == self@.locals.len(),
            match explicit {
                Some((verdict, id, origin)) => self@.explicit.dom().contains(prefix)
                    && self@.explicit[prefix] == (Held { verdict, id, origin }),
                None => !self@.explicit.dom().contains(prefix),
            },
            forall|i: int|
                0 <= i < locals.len() ==> #[trigger] locals[i] == (
                    self@.locals[i].depth,
                    first_match(self@.locals[i].patterns, self@.locals[i].ids, crate::primitives::path::slashed(prefix)),
                ),
        ensures
            ({
                let path = crate::primitives::path::slashed(prefix);
                let m = self@;
                let name = m.junk_named(component, m.junk_names.len() as int);
                let glob = first_match(m.globs, m.glob_ids, path);
                let junk = first_match(m.junk_globs, m.junk_glob_ids, path);
                let start = decided(best, depth, explicit, name, glob, junk, locals, 0);
                decided(best, depth, explicit, name, glob, junk, locals, n) == m.locals_weighed(
                    start,
                    path,
                    depth,
                    n,
                )
            }),
        decreases n,
    {
        if n > 0 {
            self.lemma_step(best, prefix, component, depth, explicit, locals, n - 1);
            assert(locals[n - 1] == (
                self@.locals[n - 1].depth,
                first_match(
                    self@.locals[n - 1].patterns,
                    self@.locals[n - 1].ids,
                    crate::primitives::path::slashed(prefix),
                ),
            ));
        }
    }

    /// Evaluates every rule against the path and each of its ancestors, and returns
    /// the deepest match, ties broken by tier then origin.
    ///
    /// A path no rule matches is skipped. The walk starts at watched roots so that
    /// should not arise, but the function is total either way.
    #[must_use]
    pub fn resolve(&self, path: &AbsPath) -> (out: Decision)
        requires
            self@.wf(),
            path@.len() < usize::MAX,
        ensures
            out == self@.resolved(path@),
    {
        let parts = path.parts();
        let n: usize = parts.len();
        let mut best = Decision::none();
        let mut i: usize = 0;
        while i <= n
            invariant
                i <= n + 1,
                n == path@.len() == parts@.len(),
                n < usize::MAX,
                self@.wf(),
                crate::octets::byte_views(parts@) == path@,
                best == self@.resolved_to(path@, i as int),
            decreases n + 1 - i,
        {
            let prefix = path.ancestor(i);
            let root: Vec<u8> = vec![SLASH];
            assert(root@ =~= seq![SLASH]);
            let component: &Vec<u8> = if i == 0 {
                &root
            } else {
                &parts[i - 1]
            };
            proof {
                if i > 0 {
                    assert(crate::octets::byte_views(parts@)[i - 1] == parts@[i - 1]@);
                }
            }
            best = self.step(best, &prefix, component, i + 1);
            i += 1;
        }
        best
    }

    /// One resolution step: the rules matching `child` itself, weighed against the
    /// best its parent's chain already produced. The walk carries each directory's
    /// decision down its stack and pays one step per entry; [`Self::resolve`] is
    /// the fold of this over a path's components, so the two cannot disagree.
    #[must_use]
    pub fn descend(&self, parent: Decision, child: &AbsPath, depth: usize) -> (out: Decision)
        requires
            self@.wf(),
        ensures
            out == self@.step(parent, child@, last_component(child@), depth),
    {
        let parts = child.parts();
        if parts.len() == 0 {
            let none: Vec<u8> = Vec::new();
            assert(none@ =~= Seq::<u8>::empty());
            return self.step(parent, child, &none, depth);
        }
        assert(crate::octets::byte_views(parts@)[parts@.len() - 1] == parts@[parts@.len() - 1]@);
        self.step(parent, child, &parts[parts.len() - 1], depth)
    }

    /// Whether a path is captured. The whole of the rule tree from a caller's view.
    #[must_use]
    pub fn captures(&self, path: &AbsPath) -> (out: bool)
        requires
            self@.wf(),
            path@.len() < usize::MAX,
        ensures
            out == (self@.resolved(path@).verdict == Verdict::Capture),
    {
        self.resolve(path).verdict == Verdict::Capture
    }

    /// Whether anything beneath `dir` could still be captured, which is the only
    /// safe basis for pruning a walk.
    ///
    /// A walk that stops descending wherever the verdict is `Skip` silently breaks
    /// re-inclusion: `ignore ~/A/s` with `reinclude ~/A/s/keep` is the documented
    /// carve-out, and pruning at `~/A/s` means `keep` is never reached. Globs and
    /// junk are ignores at every depth, so only an explicit capture rule below the
    /// directory can rescue anything.
    #[must_use]
    pub fn may_contain_captures(&self, dir: &AbsPath) -> (out: bool)
        ensures
            out == self@.may_capture_under(dir@),
    {
        let mut i: usize = 0;
        let ghost none = Seq::<ExplicitRule>::empty();
        while i < self.explicit.len()
            invariant
                i <= self.explicit@.len(),
                forall|j: int|
                    0 <= j < i ==> !(crate::primitives::path::holds_path(dir@, (#[trigger] self.explicit@[j]).path@)
                        && self@.explicit[self.explicit@[j].path@].verdict == Verdict::Capture),
            decreases self.explicit@.len() - i,
        {
            let r = &self.explicit[i];
            if dir.contains(&r.path) {
                let found = explicit_rule(&self.explicit, &r.path);
                proof {
                    lemma_explicit_has(self.explicit@, i as int);
                }
                if let Some((verdict, _, _)) = found {
                    if verdict == Verdict::Capture {
                        assert(self@.explicit.dom().contains(r.path@));
                        return true;
                    }
                }
            }
            i += 1;
        }
        proof {
            if self@.may_capture_under(dir@) {
                let p = choose|p: Path|
                    #[trigger] self@.explicit.dom().contains(p) && crate::primitives::path::holds_path(dir@, p)
                        && self@.explicit[p].verdict == Verdict::Capture;
                let j = lemma_explicit_from(self.explicit@, p);
                assert(self.explicit@[j].path@ == p);
            }
        }
        false
    }

    /// The rule's text as a person wrote it.
    #[must_use]
    pub fn rule_text(&self, id: RuleId) -> (out: &str)
        requires
            id.0 < self@.metas.len(),
        ensures
            out@ == self@.metas[id.0 as int].text,
    {
        self.metas[id.0].text.as_str()
    }

    /// Which file the rule came from.
    #[must_use]
    pub fn rule_source(&self, id: RuleId) -> (out: &Source)
        requires
            id.0 < self@.metas.len(),
        ensures
            out@ == self@.metas[id.0 as int].source,
    {
        &self.metas[id.0].source
    }
}

/// The name of a path: its last component, or nothing for the root.
pub open spec fn last_component(path: Path) -> Seq<u8> {
    if path.len() == 0 {
        Seq::empty()
    } else {
        path.last()
    }
}

proof fn lemma_explicit_has(rules: Seq<ExplicitRule>, i: int)
    requires
        0 <= i < rules.len(),
    ensures
        explicit_map(rules).dom().contains(rules[i].path@),
    decreases rules.len(),
{
    if i < rules.len() - 1 {
        lemma_explicit_has(rules.drop_last(), i);
        assert(rules.drop_last()[i] == rules[i]);
    }
}

proof fn lemma_explicit_from(rules: Seq<ExplicitRule>, p: Path) -> (j: int)
    requires
        explicit_map(rules).dom().contains(p),
    ensures
        0 <= j < rules.len(),
        rules[j].path@ == p,
    decreases rules.len(),
{
    if rules.last().path@ == p {
        rules.len() - 1
    } else {
        let j = lemma_explicit_from(rules.drop_last(), p);
        assert(rules.drop_last()[j] == rules[j]);
        j
    }
}

// ---------------------------------------------------------------------------
// Local files
// ---------------------------------------------------------------------------

/// A path entry of a local file: its text, its line and the path it names.
pub struct EntryView {
    pub text: Seq<char>,
    pub line: u32,
    pub path: Path,
}

pub open spec fn entry_views(entries: Seq<Entry>) -> Seq<EntryView> {
    entries.map_values(|e: Entry| EntryView { text: e.text@, line: e.line, path: e.path@ })
}

/// Whether a rule of this origin takes a path: the higher origin keeps a contested one.
pub open spec fn takes(held: Map<Path, Held>, path: Path, origin: Origin) -> bool {
    !held.dom().contains(path) || origin_less(held[path].origin, origin)
}

/// A tree with one more path entry of a local file.
pub open spec fn with_entry(
    m: TreeModel,
    e: EntryView,
    verdict: Verdict,
    origin: Origin,
    file: Path,
) -> TreeModel {
    TreeModel {
        explicit: if takes(m.explicit, e.path, origin) {
            m.explicit.insert(
                e.path,
                Held { verdict, id: RuleId(m.metas.len() as usize), origin },
            )
        } else {
            m.explicit
        },
        metas: m.metas.push(
            MetaView { text: e.text, source: SourceView::Local { file, line: e.line } },
        ),
        ..m
    }
}

/// A tree with the path entries of a local file, one after another.
pub open spec fn with_entries(
    m: TreeModel,
    entries: Seq<EntryView>,
    verdict: Verdict,
    origin: Origin,
    file: Path,
) -> TreeModel
    decreases entries.len(),
{
    if entries.len() == 0 {
        m
    } else {
        with_entry(
            with_entries(m, entries.drop_last(), verdict, origin, file),
            entries.last(),
            verdict,
            origin,
            file,
        )
    }
}

/// A local glob rooted at its declaring directory: a bare basename pattern
/// matches at any depth beneath it, a pattern with `/` sits directly under it. The base is
/// escaped so a directory named `foo[1]` stays a literal.
pub open spec fn rooted(base: Path, pattern: Seq<char>) -> Seq<char> {
    let shown = glob_literal(octets::lossy(crate::primitives::path::slashed(base)));
    if pattern.contains('/') {
        shown + "/"@ + pattern
    } else {
        shown + "/**/"@ + pattern
    }
}

pub open spec fn all_rooted(base: Path, patterns: Seq<Seq<char>>) -> Seq<Seq<char>> {
    patterns.map_values(|p: Seq<char>| rooted(base, p))
}

pub open spec fn glob_entry_texts(globs: Seq<GlobEntry>) -> Seq<Seq<char>> {
    globs.map_values(|g: GlobEntry| g.text@)
}

pub open spec fn local_glob_metas(globs: Seq<GlobEntry>, file: Path) -> Seq<MetaView> {
    globs.map_values(
        |g: GlobEntry|
            MetaView { text: g.text@, source: SourceView::Local { file, line: g.line } },
    )
}

/// A tree with the path entries of a local file, its ignores first.
pub open spec fn with_local_paths(m: TreeModel, depth: usize, file: Path, rules: LocalRules) -> TreeModel {
    with_entries(
        with_entries(m, entry_views(rules.ignore@), Verdict::Skip, Origin::Local(depth), file),
        entry_views(rules.reinclude@),
        Verdict::Capture,
        Origin::Local(depth),
        file,
    )
}

/// A tree with the texts of a local file's globs known, and the globs themselves where they
/// compiled.
pub open spec fn with_local_globs(
    m: TreeModel,
    base: Path,
    depth: usize,
    file: Path,
    globs: Seq<GlobEntry>,
    compiled: bool,
) -> TreeModel {
    TreeModel {
        metas: m.metas + local_glob_metas(globs, file),
        locals: if compiled {
            m.locals.push(
                LocalModel {
                    depth,
                    patterns: all_unrooted(all_rooted(base, glob_entry_texts(globs))),
                    ids: id_range(m.metas.len() as int, globs.len()),
                },
            )
        } else {
            m.locals
        },
        ..m
    }
}

/// A tree with one local file folded in.
pub open spec fn with_local(m: TreeModel, base: Path, file: Path, rules: LocalRules) -> TreeModel {
    let depth = (base.len() + 1) as usize;
    let paths = with_local_paths(m, depth, file, rules);
    if rules.globs@.len() == 0 {
        paths
    } else {
        with_local_globs(
            paths,
            base,
            depth,
            file,
            rules.globs@,
            compile_fault(all_rooted(base, glob_entry_texts(rules.globs@))) is None,
        )
    }
}

fn anchored(base: &AbsPath, pattern: &str) -> (out: String)
    ensures
        out@ == rooted(base@, pattern@),
{
    let shown = escape_glob(&octets::lossy_text(&base.slashed()));
    if holds_slash(pattern) {
        cat3(&shown, "/", pattern)
    } else {
        cat3(&shown, "/**/", pattern)
    }
}

impl RuleTree {
    fn add_entries(
        &mut self,
        entries: &Vec<Entry>,
        verdict: Verdict,
        origin: Origin,
        file: &AbsPath,
    )
        requires
            old(self)@.wf(),
        ensures
            final(self)@ == with_entries(
                old(self)@,
                entry_views(entries@),
                verdict,
                origin,
                file@,
            ),
            final(self)@.wf(),
    {
        let ghost start = self@;
        let ghost all = entry_views(entries@);
        let mut i: usize = 0;
        assert(all.take(0) =~= Seq::<EntryView>::empty());
        while i < entries.len()
            invariant
                i <= entries@.len(),
                all == entry_views(entries@),
                start == old(self)@,
                self@ == with_entries(start, all.take(i as int), verdict, origin, file@),
                self@.wf(),
            decreases entries@.len() - i,
        {
            let entry = &entries[i];
            let ghost before = *self;
            let source = Source::Local { file: file.clone(), line: entry.line };
            let known: usize = self.metas.len();
            assert(before@.metas.len() == known);
            let keep = match explicit_rule(&self.explicit, &entry.path) {
                Some((_, _, existing)) => has_less_authority(existing, origin),
                None => true,
            };
            let id = intern(&mut self.metas, entry.text.clone(), source);
            if keep {
                hold(&mut self.explicit, &entry.path, verdict, id, origin);
            }
            let grown: usize = self.metas.len();
            proof {
                let now = all.take(i + 1);
                assert(now.drop_last() =~= all.take(i as int));
                assert(now.last() == (EntryView {
                    text: entry.text@,
                    line: entry.line,
                    path: entry.path@,
                }));
                assert(self@ =~= with_entry(before@, now.last(), verdict, origin, file@));
                assert(meta_views(self.metas@).len() == grown);
                lemma_entry_wf(before@, now.last(), verdict, origin, file@);
            }
            i += 1;
        }
        assert(all.take(i as int) =~= all);
    }

    /// Folds one local rule file into the tree. `base` is the directory holding
    /// the `.tycho`; `file` is the rules file itself, recorded as each rule's
    /// source so `--dry-run` and `rules explain` can point at it.
    ///
    /// # Errors
    ///
    /// If a glob does not compile. The path entries are in the tree all the same.
    pub fn add_local(&mut self, base: &AbsPath, file: &AbsPath, rules: &LocalRules) -> (out: Result<
        (),
        RuleError,
    >)
        requires
            old(self)@.wf(),
            base@.len() < usize::MAX,
        ensures
            final(self)@.wf(),
            final(self)@ == with_local(old(self)@, base@, file@, *rules),
            ({
                let fault = compile_fault(all_rooted(base@, glob_entry_texts(rules.globs@)));
                match out {
                    Ok(()) => rules.globs@.len() == 0 || fault is None,
                    Err(e) => rules.globs@.len() > 0 && fault is Some && e.is_fault(fault->0),
                }
            }),
    {
        let depth: usize = base.depth() + 1;
        let origin = Origin::Local(depth);
        self.add_entries(&rules.ignore, Verdict::Skip, origin, file);
        self.add_entries(&rules.reinclude, Verdict::Capture, origin, file);
        if rules.globs.len() == 0 {
            return Ok(());
        }
        let ghost before = self@;
        let ghost first = self.metas@.len() as int;
        let ghost known = meta_views(self.metas@);
        let mut ids: Vec<RuleId> = Vec::new();
        let mut patterns: Vec<String> = Vec::new();
        let mut i: usize = 0;
        proof {
            assert(known + local_glob_metas(rules.globs@.take(0), file@) =~= known);
            assert(text::views(patterns@) =~= all_rooted(
                base@,
                glob_entry_texts(rules.globs@.take(0)),
            ));
        }
        let ghost held = *self;
        while i < rules.globs.len()
            invariant
                i <= rules.globs@.len(),
                first == known.len(),
                self.metas@.len() == first + i,
                ids@ == id_range(first, i as nat),
                text::views(patterns@) == all_rooted(
                    base@,
                    glob_entry_texts(rules.globs@.take(i as int)),
                ),
                meta_views(self.metas@) == known + local_glob_metas(
                    rules.globs@.take(i as int),
                    file@,
                ),
                self.explicit == held.explicit,
                self.globs == held.globs,
                self.glob_ids == held.glob_ids,
                self.junk_names == held.junk_names,
                self.junk_globs == held.junk_globs,
                self.junk_glob_ids == held.junk_glob_ids,
                self.local_globs == held.local_globs,
            decreases rules.globs@.len() - i,
        {
            let glob = &rules.globs[i];
            let ghost texts = text::views(patterns@);
            let source = Source::Local { file: file.clone(), line: glob.line };
            let id = intern(&mut self.metas, glob.text.clone(), source);
            ids.push(id);
            patterns.push(anchored(base, &glob.text));
            i += 1;
            proof {
                assert(meta_views(self.metas@).len() == self.metas@.len());
                assert(ids@ =~= id_range(first, i as nat));
                assert(meta_views(self.metas@) =~= known + local_glob_metas(
                    rules.globs@.take(i as int),
                    file@,
                ));
                assert(text::views(patterns@) =~= texts.push(rooted(base@, glob.text@)));
                assert(text::views(patterns@) =~= all_rooted(
                    base@,
                    glob_entry_texts(rules.globs@.take(i as int)),
                ));
            }
        }
        let total: usize = self.metas.len();
        proof {
            assert(rules.globs@.take(i as int) =~= rules.globs@);
            assert(self@ =~= with_local_globs(
                before,
                base@,
                depth,
                file@,
                rules.globs@,
                false,
            ));
            lemma_globs_wf(before, base@, depth, file@, rules.globs@);
        }
        match compile(&patterns) {
            Ok(set) => {
                let ghost locals = local_views(self.local_globs@);
                let ghost added = LocalGlobSet { depth, set, ids };
                self.local_globs.push(LocalGlobSet { depth, set, ids });
                proof {
                    assert(local_views(self.local_globs@) =~= locals.push(local_view(added)));
                    assert(self@ =~= with_local_globs(
                        before,
                        base@,
                        depth,
                        file@,
                        rules.globs@,
                        true,
                    ));
                }
                Ok(())
            },
            Err(e) => Err(e),
        }
    }

    /// Records every glob and junk pattern that matched anywhere along the path, so
    /// `--dry-run` can list the rules that matched nothing at all - the row that
    /// earns that command, since a typo'd rule is otherwise a silent no-op.
    pub fn record_hits(&self, path: &AbsPath, hits: &mut Hits)
        requires
            self@.wf(),
            path@.len() < usize::MAX,
        ensures
            forall|i: usize|
                #[trigger] final(hits).globs@.contains(i) <==> old(hits).globs@.contains(i)
                    || exists|k: int|
                    0 <= k <= path@.len() && #[trigger] self@.fires(i, path@.take(k)),
            forall|id: RuleId|
                #[trigger] final(hits).local@.contains(id) <==> old(hits).local@.contains(id)
                    || exists|k: int|
                    0 <= k <= path@.len() && #[trigger] self@.local_fires(id, path@.take(k)),
    {
        let n: usize = path.depth();
        let mut k: usize = 0;
        while k <= n
            invariant
                k <= n + 1,
                n == path@.len() < usize::MAX,
                self@.wf(),
                forall|i: usize|
                    #[trigger] hits.globs@.contains(i) <==> old(hits).globs@.contains(i)
                        || exists|j: int|
                        0 <= j < k && #[trigger] self@.fires(i, path@.take(j)),
                forall|id: RuleId|
                    #[trigger] hits.local@.contains(id) <==> old(hits).local@.contains(id)
                        || exists|j: int|
                        0 <= j < k && #[trigger] self@.local_fires(id, path@.take(j)),
            decreases n + 1 - k,
        {
            self.record_hit(&path.ancestor(k), hits);
            k += 1;
        }
    }

    /// [`Self::record_hits`] for one path whose ancestors are already recorded. The
    /// walk records each entry it lists, so an entry's chain is covered by its
    /// parents' own recordings plus this.
    pub fn record_hit(&self, path: &AbsPath, hits: &mut Hits)
        requires
            self@.wf(),
        ensures
            forall|i: usize|
                #[trigger] final(hits).globs@.contains(i) <==> old(hits).globs@.contains(i)
                    || self@.fires(i, path@),
            forall|id: RuleId|
                #[trigger] final(hits).local@.contains(id) <==> old(hits).local@.contains(id)
                    || self@.local_fires(id, path@),
    {
        let raw = path.slashed();
        let found = matching(&self.globs, &raw);
        let ghost start = hits.globs@;
        let mut i: usize = 0;
        while i < found.len()
            invariant
                i <= found@.len(),
                hits.local@ == old(hits).local@,
                start == old(hits).globs@,
                forall|k: usize|
                    #[trigger] hits.globs@.contains(k) <==> start.contains(k) || exists|j: int|
                        0 <= j < i && #[trigger] found@[j] == k,
            decreases found@.len() - i,
        {
            let index: usize = found[i];
            add_index(&mut hits.globs, index);
            i += 1;
        }
        proof {
            assert forall|k: usize| (exists|j: int| 0 <= j < found@.len() && #[trigger] found@[j]
                == k) <==> #[trigger] self@.fires(k, path@) by {
                if self@.fires(k, path@) {
                    assert(glob_matches(set_patterns(self.globs)[k as int], raw@));
                    assert(found@.contains(k));
                }
            }
        }
        let mut l: usize = 0;
        let ghost before = hits.local@;
        while l < self.local_globs.len()
            invariant
                l <= self.local_globs@.len(),
                self@.wf(),
                raw@ == crate::primitives::path::slashed(path@),
                before == old(hits).local@,
                self@.locals.len() == self.local_globs@.len(),
                forall|k: usize|
                    #[trigger] hits.globs@.contains(k) <==> old(hits).globs@.contains(k)
                        || self@.fires(k, path@),
                forall|id: RuleId|
                    #[trigger] hits.local@.contains(id) <==> before.contains(id) || exists|
                        m: int,
                        j: int,
                    |
                        0 <= m < l && #[trigger] self@.local_glob_fires(m, j, id, path@),
            decreases self.local_globs@.len() - l,
        {
            let ghost held = hits.local@;
            let local = &self.local_globs[l];
            assert(self@.locals[l as int] == local_view(self.local_globs@[l as int]));
            let found = matching(&local.set, &raw);
            let width: usize = local.ids.len();
            let mut i: usize = 0;
            while i < found.len()
                invariant
                    i <= found@.len(),
                    local.ids@.len() == set_patterns(local.set).len(),
                    forall|j: int|
                        0 <= j < found@.len() ==> (#[trigger] found@[j]) < set_patterns(
                            local.set,
                        ).len(),
                    forall|k: usize|
                        #[trigger] hits.globs@.contains(k) <==> old(hits).globs@.contains(k)
                            || self@.fires(k, path@),
                    forall|id: RuleId|
                        #[trigger] hits.local@.contains(id) <==> held.contains(id) || exists|
                            j: int,
                        |
                            0 <= j < i && local.ids@[(#[trigger] found@[j]) as int] == id,
                decreases found@.len() - i,
            {
                let id = local.ids[found[i]];
                add_id(&mut hits.local, id);
                i += 1;
            }
            proof {
                assert forall|id: RuleId|
                    #[trigger] hits.local@.contains(id) <==> before.contains(id) || exists|
                        m: int,
                        j: int,
                    |
                        0 <= m < l + 1 && #[trigger] self@.local_glob_fires(m, j, id, path@) by {
                    if held.contains(id) && !before.contains(id) {
                        let (m, j) = choose|m: int, j: int|
                            0 <= m < l && #[trigger] self@.local_glob_fires(m, j, id, path@);
                        assert(self@.local_glob_fires(m, j, id, path@));
                    }
                    if exists|j: int| 0 <= j < found@.len() && local.ids@[(#[trigger] found@[j]) as int] == id {
                        let j = choose|j: int|
                            0 <= j < found@.len() && local.ids@[(#[trigger] found@[j]) as int] == id;
                        assert(self@.local_glob_fires(l as int, found@[j] as int, id, path@));
                    }
                    if exists|m: int, j: int|
                        0 <= m < l + 1 && #[trigger] self@.local_glob_fires(m, j, id, path@) {
                        let (m, j) = choose|m: int, j: int|
                            0 <= m < l + 1 && #[trigger] self@.local_glob_fires(m, j, id, path@);
                        if m == l {
                            assert(j < width);
                            let k = j as usize;
                            assert(glob_matches(set_patterns(local.set)[k as int], raw@));
                            assert(found@.contains(k));
                            let f = choose|f: int| 0 <= f < found@.len() && found@[f] == k;
                            assert(local.ids@[found@[f] as int] == id);
                        } else {
                            assert(self@.local_glob_fires(m, j, id, path@));
                        }
                    }
                }
            }
            l += 1;
        }
    }

    /// Every local glob rule's id, for the unfired-rule report.
    pub fn local_glob_ids(&self) -> (out: Vec<RuleId>)
        ensures
            out@ == self@.all_local_ids(self@.locals.len() as int),
    {
        let mut out: Vec<RuleId> = Vec::new();
        let mut l: usize = 0;
        while l < self.local_globs.len()
            invariant
                l <= self.local_globs@.len(),
                self@.locals.len() == self.local_globs@.len(),
                out@ == self@.all_local_ids(l as int),
            decreases self.local_globs@.len() - l,
        {
            let ids = &self.local_globs[l].ids;
            assert(self@.locals[l as int] == local_view(self.local_globs@[l as int]));
            let ghost before = out@;
            let mut i: usize = 0;
            assert(out@ =~= before + ids@.take(0));
            while i < ids.len()
                invariant
                    i <= ids@.len(),
                    out@ == before + ids@.take(i as int),
                decreases ids@.len() - i,
            {
                out.push(ids[i]);
                i += 1;
                assert(out@ =~= before + ids@.take(i as int));
            }
            assert(ids@.take(i as int) =~= ids@);
            l += 1;
        }
        out
    }

    /// The global glob patterns in hit-index order, for the unfired-rule report.
    pub fn glob_patterns(&self) -> (out: Vec<String>)
        requires
            self@.wf(),
        ensures
            out@.len() == self@.glob_ids.len(),
            forall|i: int|
                0 <= i < out@.len() ==> (#[trigger] out@[i])@
                    == self@.metas[self@.glob_ids[i].0 as int].text,
    {
        let mut out: Vec<String> = Vec::new();
        let mut i: usize = 0;
        while i < self.glob_ids.len()
            invariant
                i <= self.glob_ids@.len(),
                self@.wf(),
                out@.len() == i,
                forall|j: int|
                    0 <= j < i ==> (#[trigger] out@[j])@
                        == self@.metas[self@.glob_ids[j].0 as int].text,
            decreases self.glob_ids@.len() - i,
        {
            let id = self.glob_ids[i];
            assert(self@.glob_ids[i as int].0 < self@.metas.len());
            out.push(self.rule_text(id).to_owned());
            i += 1;
        }
        out
    }
}

impl TreeModel {
    /// Whether the global glob at this index matches a path.
    pub open spec fn fires(self, i: usize, path: Path) -> bool {
        i < self.globs.len() && glob_matches(self.globs[i as int], crate::primitives::path::slashed(path))
    }

    /// Whether the `j`th glob of the `m`th local file is the rule `id` and matches a path.
    pub open spec fn local_glob_fires(self, m: int, j: int, id: RuleId, path: Path) -> bool {
        &&& 0 <= m < self.locals.len()
        &&& 0 <= j < self.locals[m].patterns.len()
        &&& self.locals[m].ids[j] == id
        &&& glob_matches(self.locals[m].patterns[j], crate::primitives::path::slashed(path))
    }

    /// Whether the local glob rule `id` matches a path.
    pub open spec fn local_fires(self, id: RuleId, path: Path) -> bool {
        exists|m: int, j: int| #[trigger] self.local_glob_fires(m, j, id, path)
    }

    /// The glob ids of the first `n` local files.
    pub open spec fn all_local_ids(self, n: int) -> Seq<RuleId>
        decreases n,
    {
        if n <= 0 {
            Seq::empty()
        } else {
            self.all_local_ids(n - 1) + self.locals[n - 1].ids
        }
    }
}

/// Adds an index that is not there yet.
fn add_index(v: &mut Vec<usize>, x: usize)
    ensures
        forall|k: usize| #[trigger] final(v)@.contains(k) <==> old(v)@.contains(k) || k == x,
{
    let mut i: usize = 0;
    while i < v.len()
        invariant
            i <= v@.len(),
            v@ == old(v)@,
            forall|j: int| 0 <= j < i ==> v@[j] != x,
        decreases v@.len() - i,
    {
        if v[i] == x {
            assert(v@[i as int] == x);
            return ;
        }
        i += 1;
    }
    v.push(x);
    proof {
        lemma_contains_push(old(v)@, x);
    }
}

/// Adds an id that is not there yet.
fn add_id(v: &mut Vec<RuleId>, x: RuleId)
    ensures
        forall|k: RuleId| #[trigger] final(v)@.contains(k) <==> old(v)@.contains(k) || k == x,
{
    let mut i: usize = 0;
    while i < v.len()
        invariant
            i <= v@.len(),
            v@ == old(v)@,
            forall|j: int| 0 <= j < i ==> v@[j] != x,
        decreases v@.len() - i,
    {
        if v[i] == x {
            assert(v@[i as int] == x);
            return ;
        }
        i += 1;
    }
    v.push(x);
    proof {
        lemma_contains_push(old(v)@, x);
    }
}

proof fn lemma_contains_push<T>(s: Seq<T>, x: T)
    ensures
        forall|k: T| #[trigger] s.push(x).contains(k) <==> s.contains(k) || k == x,
{
    assert forall|k: T| #[trigger] s.push(x).contains(k) <==> s.contains(k) || k == x by {
        if s.contains(k) {
            let i = choose|i: int| 0 <= i < s.len() && s[i] == k;
            assert(s.push(x)[i] == k);
        }
        if k == x {
            assert(s.push(x)[s.len() as int] == k);
        }
        if s.push(x).contains(k) {
            let i = choose|i: int| 0 <= i < s.push(x).len() && s.push(x)[i] == k;
            if i < s.len() {
                assert(s[i] == k);
            }
        }
    }
}

proof fn lemma_more_ids(ids: Seq<RuleId>, n: nat, m: nat)
    requires
        ids_in(ids, n),
        n <= m,
    ensures
        ids_in(ids, m),
{
}

/// One more entry leaves every id with its rule.
proof fn lemma_entry_wf(
    m: TreeModel,
    e: EntryView,
    verdict: Verdict,
    origin: Origin,
    file: Path,
)
    requires
        m.wf(),
        m.metas.len() < usize::MAX,
    ensures
        with_entry(m, e, verdict, origin, file).wf(),
{
    let out = with_entry(m, e, verdict, origin, file);
    assert forall|i: int| 0 <= i < out.locals.len() implies (#[trigger] out.locals[i]).patterns.len()
        == out.locals[i].ids.len() && ids_in(out.locals[i].ids, out.metas.len()) by {
        lemma_more_ids(m.locals[i].ids, m.metas.len(), out.metas.len());
    }
    assert forall|i: int| 0 <= i < out.junk_names.len() implies (#[trigger] out.junk_names[i]).1.0
        < out.metas.len() by {
        assert(m.junk_names[i].1.0 < m.metas.len());
    }
    assert forall|p: Path| out.explicit.dom().contains(p) implies (#[trigger] out.explicit[p]).id.0
        < out.metas.len() by {
        if m.explicit.dom().contains(p) {
            assert(m.explicit[p].id.0 < m.metas.len());
        }
    }
}

/// A local file's globs leave every id with its rule.
proof fn lemma_globs_wf(m: TreeModel, base: Path, depth: usize, file: Path, globs: Seq<GlobEntry>)
    requires
        m.wf(),
        m.metas.len() + globs.len() <= usize::MAX,
    ensures
        with_local_globs(m, base, depth, file, globs, false).wf(),
        with_local_globs(m, base, depth, file, globs, true).wf(),
{
    let out = with_local_globs(m, base, depth, file, globs, true);
    assert forall|i: int| 0 <= i < out.locals.len() implies (#[trigger] out.locals[i]).patterns.len()
        == out.locals[i].ids.len() && ids_in(out.locals[i].ids, out.metas.len()) by {
        if i < m.locals.len() {
            assert(out.locals[i] == m.locals[i]);
            lemma_more_ids(m.locals[i].ids, m.metas.len(), out.metas.len());
        }
    }
    assert forall|i: int| 0 <= i < m.locals.len() implies (#[trigger] m.locals[i]).patterns.len()
        == m.locals[i].ids.len() && ids_in(m.locals[i].ids, out.metas.len()) by {
        lemma_more_ids(m.locals[i].ids, m.metas.len(), out.metas.len());
    }
    assert forall|i: int| 0 <= i < out.junk_names.len() implies (#[trigger] out.junk_names[i]).1.0
        < out.metas.len() by {
        assert(m.junk_names[i].1.0 < m.metas.len());
    }
    assert forall|p: Path| out.explicit.dom().contains(p) implies (#[trigger] out.explicit[p]).id.0
        < out.metas.len() by {
        assert(m.explicit[p].id.0 < m.metas.len());
    }
}

} // verus!
