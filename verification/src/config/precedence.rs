//! The junk list, and the laws of precedence that the rule tree keeps.

use crate::config::rules;
use crate::config::rules::{
    Decision, EntryView, Junk, Origin, Path, RuleId, Tier, TreeModel, Verdict,
};
use crate::primitives::path::SLASH;
use vstd::prelude::*;
use vstd::utf8::*;

verus! {

/// The default ignores. Load-bearing rather than cosmetic: a build directory committed once
/// is in history permanently.
pub open spec fn default_junk_list() -> Seq<Junk> {
    seq![
        Junk::Name("node_modules"),
        Junk::Name("target"),
        Junk::Name("build"),
        Junk::Name(".build"),
        Junk::Name("dist"),
        Junk::Name("out"),
        Junk::Name(".next"),
        Junk::Name(".nuxt"),
        Junk::Name(".svelte-kit"),
        Junk::Name("DerivedData"),
        Junk::Name(".gradle"),
        Junk::Name(".kotlin"),
        Junk::Name("Pods"),
        Junk::Name("__pycache__"),
        Junk::Name(".venv"),
        Junk::Name("venv"),
        Junk::Name(".cache"),
        Junk::Name(".ruff_cache"),
        Junk::Name(".pytest_cache"),
        Junk::Name(".mypy_cache"),
        Junk::Name(".ipynb_checkpoints"),
        Junk::Name(".DS_Store"),
        Junk::Name("Thumbs.db"),
        Junk::Name("xcuserdata"),
        Junk::Glob("*.o"),
        Junk::Glob("*.pyc"),
        Junk::Glob("*.class"),
        Junk::Glob("*.xcuserstate"),
    ]
}

/// Applied unless `use_default_ignores = false`.
pub fn default_junk() -> (out: Vec<Junk>)
    ensures
        out@ == default_junk_list(),
{
    let out: Vec<Junk> = vec![
        Junk::Name("node_modules"),
        Junk::Name("target"),
        Junk::Name("build"),
        Junk::Name(".build"),
        Junk::Name("dist"),
        Junk::Name("out"),
        Junk::Name(".next"),
        Junk::Name(".nuxt"),
        Junk::Name(".svelte-kit"),
        Junk::Name("DerivedData"),
        Junk::Name(".gradle"),
        Junk::Name(".kotlin"),
        Junk::Name("Pods"),
        Junk::Name("__pycache__"),
        Junk::Name(".venv"),
        Junk::Name("venv"),
        Junk::Name(".cache"),
        Junk::Name(".ruff_cache"),
        Junk::Name(".pytest_cache"),
        Junk::Name(".mypy_cache"),
        Junk::Name(".ipynb_checkpoints"),
        Junk::Name(".DS_Store"),
        Junk::Name("Thumbs.db"),
        Junk::Name("xcuserdata"),
        Junk::Glob("*.o"),
        Junk::Glob("*.pyc"),
        Junk::Glob("*.class"),
        Junk::Glob("*.xcuserstate"),
    ];
    assert(out@ =~= default_junk_list());
    out
}

/// Whether a character means something in a glob, or separates two components.
pub open spec fn is_meta(c: char) -> bool {
    c == '*' || c == '?' || c == '[' || c == ']' || c == '{' || c == '}' || c == '/' || c == '\\'
}

/// One path component compared for equality: not empty, no glob metacharacter, no separator.
pub open spec fn is_plain_name(s: Seq<char>) -> bool {
    s.len() > 0 && forall|i: int| 0 <= i < s.len() ==> !is_meta(#[trigger] s[i])
}

pub open spec fn names_are_plain(junk: Seq<Junk>) -> bool {
    forall|i: int| #![trigger junk[i]]
        0 <= i < junk.len() ==> match junk[i] {
            Junk::Name(s) => is_plain_name(s@),
            Junk::Glob(_) => true,
        }
}

/// A name carrying a glob metacharacter would read as strict and match like a
/// pattern, and one carrying a separator is two components and so matches nothing.
/// No name on the default list does either.
pub proof fn names_are_not_patterns()
    ensures
        names_are_plain(default_junk_list()),
{
    reveal_strlit("node_modules");
    reveal_strlit("target");
    reveal_strlit("build");
    reveal_strlit(".build");
    reveal_strlit("dist");
    reveal_strlit("out");
    reveal_strlit(".next");
    reveal_strlit(".nuxt");
    reveal_strlit(".svelte-kit");
    reveal_strlit("DerivedData");
    reveal_strlit(".gradle");
    reveal_strlit(".kotlin");
    reveal_strlit("Pods");
    reveal_strlit("__pycache__");
    reveal_strlit(".venv");
    reveal_strlit("venv");
    reveal_strlit(".cache");
    reveal_strlit(".ruff_cache");
    reveal_strlit(".pytest_cache");
    reveal_strlit(".mypy_cache");
    reveal_strlit(".ipynb_checkpoints");
    reveal_strlit(".DS_Store");
    reveal_strlit("Thumbs.db");
    reveal_strlit("xcuserdata");
    assert(is_plain_name("node_modules"@));
    assert(is_plain_name("target"@));
    assert(is_plain_name("build"@));
    assert(is_plain_name(".build"@));
    assert(is_plain_name("dist"@));
    assert(is_plain_name("out"@));
    assert(is_plain_name(".next"@));
    assert(is_plain_name(".nuxt"@));
    assert(is_plain_name(".svelte-kit"@));
    assert(is_plain_name("DerivedData"@));
    assert(is_plain_name(".gradle"@));
    assert(is_plain_name(".kotlin"@));
    assert(is_plain_name("Pods"@));
    assert(is_plain_name("__pycache__"@));
    assert(is_plain_name(".venv"@));
    assert(is_plain_name("venv"@));
    assert(is_plain_name(".cache"@));
    assert(is_plain_name(".ruff_cache"@));
    assert(is_plain_name(".pytest_cache"@));
    assert(is_plain_name(".mypy_cache"@));
    assert(is_plain_name(".ipynb_checkpoints"@));
    assert(is_plain_name(".DS_Store"@));
    assert(is_plain_name("Thumbs.db"@));
    assert(is_plain_name("xcuserdata"@));
}

/// Precedence is a strict order: nothing outranks itself, no two outrank each other, and what
/// outranks something outranks all that it outranks.
pub proof fn precedence_is_strict(a: Decision, b: Decision, c: Decision)
    ensures
        !rules::beats(a, a),
        !(rules::beats(a, b) && rules::beats(b, a)),
        rules::beats(a, b) && rules::beats(b, c) ==> rules::beats(a, c),
{
}

/// Weighing never lets go of a stronger decision: what was not outranked before is not
/// outranked by what comes out.
pub proof fn weighing_never_weakens(x: Decision, best: Decision, candidate: Option<Decision>)
    ensures
        !rules::beats(best, rules::weighed(best, candidate)),
        candidate matches Some(c) ==> !rules::beats(c, rules::weighed(best, candidate)),
        !rules::beats(x, best) ==> !rules::beats(x, rules::weighed(best, candidate)),
{
}

/// Whether `d` is at least as strong as the rule `r`, where there is one.
pub open spec fn not_outranked(r: Option<Decision>, d: Decision) -> bool {
    match r {
        Some(c) => !rules::beats(c, d),
        None => true,
    }
}

/// Everything one step weighs stays weaker than or as strong as what comes out of it.
proof fn lemma_step_bounds(
    t: TreeModel,
    best: Decision,
    prefix: Path,
    component: Seq<u8>,
    depth: usize,
)
    ensures
        ({
            let out = t.step(best, prefix, component, depth);
            let path = crate::primitives::path::slashed(prefix);
            &&& !rules::beats(best, out)
            &&& not_outranked(t.explicit_candidate(prefix, depth), out)
            &&& not_outranked(
                rules::skip_by(
                    t.junk_named(component, t.junk_names.len() as int),
                    Tier::Junk,
                    depth,
                    Origin::Junk,
                ),
                out,
            )
            &&& not_outranked(
                rules::skip_by(rules::first_match(t.globs, t.glob_ids, path), Tier::Glob, depth, Origin::Global),
                out,
            )
            &&& not_outranked(
                rules::skip_by(
                    rules::first_match(t.junk_globs, t.junk_glob_ids, path),
                    Tier::Junk,
                    depth,
                    Origin::Junk,
                ),
                out,
            )
            &&& forall|m: int| #![trigger t.locals[m]]
                0 <= m < t.locals.len() ==> not_outranked(
                    rules::skip_by(
                        rules::first_match(t.locals[m].patterns, t.locals[m].ids, path),
                        Tier::Glob,
                        depth,
                        Origin::Local(t.locals[m].depth),
                    ),
                    out,
                )
        }),
{
    let path = crate::primitives::path::slashed(prefix);
    let by_path = rules::weighed(best, t.explicit_candidate(prefix, depth));
    let by_name = rules::weighed(
        by_path,
        rules::skip_by(
            t.junk_named(component, t.junk_names.len() as int),
            Tier::Junk,
            depth,
            Origin::Junk,
        ),
    );
    let by_glob = rules::weighed(
        by_name,
        rules::skip_by(rules::first_match(t.globs, t.glob_ids, path), Tier::Glob, depth, Origin::Global),
    );
    let by_junk = rules::weighed(
        by_glob,
        rules::skip_by(
            rules::first_match(t.junk_globs, t.junk_glob_ids, path),
            Tier::Junk,
            depth,
            Origin::Junk,
        ),
    );
    lemma_locals_bounds(t, by_junk, path, depth, t.locals.len() as int);
}

proof fn lemma_locals_bounds(t: TreeModel, best: Decision, path: Seq<u8>, depth: usize, n: int)
    requires
        0 <= n <= t.locals.len(),
    ensures
        !rules::beats(best, t.locals_weighed(best, path, depth, n)),
        forall|x: Decision|
            !#[trigger] rules::beats(x, best) ==> !rules::beats(x, t.locals_weighed(best, path, depth, n)),
        forall|m: int| #![trigger t.locals[m]]
            0 <= m < n ==> not_outranked(
                rules::skip_by(
                    rules::first_match(t.locals[m].patterns, t.locals[m].ids, path),
                    Tier::Glob,
                    depth,
                    Origin::Local(t.locals[m].depth),
                ),
                t.locals_weighed(best, path, depth, n),
            ),
    decreases n,
{
    if n > 0 {
        lemma_locals_bounds(t, best, path, depth, n - 1);
    }
}

proof fn lemma_resolved_grows(t: TreeModel, path: Path, k: int, n: int)
    requires
        0 <= k <= n <= path.len() + 1,
    ensures
        forall|x: Decision|
            !#[trigger] rules::beats(x, t.resolved_to(path, k)) ==> !rules::beats(x, t.resolved_to(path, n)),
    decreases n - k,
{
    if k < n {
        lemma_resolved_grows(t, path, k, n - 1);
        lemma_step_bounds(
            t,
            t.resolved_to(path, n - 1),
            path.take(n - 1),
            rules::component_of(path, n - 1),
            n as usize,
        );
    }
}

/// The deepest match wins, ties broken by tier and then origin: no rule that matches the path
/// or one of its ancestors outranks the decision.
pub proof fn the_strongest_match_wins(t: TreeModel, path: Path, k: int)
    requires
        0 <= k <= path.len(),
        path.len() < usize::MAX,
    ensures
        ({
            let out = t.resolved(path);
            let depth = (k + 1) as usize;
            let here = crate::primitives::path::slashed(path.take(k));
            &&& not_outranked(t.explicit_candidate(path.take(k), depth), out)
            &&& not_outranked(
                rules::skip_by(
                    t.junk_named(rules::component_of(path, k), t.junk_names.len() as int),
                    Tier::Junk,
                    depth,
                    Origin::Junk,
                ),
                out,
            )
            &&& not_outranked(
                rules::skip_by(rules::first_match(t.globs, t.glob_ids, here), Tier::Glob, depth, Origin::Global),
                out,
            )
            &&& not_outranked(
                rules::skip_by(
                    rules::first_match(t.junk_globs, t.junk_glob_ids, here),
                    Tier::Junk,
                    depth,
                    Origin::Junk,
                ),
                out,
            )
            &&& forall|m: int| #![trigger t.locals[m]]
                0 <= m < t.locals.len() ==> not_outranked(
                    rules::skip_by(
                        rules::first_match(t.locals[m].patterns, t.locals[m].ids, here),
                        Tier::Glob,
                        depth,
                        Origin::Local(t.locals[m].depth),
                    ),
                    out,
                )
        }),
{
    lemma_step_bounds(
        t,
        t.resolved_to(path, k),
        path.take(k),
        rules::component_of(path, k),
        (k + 1) as usize,
    );
    lemma_resolved_grows(t, path, k + 1, path.len() as int + 1);
    let here = t.resolved_to(path, k + 1);
    let out = t.resolved(path);
    assert forall|x: Decision| !rules::beats(x, here) implies !#[trigger] rules::beats(x, out) by {
        assert(!rules::beats(x, t.resolved_to(path, k + 1)));
    }
}

/// Whether any rule at all matches this directory on the way down a path.
pub open spec fn some_rule_matches(t: TreeModel, path: Path, k: int) -> bool {
    let here = crate::primitives::path::slashed(path.take(k));
    ||| t.explicit.dom().contains(path.take(k))
    ||| t.junk_named(rules::component_of(path, k), t.junk_names.len() as int) is Some
    ||| rules::first_match(t.globs, t.glob_ids, here) is Some
    ||| rules::first_match(t.junk_globs, t.junk_glob_ids, here) is Some
    ||| exists|m: int| #![trigger t.locals[m]]
        0 <= m < t.locals.len() && rules::first_match(t.locals[m].patterns, t.locals[m].ids, here) is Some
}

proof fn lemma_locals_silent(t: TreeModel, best: Decision, path: Seq<u8>, depth: usize, n: int)
    requires
        0 <= n <= t.locals.len(),
        forall|m: int| #![trigger t.locals[m]]
            0 <= m < t.locals.len() ==> rules::first_match(t.locals[m].patterns, t.locals[m].ids, path)
                is None,
    ensures
        t.locals_weighed(best, path, depth, n) == best,
    decreases n,
{
    if n > 0 {
        lemma_locals_silent(t, best, path, depth, n - 1);
        assert(rules::first_match(t.locals[n - 1].patterns, t.locals[n - 1].ids, path) is None);
    }
}

proof fn lemma_unmatched_to(t: TreeModel, path: Path, n: int)
    requires
        0 <= n <= path.len() + 1,
        forall|k: int| 0 <= k <= path.len() ==> !#[trigger] some_rule_matches(t, path, k),
    ensures
        t.resolved_to(path, n) == rules::nothing(),
    decreases n,
{
    if n > 0 {
        lemma_unmatched_to(t, path, n - 1);
        assert(!some_rule_matches(t, path, n - 1));
        lemma_locals_silent(
            t,
            rules::nothing(),
            crate::primitives::path::slashed(path.take(n - 1)),
            n as usize,
            t.locals.len() as int,
        );
    }
}

/// A path no rule matches is skipped.
pub proof fn an_unmatched_path_is_skipped(t: TreeModel, path: Path)
    requires
        forall|k: int| 0 <= k <= path.len() ==> !#[trigger] some_rule_matches(t, path, k),
    ensures
        t.resolved(path) == rules::nothing(),
        t.resolved(path).verdict == Verdict::Skip,
{
    lemma_unmatched_to(t, path, path.len() as int + 1);
}

proof fn lemma_locals_skip(t: TreeModel, best: Decision, path: Seq<u8>, depth: usize, n: int)
    requires
        0 <= n <= t.locals.len(),
        best.verdict == Verdict::Skip,
    ensures
        t.locals_weighed(best, path, depth, n).verdict == Verdict::Skip,
    decreases n,
{
    if n > 0 {
        lemma_locals_skip(t, best, path, depth, n - 1);
    }
}

proof fn lemma_same_above(t: TreeModel, a: Path, b: Path, n: int)
    requires
        crate::primitives::path::holds_path(a, b),
        0 <= n <= a.len() + 1,
    ensures
        t.resolved_to(a, n) == t.resolved_to(b, n),
    decreases n,
{
    if n > 0 {
        lemma_same_above(t, a, b, n - 1);
        assert(a.take(n - 1) =~= b.take(n - 1)) by {
            assert(b.take(a.len() as int) == a);
        }
        if n > 1 {
            assert(b.take(a.len() as int)[n - 2] == b[n - 2]);
        }
    }
}

proof fn lemma_pruned_to(t: TreeModel, dir: Path, path: Path, n: int)
    requires
        crate::primitives::path::holds_path(dir, path),
        dir.len() + 1 <= n <= path.len() + 1,
        t.resolved(dir).verdict == Verdict::Skip,
        !t.may_capture_under(dir),
    ensures
        t.resolved_to(path, n).verdict == Verdict::Skip,
    decreases n,
{
    if n == dir.len() + 1 {
        lemma_same_above(t, dir, path, n);
    } else {
        lemma_pruned_to(t, dir, path, n - 1);
        let here = path.take(n - 1);
        assert(crate::primitives::path::holds_path(dir, here)) by {
            assert(here.take(dir.len() as int) =~= path.take(dir.len() as int));
        }
        let best = t.resolved_to(path, n - 1);
        if t.explicit.dom().contains(here) {
            assert(t.explicit[here].verdict != Verdict::Capture);
        }
        let raw = crate::primitives::path::slashed(here);
        let depth = n as usize;
        let by_path = rules::weighed(best, t.explicit_candidate(here, depth));
        let by_name = rules::weighed(
            by_path,
            rules::skip_by(
                t.junk_named(rules::component_of(path, n - 1), t.junk_names.len() as int),
                Tier::Junk,
                depth,
                Origin::Junk,
            ),
        );
        let by_glob = rules::weighed(
            by_name,
            rules::skip_by(rules::first_match(t.globs, t.glob_ids, raw), Tier::Glob, depth, Origin::Global),
        );
        let by_junk = rules::weighed(
            by_glob,
            rules::skip_by(
                rules::first_match(t.junk_globs, t.junk_glob_ids, raw),
                Tier::Junk,
                depth,
                Origin::Junk,
            ),
        );
        lemma_locals_skip(t, by_junk, raw, depth, t.locals.len() as int);
    }
}

/// Pruning is safe: beneath a skipped directory under which nothing is explicitly captured,
/// nothing is captured.
pub proof fn pruning_loses_nothing(t: TreeModel, dir: Path, path: Path)
    requires
        crate::primitives::path::holds_path(dir, path),
        t.resolved(dir).verdict == Verdict::Skip,
        !t.may_capture_under(dir),
    ensures
        t.resolved(path).verdict == Verdict::Skip,
{
    lemma_pruned_to(t, dir, path, path.len() as int + 1);
}

/// The steps down a path, each by its last component as [`crate::config::rules::RuleTree::descend`]
/// takes it.
pub open spec fn descended_to(t: TreeModel, path: Path, n: int) -> Decision
    decreases n,
{
    if n <= 0 {
        rules::nothing()
    } else {
        t.step(
            descended_to(t, path, n - 1),
            path.take(n - 1),
            rules::last_component(path.take(n - 1)),
            n as usize,
        )
    }
}

/// Resolving is the fold of descending, so what a walk keeps is what `captures` keeps. The
/// root has no name of its own, so no junk name may be empty or a lone slash.
pub proof fn resolve_is_the_fold_of_descend(t: TreeModel, path: Path, n: int)
    requires
        0 <= n <= path.len() + 1,
        t.junk_named(Seq::empty(), t.junk_names.len() as int) is None,
        t.junk_named(seq![SLASH], t.junk_names.len() as int) is None,
    ensures
        descended_to(t, path, n) == t.resolved_to(path, n),
        n == path.len() + 1 ==> descended_to(t, path, n) == t.resolved(path),
    decreases n,
{
    if n > 0 {
        resolve_is_the_fold_of_descend(t, path, n - 1);
        if n > 1 {
            assert(path.take(n - 1).last() == path[n - 2]);
        }
    }
}

proof fn lemma_entries_keep(
    m: TreeModel,
    entries: Seq<EntryView>,
    verdict: Verdict,
    depth: usize,
    file: Path,
    path: Path,
)
    requires
        m.explicit.dom().contains(path),
        m.explicit[path].origin == Origin::Global,
    ensures
        rules::with_entries(m, entries, verdict, Origin::Local(depth), file).explicit.dom().contains(path),
        rules::with_entries(m, entries, verdict, Origin::Local(depth), file).explicit[path]
            == m.explicit[path],
    decreases entries.len(),
{
    if entries.len() > 0 {
        lemma_entries_keep(m, entries.drop_last(), verdict, depth, file, path);
    }
}

/// A global rule beats a local one on an exact tie: whatever a local file says of a path that
/// the operator's config names, the config's rule stays.
pub proof fn a_global_rule_outlives_local_files(
    m: TreeModel,
    depth: usize,
    file: Path,
    rules: crate::config::local::LocalRules,
    path: Path,
)
    requires
        m.explicit.dom().contains(path),
        m.explicit[path].origin == Origin::Global,
    ensures
        rules::with_local_paths(m, depth, file, rules).explicit.dom().contains(path),
        rules::with_local_paths(m, depth, file, rules).explicit[path] == m.explicit[path],
{
    let ignored = crate::config::rules::entry_views(rules.ignore@);
    lemma_entries_keep(m, ignored, Verdict::Skip, depth, file, path);
    lemma_entries_keep(
        rules::with_entries(m, ignored, Verdict::Skip, Origin::Local(depth), file),
        crate::config::rules::entry_views(rules.reinclude@),
        Verdict::Capture,
        depth,
        file,
        path,
    );
}

spec fn known(t: TreeModel, d: Decision) -> bool {
    match d.rule {
        Some(id) => id.0 < t.metas.len(),
        None => true,
    }
}

proof fn lemma_match_known(t: TreeModel, patterns: Seq<Seq<char>>, ids: Seq<rules::RuleId>, path: Seq<u8>)
    requires
        patterns.len() == ids.len(),
        rules::ids_in(ids, t.metas.len()),
    ensures
        rules::first_match(patterns, ids, path) matches Some(id) ==> id.0 < t.metas.len(),
    decreases patterns.len(),
{
    if patterns.len() > 0 {
        if rules::glob_matches(patterns[0], path) {
            assert(ids[0].0 < t.metas.len());
        } else {
            assert forall|i: int| 0 <= i < ids.skip(1).len() implies (#[trigger] ids.skip(1)[i]).0
                < t.metas.len() by {
                assert(ids[i + 1].0 < t.metas.len());
            }
            lemma_match_known(t, patterns.skip(1), ids.skip(1), path);
        }
    }
}

proof fn lemma_name_known(t: TreeModel, component: Seq<u8>, n: int)
    requires
        t.wf(),
        n <= t.junk_names.len(),
    ensures
        t.junk_named(component, n) matches Some(id) ==> id.0 < t.metas.len(),
    decreases n,
{
    if n > 0 {
        assert(t.junk_names[n - 1].1.0 < t.metas.len());
        lemma_name_known(t, component, n - 1);
    }
}

proof fn lemma_locals_known(t: TreeModel, best: Decision, path: Seq<u8>, depth: usize, n: int)
    requires
        t.wf(),
        n <= t.locals.len(),
        known(t, best),
    ensures
        known(t, t.locals_weighed(best, path, depth, n)),
    decreases n,
{
    if n > 0 {
        lemma_locals_known(t, best, path, depth, n - 1);
        let l = t.locals[n - 1];
        lemma_match_known(t, l.patterns, l.ids, path);
    }
}

proof fn lemma_known_to(t: TreeModel, path: Path, n: int)
    requires
        t.wf(),
    ensures
        known(t, t.resolved_to(path, n)),
    decreases n,
{
    if n > 0 {
        lemma_known_to(t, path, n - 1);
        let here = path.take(n - 1);
        let written = crate::primitives::path::slashed(here);
        let component = rules::component_of(path, n - 1);
        lemma_name_known(t, component, t.junk_names.len() as int);
        lemma_match_known(t, t.globs, t.glob_ids, written);
        lemma_match_known(t, t.junk_globs, t.junk_glob_ids, written);
        let best = t.resolved_to(path, n - 1);
        let by_path = rules::weighed(best, t.explicit_candidate(here, n as usize));
        assert(known(t, by_path));
        let by_name = rules::weighed(
            by_path,
            rules::skip_by(
                t.junk_named(component, t.junk_names.len() as int),
                Tier::Junk,
                n as usize,
                Origin::Junk,
            ),
        );
        let by_glob = rules::weighed(
            by_name,
            rules::skip_by(
                rules::first_match(t.globs, t.glob_ids, written),
                Tier::Glob,
                n as usize,
                Origin::Global,
            ),
        );
        let by_junk = rules::weighed(
            by_glob,
            rules::skip_by(
                rules::first_match(t.junk_globs, t.junk_glob_ids, written),
                Tier::Junk,
                n as usize,
                Origin::Junk,
            ),
        );
        lemma_locals_known(t, by_junk, written, n as usize, t.locals.len() as int);
    }
}

/// The rule a decision names is one whose text and source the tree knows, so a report can
/// always say what decided.
pub proof fn a_decision_names_a_known_rule(t: TreeModel, path: Path)
    requires
        t.wf(),
    ensures
        t.resolved(path).rule matches Some(id) ==> id.0 < t.metas.len(),
{
    lemma_known_to(t, path, path.len() as int + 1);
}

/// What decides between two rules: the deeper of the two; of two at one depth the path before the
/// glob before the junk; and of two of those the config before the deeper local file before the
/// shallower one before the junk.
pub proof fn the_nearer_rule_decides(a: Decision, b: Decision)
    ensures
        a.depth > b.depth ==> rules::beats(a, b),
        a.depth == b.depth && a.tier == Tier::ExplicitPath && b.tier != Tier::ExplicitPath
            ==> rules::beats(a, b),
        a.depth == b.depth && a.tier == Tier::Glob && b.tier == Tier::Junk ==> rules::beats(a, b),
        a.depth == b.depth && a.tier == b.tier && a.origin == Origin::Global && b.origin
            != Origin::Global ==> rules::beats(a, b),
        a.depth == b.depth && a.tier == b.tier ==> match (a.origin, b.origin) {
            (Origin::Local(x), Origin::Local(y)) => rules::beats(a, b) == (x > y),
            (Origin::Local(_), Origin::Junk) => rules::beats(a, b),
            _ => true,
        },
        a.depth == b.depth && a.tier == b.tier && a.origin == b.origin ==> !rules::beats(a, b),
{
}

/// A rule that names a directory holds for everything beneath it, down to the next directory that
/// any rule matches.
pub proof fn a_rule_holds_until_the_next(t: TreeModel, path: Path, k: int)
    requires
        0 <= k <= path.len() < usize::MAX,
        forall|j: int| k < j <= path.len() ==> !#[trigger] some_rule_matches(t, path, j),
    ensures
        t.resolved(path) == t.resolved(path.take(k)),
        t.explicit.dom().contains(path.take(k)) ==> t.resolved(path).verdict
            == t.explicit[path.take(k)].verdict,
{
    let above = path.take(k);
    assert(above.take(above.len() as int) =~= above);
    assert(path.take(above.len() as int) =~= above);
    lemma_same_above(t, above, path, k + 1);
    lemma_kept_from(t, path, k, path.len() as int + 1);
    if t.explicit.dom().contains(above) {
        crate::config::order::a_named_path_gets_its_verdict(t, above);
    }
}

proof fn lemma_kept_from(t: TreeModel, path: Path, k: int, n: int)
    requires
        0 <= k < n <= path.len() + 1,
        forall|j: int| k < j <= path.len() ==> !#[trigger] some_rule_matches(t, path, j),
    ensures
        t.resolved_to(path, n) == t.resolved_to(path, k + 1),
    decreases n,
{
    if n > k + 1 {
        lemma_kept_from(t, path, k, n - 1);
        assert(!some_rule_matches(t, path, n - 1));
        lemma_locals_silent(
            t,
            t.resolved_to(path, n - 1),
            crate::primitives::path::slashed(path.take(n - 1)),
            n as usize,
            t.locals.len() as int,
        );
    }
}

/// A list of patterns is searched in order: what it answers with is the first that matches, and it
/// is silent only where none does.
pub proof fn a_match_is_the_first_of_its_list(
    patterns: Seq<Seq<char>>,
    ids: Seq<RuleId>,
    path: Seq<u8>,
)
    requires
        patterns.len() == ids.len(),
    ensures
        match rules::first_match(patterns, ids, path) {
            Some(id) => exists|i: int|
                0 <= i < ids.len() && #[trigger] ids[i] == id && rules::glob_matches(
                    patterns[i],
                    path,
                ) && forall|j: int|
                    0 <= j < i ==> !rules::glob_matches(#[trigger] patterns[j], path),
            None => forall|i: int|
                0 <= i < patterns.len() ==> !rules::glob_matches(#[trigger] patterns[i], path),
        },
    decreases patterns.len(),
{
    if patterns.len() > 0 {
        if rules::glob_matches(patterns[0], path) {
            assert(ids[0] == rules::first_match(patterns, ids, path)->0);
        } else {
            let more = patterns.skip(1);
            let rest = ids.skip(1);
            a_match_is_the_first_of_its_list(more, rest, path);
            match rules::first_match(more, rest, path) {
                Some(id) => {
                    let i = choose|i: int|
                        0 <= i < rest.len() && #[trigger] rest[i] == id && rules::glob_matches(
                            more[i],
                            path,
                        ) && forall|j: int|
                            0 <= j < i ==> !rules::glob_matches(#[trigger] more[j], path);
                    assert(ids[i + 1] == id);
                    assert(patterns[i + 1] == more[i]);
                    assert forall|j: int| 0 <= j < i + 1 implies !rules::glob_matches(
                        #[trigger] patterns[j],
                        path,
                    ) by {
                        if j > 0 {
                            assert(more[j - 1] == patterns[j]);
                        }
                    }
                },
                None => {
                    assert forall|i: int| 0 <= i < patterns.len() implies !rules::glob_matches(
                        #[trigger] patterns[i],
                        path,
                    ) by {
                        if i > 0 {
                            assert(more[i - 1] == patterns[i]);
                        }
                    }
                },
            }
        }
    }
}

proof fn lemma_held(
    before: Map<Path, rules::Held>,
    paths: Seq<Path>,
    verdict: Verdict,
    first: int,
    p: Path,
)
    requires
        0 <= first,
        first + paths.len() <= usize::MAX,
    ensures
        ({
            let after = rules::held_paths(before, paths, verdict, first);
            &&& after.dom().contains(p) == (before.dom().contains(p) || paths.contains(p))
            &&& !paths.contains(p) && before.dom().contains(p) ==> after[p] == before[p]
            &&& paths.contains(p) ==> after[p].verdict == verdict && after[p].origin
                == Origin::Global && first <= after[p].id.0 < first + paths.len() && paths[after[p].id.0
                - first] == p
        }),
    decreases paths.len(),
{
    if paths.len() > 0 {
        let above = paths.drop_last();
        lemma_held(before, above, verdict, first, p);
        if paths.contains(p) && paths.last() != p {
            let i = choose|i: int| 0 <= i < paths.len() && paths[i] == p;
            assert(above[i] == p);
        }
        if above.contains(p) {
            let i = choose|i: int| 0 <= i < above.len() && above[i] == p;
            assert(paths[i] == p);
        }
        if paths.last() == p {
            assert(paths[paths.len() - 1] == p);
        }
    }
}

/// What a config lists is what its tree holds: an ignored path is skipped whatever else names it, a
/// watched or re-included one is captured, no other path is named at all, and each is known by its
/// own text.
pub proof fn a_listed_path_gets_its_verdict(
    watch: Seq<Path>,
    reinclude: Seq<Path>,
    ignore: Seq<Path>,
    globs: Seq<Seq<char>>,
    junk: Seq<Junk>,
    p: Path,
)
    requires
        watch.len() + reinclude.len() + ignore.len() + junk.len() + globs.len() <= usize::MAX,
        p.len() < usize::MAX,
    ensures
        ({
            let t = rules::built(watch, reinclude, ignore, globs, junk);
            let shown = crate::octets::lossy(crate::primitives::path::written(p));
            &&& t.explicit.dom().contains(p) == (watch.contains(p) || reinclude.contains(p)
                || ignore.contains(p))
            &&& ignore.contains(p) ==> t.resolved(p).verdict == Verdict::Skip
            &&& !ignore.contains(p) && (watch.contains(p) || reinclude.contains(p)) ==> t.resolved(
                p,
            ).verdict == Verdict::Capture
            &&& t.explicit.dom().contains(p) ==> t.metas[t.explicit[p].id.0 as int].text == shown
        }),
{
    let t = rules::built(watch, reinclude, ignore, globs, junk);
    let w = watch.len() as int;
    let r = reinclude.len() as int;
    let a = rules::held_paths(Map::empty(), watch, Verdict::Capture, 0);
    let b = rules::held_paths(a, reinclude, Verdict::Capture, w);
    lemma_held(Map::empty(), watch, Verdict::Capture, 0, p);
    lemma_held(a, reinclude, Verdict::Capture, w, p);
    lemma_held(b, ignore, Verdict::Skip, w + r, p);
    if t.explicit.dom().contains(p) {
        crate::config::order::a_named_path_gets_its_verdict(t, p);
        let id = t.explicit[p].id.0 as int;
        let first = rules::path_metas(watch);
        let second = rules::path_metas(reinclude);
        let third = rules::path_metas(ignore);
        if ignore.contains(p) {
            assert(t.metas[id] == third[id - w - r]);
        } else if reinclude.contains(p) {
            assert(t.metas[id] == second[id - w]);
        } else {
            assert(t.metas[id] == first[id]);
        }
    }
}

/// Each glob of a config is in its tree, by its own text and in its order; one without a separator
/// matches at any depth.
pub proof fn a_listed_glob_keeps_its_text(
    watch: Seq<Path>,
    reinclude: Seq<Path>,
    ignore: Seq<Path>,
    globs: Seq<Seq<char>>,
    junk: Seq<Junk>,
    i: int,
)
    requires
        watch.len() + reinclude.len() + ignore.len() + junk.len() + globs.len() <= usize::MAX,
        0 <= i < globs.len(),
    ensures
        ({
            let t = rules::built(watch, reinclude, ignore, globs, junk);
            &&& t.globs.len() == globs.len()
            &&& t.metas[t.glob_ids[i].0 as int].text == globs[i]
            &&& globs[i].contains('/') ==> t.globs[i] == globs[i]
            &&& !globs[i].contains('/') ==> t.globs[i] == seq!['*', '*', '/'] + globs[i]
        }),
{
    let t = rules::built(watch, reinclude, ignore, globs, junk);
    let n = watch.len() + reinclude.len() + ignore.len() + junk.len();
    reveal_strlit("**/");
    assert("**/"@ =~= seq!['*', '*', '/']);
    assert(t.glob_ids[i].0 == n + i);
    assert(t.metas[n + i] == rules::glob_metas(globs)[i]);
}

/// Each name and each glob of the junk list is in the tree, by its own text, and nothing else of
/// junk is.
pub proof fn junk_is_what_the_list_says(junk: Seq<Junk>, first: int, name: Seq<char>)
    requires
        0 <= first,
        first + junk.len() <= usize::MAX,
    ensures
        (exists|k: int|
            0 <= k < rules::junk_name_rules(junk, first).len() && (
            #[trigger] rules::junk_name_rules(junk, first)[k]).0 == name) == (exists|i: int|
            0 <= i < junk.len() && (#[trigger] junk[i] matches Junk::Name(s) && s@ == name)),
        rules::junk_glob_texts(junk).contains(name) == (exists|i: int|
            0 <= i < junk.len() && (#[trigger] junk[i] matches Junk::Glob(s) && s@ == name)),
        forall|k: int|
            0 <= k < rules::junk_name_rules(junk, first).len() ==> {
                let row = #[trigger] rules::junk_name_rules(junk, first)[k];
                &&& first <= row.1.0 < first + junk.len()
                &&& junk[row.1.0 - first] matches Junk::Name(s) && s@ == row.0
            },
        rules::junk_glob_texts(junk).len() == rules::junk_glob_rules(junk, first).len(),
        forall|k: int|
            0 <= k < rules::junk_glob_rules(junk, first).len() ==> {
                let id = #[trigger] rules::junk_glob_rules(junk, first)[k];
                &&& first <= id.0 < first + junk.len()
                &&& junk[id.0 - first] matches Junk::Glob(s) && s@ == rules::junk_glob_texts(
                    junk,
                )[k]
            },
    decreases junk.len(),
{
    if junk.len() > 0 {
        let above = junk.drop_last();
        junk_is_what_the_list_says(above, first, name);
        let n = junk.len() - 1;
        let names = rules::junk_name_rules(above, first);
        let all = rules::junk_name_rules(junk, first);
        let texts = rules::junk_glob_texts(above);
        let more = rules::junk_glob_texts(junk);
        let ids = rules::junk_glob_rules(above, first);
        let every = rules::junk_glob_rules(junk, first);
        assert forall|k: int| 0 <= k < all.len() implies {
            let row = #[trigger] all[k];
            &&& first <= row.1.0 < first + junk.len()
            &&& junk[row.1.0 - first] matches Junk::Name(s) && s@ == row.0
        } by {
            if k < names.len() {
                assert(all[k] == names[k]);
                assert(above[names[k].1.0 - first] == junk[names[k].1.0 - first]);
            }
        }
        assert forall|k: int| 0 <= k < every.len() implies {
            let id = #[trigger] every[k];
            &&& first <= id.0 < first + junk.len()
            &&& junk[id.0 - first] matches Junk::Glob(s) && s@ == more[k]
        } by {
            if k < ids.len() {
                assert(every[k] == ids[k] && more[k] == texts[k]);
                assert(above[ids[k].0 - first] == junk[ids[k].0 - first]);
            }
        }
        if exists|k: int| 0 <= k < all.len() && (#[trigger] all[k]).0 == name {
            let k = choose|k: int| 0 <= k < all.len() && (#[trigger] all[k]).0 == name;
            assert(junk[all[k].1.0 - first] matches Junk::Name(s) && s@ == name);
        }
        if exists|i: int|
            0 <= i < junk.len() && (#[trigger] junk[i] matches Junk::Name(s) && s@ == name) {
            let i = choose|i: int|
                0 <= i < junk.len() && (#[trigger] junk[i] matches Junk::Name(s) && s@ == name);
            if i < n {
                assert(above[i] == junk[i]);
                let k = choose|k: int| 0 <= k < names.len() && (#[trigger] names[k]).0 == name;
                assert(all[k] == names[k]);
            } else {
                assert(all[all.len() - 1].0 == name);
            }
        }
        if more.contains(name) {
            let k = choose|k: int| 0 <= k < more.len() && more[k] == name;
            assert(junk[every[k].0 - first] matches Junk::Glob(s) && s@ == name);
        }
        if exists|i: int|
            0 <= i < junk.len() && (#[trigger] junk[i] matches Junk::Glob(s) && s@ == name) {
            let i = choose|i: int|
                0 <= i < junk.len() && (#[trigger] junk[i] matches Junk::Glob(s) && s@ == name);
            if i < n {
                assert(above[i] == junk[i]);
                let k = choose|k: int| 0 <= k < texts.len() && texts[k] == name;
                assert(more[k] == texts[k]);
            } else {
                assert(more[more.len() - 1] == name);
            }
        }
    }
}

/// A directory's own name, however it is written, stands for itself in a local glob: only the
/// characters that mean something there are bracketed.
pub proof fn a_literal_stands_for_itself(a: Seq<char>, b: Seq<char>, c: char)
    ensures
        rules::glob_literal(a + b) == rules::glob_literal(a) + rules::glob_literal(b),
        rules::glob_literal(seq![c]) == if c == '*' || c == '?' || c == '[' || c == ']' || c == '{' || c
            == '}' {
            seq!['[', c, ']']
        } else {
            seq![c]
        },
    decreases b.len(),
{
    assert(seq![c].drop_last() =~= Seq::<char>::empty());
    assert(rules::glob_literal(Seq::<char>::empty()) =~= Seq::<char>::empty());
    assert(rules::glob_literal(seq![c]) =~= rules::glob_literal_char(c));
    if b.len() == 0 {
        assert(a + b =~= a);
        assert(rules::glob_literal(a) + rules::glob_literal(b) =~= rules::glob_literal(a));
    } else {
        a_literal_stands_for_itself(a, b.drop_last(), c);
        assert((a + b).drop_last() =~= a + b.drop_last());
        assert(rules::glob_literal(a + b) =~= rules::glob_literal(a) + rules::glob_literal(b));
    }
}

/// A local glob begins with the directory that declares it, and matches beneath that directory
/// alone: at any depth where it has no separator, and directly beneath it where it has one.
pub proof fn a_local_glob_stays_beneath_its_directory(base: Path, pattern: Seq<char>)
    ensures
        ({
            let shown = rules::glob_literal(
                crate::octets::lossy(crate::primitives::path::slashed(base)),
            );
            let out = rules::rooted(base, pattern);
            &&& shown.is_prefix_of(out)
            &&& pattern.is_suffix_of(out)
            &&& out.len() == shown.len() + pattern.len() + if pattern.contains('/') {
                1int
            } else {
                4
            }
            &&& out[shown.len() as int] == '/'
            &&& rules::unrooted(out) == out
        }),
{
    reveal_strlit("/");
    reveal_strlit("/**/");
    let shown = rules::glob_literal(
        crate::octets::lossy(crate::primitives::path::slashed(base)),
    );
    let out = rules::rooted(base, pattern);
    assert(shown =~= out.subrange(0, shown.len() as int));
    assert(pattern =~= out.subrange(out.len() - pattern.len(), out.len() as int));
    assert(out[shown.len() as int] == '/');
    assert(out.contains('/'));
}

/// A pattern list is refused exactly where one of its patterns cannot be read, by the first that
/// cannot, or where the readable ones cannot stand together.
pub proof fn the_first_bad_pattern_is_named(patterns: Seq<Seq<char>>)
    ensures
        match rules::first_fault(patterns) {
            Some(fault) => exists|i: int|
                0 <= i < patterns.len() && #[trigger] patterns[i] == fault.0 && rules::glob_fault(
                    rules::unrooted(patterns[i]),
                ) == Some(fault.1) && forall|j: int|
                    0 <= j < i ==> rules::glob_fault(
                        rules::unrooted(#[trigger] patterns[j]),
                    ) is None,
            None => forall|i: int|
                0 <= i < patterns.len() ==> rules::glob_fault(
                    rules::unrooted(#[trigger] patterns[i]),
                ) is None,
        },
    decreases patterns.len(),
{
    if patterns.len() > 0 {
        let above = patterns.drop_last();
        the_first_bad_pattern_is_named(above);
        match rules::first_fault(above) {
            Some(fault) => {
                let i = choose|i: int|
                    0 <= i < above.len() && #[trigger] above[i] == fault.0 && rules::glob_fault(
                        rules::unrooted(above[i]),
                    ) == Some(fault.1) && forall|j: int|
                        0 <= j < i ==> rules::glob_fault(
                            rules::unrooted(#[trigger] above[j]),
                        ) is None;
                assert(patterns[i] == above[i]);
                assert forall|j: int| 0 <= j < i implies rules::glob_fault(
                    rules::unrooted(#[trigger] patterns[j]),
                ) is None by {
                    assert(above[j] == patterns[j]);
                }
            },
            None => {
                let n = patterns.len() - 1;
                assert forall|j: int| 0 <= j < n implies rules::glob_fault(
                    rules::unrooted(#[trigger] patterns[j]),
                ) is None by {
                    assert(above[j] == patterns[j]);
                }
                assert(patterns[n] == patterns.last());
            },
        }
    }
}

/// Of what each kind of rule says at one step, the strongest is taken: nothing that was weighed
/// outranks it, and it is what came before or one of what was weighed. A glob or a name of junk only
/// ever skips.
pub proof fn the_strongest_of_a_step_is_taken(
    best: Decision,
    depth: usize,
    explicit: Option<(Verdict, RuleId, Origin)>,
    name: Option<RuleId>,
    glob: Option<RuleId>,
    junk: Option<RuleId>,
    locals: Seq<(usize, Option<RuleId>)>,
    n: int,
)
    requires
        0 <= n <= locals.len(),
    ensures
        ({
            let out = rules::decided(best, depth, explicit, name, glob, junk, locals, n);
            let skipped = |id: RuleId, tier: Tier, origin: Origin|
                Decision { verdict: Verdict::Skip, tier, depth, origin, rule: Some(id) };
            let named = |held: (Verdict, RuleId, Origin)|
                Decision {
                    verdict: held.0,
                    tier: Tier::ExplicitPath,
                    depth,
                    origin: held.2,
                    rule: Some(held.1),
                };
            &&& !rules::beats(best, out)
            &&& explicit matches Some(held) ==> !rules::beats(named(held), out)
            &&& name matches Some(id) ==> !rules::beats(skipped(id, Tier::Junk, Origin::Junk), out)
            &&& glob matches Some(id) ==> !rules::beats(
                skipped(id, Tier::Glob, Origin::Global),
                out,
            )
            &&& junk matches Some(id) ==> !rules::beats(skipped(id, Tier::Junk, Origin::Junk), out)
            &&& forall|i: int|
                0 <= i < n ==> ((#[trigger] locals[i]).1 matches Some(id) ==> !rules::beats(
                    skipped(id, Tier::Glob, Origin::Local(locals[i].0)),
                    out,
                ))
            &&& out == best || (explicit matches Some(held) && out == named(held)) || (
            out.verdict == Verdict::Skip && out.depth == depth && out.rule is Some && (out.rule
                == name || out.rule == glob || out.rule == junk || exists|i: int|
                0 <= i < n && (#[trigger] locals[i]).1 == out.rule))
        }),
    decreases n,
{
    if n > 0 {
        the_strongest_of_a_step_is_taken(best, depth, explicit, name, glob, junk, locals, n - 1);
        let before = rules::decided(best, depth, explicit, name, glob, junk, locals, n - 1);
        let out = rules::decided(best, depth, explicit, name, glob, junk, locals, n);
        let last = locals[n - 1];
        assert forall|x: Decision| !rules::beats(x, before) implies !#[trigger] rules::beats(
            x,
            out,
        ) by {
            weighing_never_weakens(
                x,
                before,
                rules::skip_by(last.1, Tier::Glob, depth, Origin::Local(last.0)),
            );
        }
        if out != before {
            assert(locals[n - 1].1 == out.rule);
        }
    }
}

} // verus!
