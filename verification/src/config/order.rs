//! That the order in which local rule files are found decides nothing.

use crate::config::local::LocalRules;
use crate::config::rules;
use crate::config::rules::{Decision, EntryView, Held, LocalModel, Origin, Path, Tier, TreeModel, Verdict};
use vstd::prelude::*;

verus! {

/// Two decisions that differ at most in the number of the rule that made them.
pub open spec fn alike(a: Decision, b: Decision) -> bool {
    a.verdict == b.verdict && a.tier == b.tier && a.depth == b.depth && a.origin == b.origin
}

/// Two sets of explicit paths that differ at most in the numbers of their rules.
pub open spec fn same_paths(a: Map<Path, Held>, b: Map<Path, Held>) -> bool {
    forall|p: Path|
        #![trigger a.dom().contains(p)]
        #![trigger b.dom().contains(p)]
        a.dom().contains(p) == b.dom().contains(p) && (a.dom().contains(p) ==> a[p].verdict
            == b[p].verdict && a[p].origin == b[p].origin)
}

/// What a local file says of a path that it names.
pub open spec fn named_by(rules: LocalRules, path: Path) -> Option<Verdict> {
    if names(rules::entry_views(rules.ignore@), path) {
        Some(Verdict::Skip)
    } else if names(rules::entry_views(rules.reinclude@), path) {
        Some(Verdict::Capture)
    } else {
        None
    }
}

pub open spec fn names(entries: Seq<EntryView>, path: Path) -> bool {
    exists|i: int| 0 <= i < entries.len() && (#[trigger] entries[i]).path == path
}

/// A path of one map is held as in another, or by neither.
spec fn held_as(a: Map<Path, Held>, b: Map<Path, Held>, path: Path) -> bool {
    a.dom().contains(path) == b.dom().contains(path) && (a.dom().contains(path) ==> a[path]
        == b[path])
}

proof fn lemma_entries_at(
    m: TreeModel,
    entries: Seq<EntryView>,
    verdict: Verdict,
    origin: Origin,
    file: Path,
    path: Path,
)
    ensures
        ({
            let after = rules::with_entries(m, entries, verdict, origin, file).explicit;
            if names(entries, path) && rules::takes(m.explicit, path, origin) {
                after.dom().contains(path) && after[path].verdict == verdict && after[path].origin
                    == origin
            } else {
                held_as(after, m.explicit, path)
            }
        }),
    decreases entries.len(),
{
    if entries.len() > 0 {
        let most = entries.drop_last();
        lemma_entries_at(m, most, verdict, origin, file, path);
        if names(most, path) {
            let i = choose|i: int| 0 <= i < most.len() && (#[trigger] most[i]).path == path;
            assert(entries[i].path == path);
        } else if names(entries, path) {
            let i = choose|i: int| 0 <= i < entries.len() && (#[trigger] entries[i]).path == path;
            if i < most.len() {
                assert(most[i].path == path);
            }
        }
        if entries.last().path == path {
            assert(entries[entries.len() - 1].path == path);
        }
    }
}

proof fn lemma_local_at(m: TreeModel, base: Path, file: Path, rules: LocalRules, path: Path)
    requires
        base.len() < usize::MAX,
    ensures
        ({
            let origin = Origin::Local((base.len() + 1) as usize);
            let after = rules::with_local(m, base, file, rules).explicit;
            match named_by(rules, path) {
                Some(verdict) if rules::takes(m.explicit, path, origin) => {
                    after.dom().contains(path) && after[path].verdict == verdict
                        && after[path].origin == origin
                },
                _ => held_as(after, m.explicit, path),
            }
        }),
{
    let origin = Origin::Local((base.len() + 1) as usize);
    let ignored = rules::entry_views(rules.ignore@);
    let again = rules::entry_views(rules.reinclude@);
    lemma_entries_at(m, ignored, Verdict::Skip, origin, file, path);
    lemma_entries_at(
        rules::with_entries(m, ignored, Verdict::Skip, origin, file),
        again,
        Verdict::Capture,
        origin,
        file,
        path,
    );
}

proof fn lemma_entries_rest(
    m: TreeModel,
    entries: Seq<EntryView>,
    verdict: Verdict,
    origin: Origin,
    file: Path,
)
    ensures
        same_rest(rules::with_entries(m, entries, verdict, origin, file), m),
        rules::with_entries(m, entries, verdict, origin, file).locals == m.locals,
    decreases entries.len(),
{
    if entries.len() > 0 {
        lemma_entries_rest(m, entries.drop_last(), verdict, origin, file);
    }
}

/// Two trees with the same rules of the operator's config, and the same junk.
spec fn same_rest(a: TreeModel, b: TreeModel) -> bool {
    &&& a.globs == b.globs
    &&& a.glob_ids == b.glob_ids
    &&& a.junk_names == b.junk_names
    &&& a.junk_globs == b.junk_globs
    &&& a.junk_glob_ids == b.junk_glob_ids
}

/// The globs of a local file, where it has any that compile.
spec fn globs_of(base: Path, rules: LocalRules) -> Option<Seq<Seq<char>>> {
    let rooted = rules::all_rooted(base, rules::glob_entry_texts(rules.globs@));
    if rules.globs@.len() > 0 && rules::compile_fault(rooted) is None {
        Some(rules::all_unrooted(rooted))
    } else {
        None
    }
}

/// Local files behind others, each with the depth and the patterns given for it.
spec fn behind(
    before: Seq<LocalModel>,
    after: Seq<LocalModel>,
    depth: usize,
    globs: Option<Seq<Seq<char>>>,
) -> bool {
    match globs {
        Some(patterns) => after.len() == before.len() + 1 && after.drop_last() == before
            && after.last().depth == depth && after.last().patterns == patterns,
        None => after == before,
    }
}

proof fn lemma_local_rest(m: TreeModel, base: Path, file: Path, rules: LocalRules)
    requires
        base.len() < usize::MAX,
    ensures
        same_rest(rules::with_local(m, base, file, rules), m),
        behind(
            m.locals,
            rules::with_local(m, base, file, rules).locals,
            (base.len() + 1) as usize,
            globs_of(base, rules),
        ),
{
    let origin = Origin::Local((base.len() + 1) as usize);
    let ignored = rules::entry_views(rules.ignore@);
    let first = rules::with_entries(m, ignored, Verdict::Skip, origin, file);
    lemma_entries_rest(m, ignored, Verdict::Skip, origin, file);
    lemma_entries_rest(
        first,
        rules::entry_views(rules.reinclude@),
        Verdict::Capture,
        origin,
        file,
    );
    let after = rules::with_local(m, base, file, rules).locals;
    if globs_of(base, rules) is Some {
        assert(after.drop_last() =~= m.locals);
    }
}

proof fn lemma_same_match(
    patterns: Seq<Seq<char>>,
    a: Seq<rules::RuleId>,
    b: Seq<rules::RuleId>,
    path: Seq<u8>,
)
    ensures
        rules::first_match(patterns, a, path) is Some == rules::first_match(patterns, b, path) is Some,
    decreases patterns.len(),
{
    if patterns.len() > 0 {
        lemma_same_match(patterns.skip(1), a.skip(1), b.skip(1), path);
    }
}

proof fn lemma_locals_take(t: TreeModel, best: Decision, path: Seq<u8>, depth: usize, u: TreeModel, n: int)
    requires
        n <= t.locals.len(),
        n <= u.locals.len(),
        forall|i: int| 0 <= i < n ==> t.locals[i] == u.locals[i],
    ensures
        t.locals_weighed(best, path, depth, n) == u.locals_weighed(best, path, depth, n),
    decreases n,
{
    if n > 0 {
        lemma_locals_take(t, best, path, depth, u, n - 1);
    }
}

proof fn lemma_locals_alike(t: TreeModel, a: Decision, b: Decision, path: Seq<u8>, depth: usize, n: int)
    requires
        alike(a, b),
        n <= t.locals.len(),
    ensures
        alike(t.locals_weighed(a, path, depth, n), t.locals_weighed(b, path, depth, n)),
    decreases n,
{
    if n > 0 {
        lemma_locals_alike(t, a, b, path, depth, n - 1);
    }
}

/// What a local file's globs say of a path.
spec fn said(globs: Option<Seq<Seq<char>>>, path: Seq<u8>, depth: usize, from: usize) -> Option<
    Decision,
> {
    match globs {
        Some(patterns) => rules::skip_by(
            rules::first_match(patterns, seq![], path),
            Tier::Glob,
            depth,
            Origin::Local(from),
        ),
        None => None,
    }
}

proof fn lemma_one_more(
    m: TreeModel,
    t: TreeModel,
    from: usize,
    globs: Option<Seq<Seq<char>>>,
    a: Decision,
    b: Decision,
    path: Seq<u8>,
    depth: usize,
)
    requires
        behind(m.locals, t.locals, from, globs),
        alike(m.locals_weighed(a, path, depth, m.locals.len() as int), b),
    ensures
        alike(
            t.locals_weighed(a, path, depth, t.locals.len() as int),
            rules::weighed(b, said(globs, path, depth, from)),
        ),
{
    let n = m.locals.len() as int;
    match globs {
        Some(patterns) => {
            assert forall|i: int| 0 <= i < n implies t.locals[i] == m.locals[i] by {
                assert(t.locals.drop_last()[i] == m.locals[i]);
            }
            lemma_locals_take(t, a, path, depth, m, n);
            lemma_same_match(patterns, t.locals.last().ids, seq![], path);
        },
        None => {
            lemma_locals_take(t, a, path, depth, m, n);
        },
    }
}

/// Two candidates of which one has the less authority come to the same in either order.
proof fn lemma_either_order(x: Decision, a: Option<Decision>, b: Option<Decision>)
    requires
        a is Some && b is Some ==> rules::beats(b->0, a->0),
    ensures
        rules::weighed(rules::weighed(x, a), b) == rules::weighed(rules::weighed(x, b), a),
{
}

/// Two local files, folded into one tree in the one order and in the other.
spec fn either_way(
    m: TreeModel,
    one: TreeModel,
    other: TreeModel,
    a: usize,
    b: usize,
    a_globs: Option<Seq<Seq<char>>>,
    b_globs: Option<Seq<Seq<char>>>,
) -> bool {
    &&& same_rest(one, other)
    &&& same_paths(one.explicit, other.explicit)
    &&& exists|x: TreeModel|
        behind(m.locals, x.locals, a, a_globs) && behind(#[trigger] x.locals, one.locals, b, b_globs)
    &&& exists|y: TreeModel|
        behind(m.locals, y.locals, b, b_globs) && behind(#[trigger] y.locals, other.locals, a, a_globs)
}

proof fn lemma_step_alike(
    m: TreeModel,
    one: TreeModel,
    other: TreeModel,
    a: usize,
    b: usize,
    a_globs: Option<Seq<Seq<char>>>,
    b_globs: Option<Seq<Seq<char>>>,
    best: Decision,
    also: Decision,
    prefix: Path,
    component: Seq<u8>,
    depth: usize,
)
    requires
        a < b,
        either_way(m, one, other, a, b, a_globs, b_globs),
        alike(best, also),
    ensures
        alike(one.step(best, prefix, component, depth), other.step(also, prefix, component, depth)),
{
    let path = crate::primitives::path::slashed(prefix);
    let x = choose|x: TreeModel|
        behind(m.locals, x.locals, a, a_globs) && behind(#[trigger] x.locals, one.locals, b, b_globs);
    let y = choose|y: TreeModel|
        behind(m.locals, y.locals, b, b_globs) && behind(#[trigger] y.locals, other.locals, a, a_globs);
    assert(one.explicit.dom().contains(prefix) == other.explicit.dom().contains(prefix));
    lemma_names_alike(one, other, component, one.junk_names.len() as int);
    let mine = before_locals(one, best, prefix, component, depth);
    let theirs = before_locals(other, also, prefix, component, depth);
    assert(alike(mine, theirs));
    let n = m.locals.len() as int;
    let start = m.locals_weighed(mine, path, depth, n);
    let again = m.locals_weighed(theirs, path, depth, n);
    lemma_locals_alike(m, mine, theirs, path, depth, n);
    let by_a = said(a_globs, path, depth, a);
    let by_b = said(b_globs, path, depth, b);
    lemma_one_more(m, x, a, a_globs, mine, start, path, depth);
    lemma_one_more(x, one, b, b_globs, mine, rules::weighed(start, by_a), path, depth);
    lemma_one_more(m, y, b, b_globs, theirs, start, path, depth);
    lemma_one_more(y, other, a, a_globs, theirs, rules::weighed(start, by_b), path, depth);
    lemma_either_order(start, by_a, by_b);
}

/// What is weighed at one step before the local files' globs.
spec fn before_locals(
    t: TreeModel,
    best: Decision,
    prefix: Path,
    component: Seq<u8>,
    depth: usize,
) -> Decision {
    let path = crate::primitives::path::slashed(prefix);
    rules::weighed(
        rules::weighed(
            rules::weighed(
                rules::weighed(best, t.explicit_candidate(prefix, depth)),
                rules::skip_by(
                    t.junk_named(component, t.junk_names.len() as int),
                    Tier::Junk,
                    depth,
                    Origin::Junk,
                ),
            ),
            rules::skip_by(
                rules::first_match(t.globs, t.glob_ids, path),
                Tier::Glob,
                depth,
                Origin::Global,
            ),
        ),
        rules::skip_by(
            rules::first_match(t.junk_globs, t.junk_glob_ids, path),
            Tier::Junk,
            depth,
            Origin::Junk,
        ),
    )
}

proof fn lemma_names_alike(a: TreeModel, b: TreeModel, component: Seq<u8>, n: int)
    requires
        a.junk_names == b.junk_names,
    ensures
        a.junk_named(component, n) == b.junk_named(component, n),
    decreases n,
{
    if n > 0 {
        lemma_names_alike(a, b, component, n - 1);
    }
}

proof fn lemma_resolved_alike(
    m: TreeModel,
    one: TreeModel,
    other: TreeModel,
    a: usize,
    b: usize,
    a_globs: Option<Seq<Seq<char>>>,
    b_globs: Option<Seq<Seq<char>>>,
    path: Path,
    n: int,
)
    requires
        a < b,
        either_way(m, one, other, a, b, a_globs, b_globs),
        n <= path.len() + 1,
    ensures
        alike(one.resolved_to(path, n), other.resolved_to(path, n)),
    decreases n,
{
    if n > 0 {
        lemma_resolved_alike(m, one, other, a, b, a_globs, b_globs, path, n - 1);
        lemma_step_alike(
            m,
            one,
            other,
            a,
            b,
            a_globs,
            b_globs,
            one.resolved_to(path, n - 1),
            other.resolved_to(path, n - 1),
            path.take(n - 1),
            rules::component_of(path, n - 1),
            n as usize,
        );
    }
}

/// Two local rule files of different depth come to the same verdict on every path, in whichever
/// order they were found.
pub proof fn the_order_of_local_files_decides_nothing(
    m: TreeModel,
    shallow: Path,
    shallow_file: Path,
    shallow_rules: LocalRules,
    deep: Path,
    deep_file: Path,
    deep_rules: LocalRules,
    path: Path,
)
    requires
        shallow.len() < deep.len() < usize::MAX,
    ensures
        ({
            let one = rules::with_local(
                rules::with_local(m, shallow, shallow_file, shallow_rules),
                deep,
                deep_file,
                deep_rules,
            );
            let other = rules::with_local(
                rules::with_local(m, deep, deep_file, deep_rules),
                shallow,
                shallow_file,
                shallow_rules,
            );
            &&& one.resolved(path).verdict == other.resolved(path).verdict
            &&& one.resolved(path).tier == other.resolved(path).tier
            &&& one.resolved(path).depth == other.resolved(path).depth
            &&& one.resolved(path).origin == other.resolved(path).origin
        }),
{
    let a = (shallow.len() + 1) as usize;
    let b = (deep.len() + 1) as usize;
    let x = rules::with_local(m, shallow, shallow_file, shallow_rules);
    let y = rules::with_local(m, deep, deep_file, deep_rules);
    let one = rules::with_local(x, deep, deep_file, deep_rules);
    let other = rules::with_local(y, shallow, shallow_file, shallow_rules);
    lemma_local_rest(m, shallow, shallow_file, shallow_rules);
    lemma_local_rest(x, deep, deep_file, deep_rules);
    lemma_local_rest(m, deep, deep_file, deep_rules);
    lemma_local_rest(y, shallow, shallow_file, shallow_rules);
    assert forall|p: Path|
        #![trigger one.explicit.dom().contains(p)]
        #![trigger other.explicit.dom().contains(p)]
        one.explicit.dom().contains(p) == other.explicit.dom().contains(p) && (
        one.explicit.dom().contains(p) ==> one.explicit[p].verdict == other.explicit[p].verdict
            && one.explicit[p].origin == other.explicit[p].origin) by {
        lemma_local_at(m, shallow, shallow_file, shallow_rules, p);
        lemma_local_at(x, deep, deep_file, deep_rules, p);
        lemma_local_at(m, deep, deep_file, deep_rules, p);
        lemma_local_at(y, shallow, shallow_file, shallow_rules, p);
    }
    let a_globs = globs_of(shallow, shallow_rules);
    let b_globs = globs_of(deep, deep_rules);
    assert(behind(m.locals, x.locals, a, a_globs) && behind(x.locals, one.locals, b, b_globs));
    assert(behind(m.locals, y.locals, b, b_globs) && behind(y.locals, other.locals, a, a_globs));
    lemma_resolved_alike(m, one, other, a, b, a_globs, b_globs, path, path.len() as int + 1);
}

proof fn lemma_locals_depth(t: TreeModel, best: Decision, path: Seq<u8>, depth: usize, n: int)
    requires
        n <= t.locals.len(),
        best.depth <= depth,
    ensures
        t.locals_weighed(best, path, depth, n).depth <= depth,
        best.depth == depth && best.tier == Tier::ExplicitPath ==> t.locals_weighed(
            best,
            path,
            depth,
            n,
        ) == best,
    decreases n,
{
    if n > 0 {
        lemma_locals_depth(t, best, path, depth, n - 1);
    }
}

proof fn lemma_resolved_depth(t: TreeModel, path: Path, n: int)
    requires
        0 <= n <= path.len() + 1,
        path.len() < usize::MAX,
    ensures
        t.resolved_to(path, n).depth <= n,
        n > 0 && t.explicit.dom().contains(path.take(n - 1)) ==> t.resolved_to(path, n).verdict
            == t.explicit[path.take(n - 1)].verdict,
    decreases n,
{
    if n > 0 {
        lemma_resolved_depth(t, path, n - 1);
        let before = before_locals(
            t,
            t.resolved_to(path, n - 1),
            path.take(n - 1),
            rules::component_of(path, n - 1),
            n as usize,
        );
        lemma_locals_depth(
            t,
            before,
            crate::primitives::path::slashed(path.take(n - 1)),
            n as usize,
            t.locals.len() as int,
        );
    }
}

/// A path that is named explicitly gets the verdict it is named with.
pub proof fn a_named_path_gets_its_verdict(t: TreeModel, path: Path)
    requires
        t.explicit.dom().contains(path),
        path.len() < usize::MAX,
    ensures
        t.resolved(path).verdict == t.explicit[path].verdict,
{
    lemma_resolved_depth(t, path, path.len() as int + 1);
    assert(path.take(path.len() as int) =~= path);
}

/// Of two local rule files that both name a path the deeper one's verdict holds, in whichever
/// order they were found; and a path that the operator's config names keeps the config's.
pub proof fn the_deeper_file_and_the_config_win(
    m: TreeModel,
    shallow: Path,
    shallow_file: Path,
    shallow_rules: LocalRules,
    deep: Path,
    deep_file: Path,
    deep_rules: LocalRules,
    path: Path,
)
    requires
        shallow.len() < deep.len() < usize::MAX,
        path.len() < usize::MAX,
    ensures
        ({
            let one = rules::with_local(
                rules::with_local(m, shallow, shallow_file, shallow_rules),
                deep,
                deep_file,
                deep_rules,
            );
            let other = rules::with_local(
                rules::with_local(m, deep, deep_file, deep_rules),
                shallow,
                shallow_file,
                shallow_rules,
            );
            &&& m.explicit.dom().contains(path) && m.explicit[path].origin == Origin::Global ==> {
                &&& one.resolved(path).verdict == m.explicit[path].verdict
                &&& other.resolved(path).verdict == m.explicit[path].verdict
            }
            &&& rules::takes(m.explicit, path, Origin::Local((deep.len() + 1) as usize))
                && named_by(shallow_rules, path) is Some && named_by(deep_rules, path) is Some ==> {
                &&& one.resolved(path).verdict == named_by(deep_rules, path)->0
                &&& other.resolved(path).verdict == named_by(deep_rules, path)->0
            }
        }),
{
    let x = rules::with_local(m, shallow, shallow_file, shallow_rules);
    let y = rules::with_local(m, deep, deep_file, deep_rules);
    let one = rules::with_local(x, deep, deep_file, deep_rules);
    let other = rules::with_local(y, shallow, shallow_file, shallow_rules);
    lemma_local_at(m, shallow, shallow_file, shallow_rules, path);
    lemma_local_at(x, deep, deep_file, deep_rules, path);
    lemma_local_at(m, deep, deep_file, deep_rules, path);
    lemma_local_at(y, shallow, shallow_file, shallow_rules, path);
    if one.explicit.dom().contains(path) {
        a_named_path_gets_its_verdict(one, path);
    }
    if other.explicit.dom().contains(path) {
        a_named_path_gets_its_verdict(other, path);
    }
}

} // verus!
