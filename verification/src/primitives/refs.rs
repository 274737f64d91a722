//! Detecting refnames that two different fetches would map onto one file.
//!
//! Loose refs are files, so on a case-insensitive volume a repository carrying both
//! `Feature` and `feature` maps two branches onto one path. Git errors on first
//! exposure and the *next* fetch is silent, clobbering the captured tip.

use crate::text;
use crate::primitives::names::RefName;
use crate::text::{less, same};
use unicode_normalization::UnicodeNormalization;
use vstd::prelude::*;

verus! {

#[derive(Debug, PartialEq, Eq)]
pub struct Collision {
    pub folded: String,
    pub names: Vec<RefName>,
}

/// The text `UnicodeNormalization::nfc` gives for a text: its canonical composition.
pub uninterp spec fn composed(s: Seq<char>) -> Seq<char>;

/// Calls `UnicodeNormalization::nfc` of `unicode_normalization` and collects what it yields.
/// The composed text is a function of the characters alone, and is given a name.
#[verifier::external_body]
fn nfc_text(s: &str) -> (out: String)
    ensures
        out@ == composed(s@),
{
    s.nfc().collect::<String>()
}

/// The text `str::to_lowercase` gives for a text.
pub uninterp spec fn lowercase(s: Seq<char>) -> Seq<char>;

/// Calls `str::to_lowercase`. The lower-case text is a function of the characters alone, and
/// is given a name.
#[verifier::external_body]
pub(crate) fn lower_text(s: &str) -> (out: String)
    ensures
        out@ == lowercase(s@),
{
    s.to_lowercase()
}

/// What a refname folds to: composed, then in lower case.
pub open spec fn folded(s: Seq<char>) -> Seq<char> {
    lowercase(composed(s))
}

/// The texts that a sequence of refnames holds.
pub open spec fn ref_views(v: Seq<RefName>) -> Seq<Seq<char>> {
    v.map_values(|r: RefName| r@)
}

/// Those of the first `n` names that fold to `key`, in order.
pub open spec fn members(
    names: Seq<Seq<char>>,
    folds: Seq<Seq<char>>,
    key: Seq<char>,
    n: int,
) -> Seq<Seq<char>>
    decreases n,
{
    if n <= 0 {
        Seq::empty()
    } else if folds[n - 1] == key {
        members(names, folds, key, n - 1).push(names[n - 1])
    } else {
        members(names, folds, key, n - 1)
    }
}

/// The keys of a list of collisions.
pub open spec fn keys(groups: Seq<Collision>) -> Seq<Seq<char>> {
    groups.map_values(|c: Collision| c.folded@)
}

/// The groups of the first `n` names: in order of their key, each with every name that folds
/// to it.
spec fn grouped(
    groups: Seq<Collision>,
    names: Seq<Seq<char>>,
    folds: Seq<Seq<char>>,
    n: int,
) -> bool {
    &&& text::sorted(keys(groups))
    &&& forall|i: int|
        0 <= i < groups.len() ==> ref_views((#[trigger] groups[i]).names@) == members(
            names,
            folds,
            groups[i].folded@,
            n,
        )
    &&& forall|k: int| 0 <= k < n ==> keys(groups).contains(#[trigger] folds[k])
}

/// What the collisions of some names are: the groups of more than one, in order of what they
/// fold to, each holding its names in the order in which they were given.
pub open spec fn are_collisions(
    out: Seq<Collision>,
    names: Seq<Seq<char>>,
    folds: Seq<Seq<char>>,
) -> bool {
    &&& text::sorted(keys(out))
    &&& forall|i: int|
        0 <= i < out.len() ==> ref_views((#[trigger] out[i]).names@) == members(
            names,
            folds,
            out[i].folded@,
            names.len() as int,
        ) && out[i].names@.len() > 1
    &&& forall|k: int|
        0 <= k < names.len() && members(
            names,
            folds,
            #[trigger] folds[k],
            names.len() as int,
        ).len() > 1 ==> keys(out).contains(folds[k])
}

/// Where a key stands among sorted groups: the first place whose key is not before it.
fn place(groups: &Vec<Collision>, key: &str) -> (out: usize)
    requires
        text::sorted(keys(groups@)),
    ensures
        out <= groups@.len(),
        forall|i: int| 0 <= i < out ==> text::text_less(#[trigger] keys(groups@)[i], key@),
        forall|i: int| out <= i < groups@.len() ==> !text::text_less(#[trigger] keys(groups@)[i], key@),
{
    let mut i: usize = 0;
    while i < groups.len()
        invariant
            i <= groups@.len(),
            text::sorted(keys(groups@)),
            forall|j: int| 0 <= j < i ==> text::text_less(#[trigger] keys(groups@)[j], key@),
        decreases groups@.len() - i,
    {
        assert(keys(groups@)[i as int] == groups@[i as int].folded@);
        if !less(&groups[i].folded, key) {
            assert forall|j: int| i <= j < groups@.len() implies !text::text_less(
                #[trigger] keys(groups@)[j],
                key@,
            ) by {
                if j > i && text::text_less(keys(groups@)[j], key@) {
                    text::lemma_less_transitive(keys(groups@)[i as int], keys(groups@)[j], key@);
                }
            }
            return i;
        }
        i += 1;
    }
    i
}

/// A name added to the group that its fold names, or to a new one in its place.
fn add_to_groups(
    groups: &mut Vec<Collision>,
    name: &RefName,
    fold: String,
    names: Ghost<Seq<Seq<char>>>,
    folds: Ghost<Seq<Seq<char>>>,
    n: Ghost<int>,
)
    requires
        grouped(old(groups)@, names@, folds@, n@),
        0 <= n@ < names@.len() == folds@.len(),
        name@ == names@[n@],
        fold@ == folds@[n@],
    ensures
        grouped(final(groups)@, names@, folds@, n@ + 1),
{
    let ghost before = groups@;
    let ghost key = fold@;
    let at = place(groups, &fold);
    if at < groups.len() && same(&groups[at].folded, &fold) {
        let mut group = groups.remove(at);
        let ghost held = ref_views(group.names@);
        group.names.push(name.clone());
        let ghost grown = group;
        groups.insert(at, group);
        proof {
            assert(ref_views(grown.names@) =~= held.push(name@));
            assert(groups@ =~= before.update(at as int, grown));
            assert(keys(groups@) =~= keys(before));
            assert forall|i: int| 0 <= i < groups@.len() implies ref_views(
                (#[trigger] groups@[i]).names@,
            ) == members(names@, folds@, groups@[i].folded@, n@ + 1) by {
                if i != at {
                    text::lemma_less_irreflexive(key);
                    assert(keys(before)[i] == before[i].folded@);
                    assert(keys(before)[at as int] == key);
                    assert(before[i].folded@ != key) by {
                        if i < at {
                            assert(text::text_less(keys(before)[i], keys(before)[at as int]));
                        } else {
                            assert(text::text_less(keys(before)[at as int], keys(before)[i]));
                        }
                    }
                }
            }
            assert forall|k: int| 0 <= k < n@ + 1 implies keys(groups@).contains(
                #[trigger] folds@[k],
            ) by {
                if k == n@ {
                    assert(keys(groups@)[at as int] == key);
                }
            }
        }
    } else {
        let mut fresh: Vec<RefName> = Vec::new();
        fresh.push(name.clone());
        let group = Collision { folded: fold, names: fresh };
        let ghost added = group;
        groups.insert(at, group);
        proof {
            assert(groups@ =~= before.insert(at as int, added));
            assert(keys(groups@) =~= keys(before).insert(at as int, key));
            assert(ref_views(added.names@) =~= seq![name@]);
            assert forall|i: int| 0 <= i < before.len() implies #[trigger] before[i].folded@
                != key by {
                assert(keys(before)[i] == before[i].folded@);
                text::lemma_less_irreflexive(key);
                if i > at && before[i].folded@ == key {
                    assert(text::text_less(keys(before)[at as int], keys(before)[i]));
                    assert(!text::text_less(keys(before)[at as int], key));
                }
            }
            lemma_no_members(before, names@, folds@, key, n@);
            assert forall|i: int, j: int| 0 <= i < j < keys(groups@).len() implies text::text_less(
                #[trigger] keys(groups@)[i],
                #[trigger] keys(groups@)[j],
            ) by {
                if j == at {
                    assert(keys(groups@)[i] == keys(before)[i]);
                } else if i == at {
                    assert(keys(groups@)[j] == keys(before)[j - 1]);
                    assert(keys(before)[j - 1] == before[j - 1].folded@);
                    text::lemma_less_total(keys(before)[j - 1], key);
                } else {
                    let a = if i < at { i } else { i - 1 };
                    let b = if j < at { j } else { j - 1 };
                    assert(keys(groups@)[i] == keys(before)[a]);
                    assert(keys(groups@)[j] == keys(before)[b]);
                }
            }
            assert forall|i: int| 0 <= i < groups@.len() implies ref_views(
                (#[trigger] groups@[i]).names@,
            ) == members(names@, folds@, groups@[i].folded@, n@ + 1) by {
                if i == at {
                    assert(Seq::<Seq<char>>::empty().push(name@) =~= seq![name@]);
                } else {
                    let a = if i < at { i } else { i - 1 };
                    assert(groups@[i] == before[a]);
                }
            }
            assert forall|k: int| 0 <= k < n@ + 1 implies keys(groups@).contains(
                #[trigger] folds@[k],
            ) by {
                if k == n@ {
                    assert(keys(groups@)[at as int] == key);
                } else {
                    let i = choose|i: int|
                        0 <= i < keys(before).len() && keys(before)[i] == folds@[k];
                    let b = if i < at { i } else { i + 1 };
                    assert(keys(groups@)[b] == folds@[k]);
                }
            }
        }
    }
}

proof fn lemma_no_members(
    groups: Seq<Collision>,
    names: Seq<Seq<char>>,
    folds: Seq<Seq<char>>,
    key: Seq<char>,
    n: int,
)
    requires
        forall|k: int| 0 <= k < n ==> keys(groups).contains(#[trigger] folds[k]),
        forall|i: int| 0 <= i < groups.len() ==> (#[trigger] groups[i]).folded@ != key,
    ensures
        members(names, folds, key, n) == Seq::<Seq<char>>::empty(),
    decreases n,
{
    if n > 0 {
        lemma_no_members(groups, names, folds, key, n - 1);
        assert(keys(groups).contains(folds[n - 1]));
        let i = choose|i: int| 0 <= i < keys(groups).len() && keys(groups)[i] == folds[n - 1];
        assert(groups[i].folded@ == folds[n - 1]);
    }
}

/// Groups names by what each of them folds to, reporting only the groups larger than one.
pub fn group_collisions(names: &[RefName], folds: &[String]) -> (out: Vec<Collision>)
    requires
        names@.len() == folds@.len(),
    ensures
        are_collisions(out@, ref_views(names@), text::views(folds@)),
{
    let ghost all = ref_views(names@);
    let ghost wanted = text::views(folds@);
    let mut groups: Vec<Collision> = Vec::new();
    let mut i: usize = 0;
    while i < names.len()
        invariant
            i <= names@.len() == folds@.len(),
            all == ref_views(names@),
            wanted == text::views(folds@),
            grouped(groups@, all, wanted, i as int),
        decreases names@.len() - i,
    {
        assert(all[i as int] == names@[i as int]@);
        assert(wanted[i as int] == folds@[i as int]@);
        add_to_groups(
            &mut groups,
            &names[i],
            folds[i].clone(),
            Ghost(all),
            Ghost(wanted),
            Ghost(i as int),
        );
        i += 1;
    }
    keep_large(groups, Ghost(all), Ghost(wanted))
}

fn keep_large(
    groups: Vec<Collision>,
    names: Ghost<Seq<Seq<char>>>,
    folds: Ghost<Seq<Seq<char>>>,
) -> (out: Vec<Collision>)
    requires
        names@.len() == folds@.len(),
        grouped(groups@, names@, folds@, names@.len() as int),
    ensures
        are_collisions(out@, names@, folds@),
{
    let ghost all = groups@;
    let ghost n = names@.len() as int;
    let mut rest = groups;
    let mut out: Vec<Collision> = Vec::new();
    let ghost mut from: Seq<int> = Seq::empty();
    let ghost mut done: int = 0;
    while rest.len() > 0
        invariant
            0 <= done <= all.len(),
            rest@ == all.skip(done),
            names@.len() == folds@.len(),
            n == names@.len(),
            grouped(all, names@, folds@, n),
            from.len() == out@.len(),
            forall|i: int|
                0 <= i < out@.len() ==> 0 <= #[trigger] from[i] < done && out@[i] == all[from[i]]
                    && out@[i].names@.len() > 1,
            forall|i: int, j: int| 0 <= i < j < from.len() ==> #[trigger] from[i] < #[trigger] from[j],
            forall|k: int|
                0 <= k < done && (#[trigger] all[k]).names@.len() > 1 ==> exists|i: int|
                    0 <= i < from.len() && #[trigger] from[i] == k,
        decreases rest@.len(),
    {
        let group = rest.remove(0);
        assert(group == all[done]);
        assert(rest@ =~= all.skip(done + 1));
        if group.names.len() > 1 {
            let ghost before = from;
            proof {
                from = from.push(done);
            }
            out.push(group);
            proof {
                assert forall|k: int|
                    0 <= k < done + 1 && (#[trigger] all[k]).names@.len() > 1 implies exists|i: int|
                    0 <= i < from.len() && #[trigger] from[i] == k by {
                    if k == done {
                        assert(from[before.len() as int] == k);
                    } else {
                        let i = choose|i: int| 0 <= i < before.len() && #[trigger] before[i] == k;
                        assert(from[i] == k);
                    }
                }
            }
        }
        proof {
            done = done + 1;
        }
    }
    proof {
        assert(done == all.len());
        assert forall|i: int| 0 <= i < out@.len() implies ref_views((#[trigger] out@[i]).names@)
            == members(names@, folds@, out@[i].folded@, n) && out@[i].names@.len() > 1 by {
            assert(out@[i] == all[from[i]]);
        }
        assert forall|i: int, j: int| 0 <= i < j < keys(out@).len() implies text::text_less(
            #[trigger] keys(out@)[i],
            #[trigger] keys(out@)[j],
        ) by {
            assert(keys(out@)[i] == keys(all)[from[i]]);
            assert(keys(out@)[j] == keys(all)[from[j]]);
        }
        assert forall|k: int|
            0 <= k < names@.len() && members(names@, folds@, #[trigger] folds@[k], n).len()
                > 1 implies keys(out@).contains(folds@[k]) by {
            assert(keys(all).contains(folds@[k]));
            let g = choose|g: int| 0 <= g < keys(all).len() && keys(all)[g] == folds@[k];
            assert(all[g].folded@ == folds@[k]);
            assert(ref_views(all[g].names@).len() == all[g].names@.len());
            let i = choose|i: int| 0 <= i < from.len() && #[trigger] from[i] == g;
            assert(keys(out@)[i] == folds@[k]);
        }
    }
    out
}

fn fold(name: &str) -> (out: String)
    ensures
        out@ == folded(name@),
{
    lower_text(&nfc_text(name))
}

/// Groups refnames that fold together, reporting only the groups larger than one.
///
/// Percent-encoding leaves the `<key>` portion of a destination refname pure ASCII,
/// so normalisation can only ever matter for the branch and tag tail, which the
/// refspec copies from the source unencoded.
#[must_use]
pub fn find_collisions(names: &[RefName]) -> (out: Vec<Collision>)
    ensures
        are_collisions(
            out@,
            ref_views(names@),
            ref_views(names@).map_values(|s: Seq<char>| folded(s)),
        ),
{
    let mut folds: Vec<String> = Vec::new();
    let mut i: usize = 0;
    while i < names.len()
        invariant
            i <= names@.len(),
            folds@.len() == i,
            forall|k: int| 0 <= k < i ==> (#[trigger] folds@[k])@ == folded(names@[k]@),
        decreases names@.len() - i,
    {
        folds.push(fold(names[i].as_str()));
        i += 1;
    }
    assert(text::views(folds@) =~= ref_views(names@).map_values(|s: Seq<char>| folded(s)));
    group_collisions(names, &folds)
}

/// Names that fold apart never collide: with no two folds alike there is nothing to report.
pub proof fn distinct_folds_do_not_collide(
    out: Seq<Collision>,
    names: Seq<Seq<char>>,
    folds: Seq<Seq<char>>,
)
    requires
        names.len() == folds.len(),
        are_collisions(out, names, folds),
        forall|i: int, j: int| 0 <= i < j < folds.len() ==> #[trigger] folds[i] != #[trigger] folds[j],
    ensures
        out.len() == 0,
{
    if out.len() > 0 {
        lemma_members_of_distinct(names, folds, out[0].folded@, names.len() as int);
        assert(ref_views(out[0].names@).len() == out[0].names@.len());
    }
}

proof fn lemma_members_of_distinct(
    names: Seq<Seq<char>>,
    folds: Seq<Seq<char>>,
    key: Seq<char>,
    n: int,
)
    requires
        names.len() == folds.len(),
        0 <= n <= names.len(),
        forall|i: int, j: int| 0 <= i < j < folds.len() ==> #[trigger] folds[i] != #[trigger] folds[j],
    ensures
        members(names, folds, key, n).len() <= 1,
        members(names, folds, key, n).len() == 1 ==> exists|k: int| 0 <= k < n && #[trigger] folds[k] == key,
    decreases n,
{
    if n > 0 {
        lemma_members_of_distinct(names, folds, key, n - 1);
        if members(names, folds, key, n - 1).len() == 1 {
            let k = choose|k: int| 0 <= k < n - 1 && #[trigger] folds[k] == key;
            assert(folds[k] != folds[n - 1]);
        }
    }
}

/// Two names that fold alike are always reported: with nothing to report, no two folds are the
/// same.
pub proof fn alike_folds_collide(
    out: Seq<Collision>,
    names: Seq<Seq<char>>,
    folds: Seq<Seq<char>>,
    i: int,
    j: int,
)
    requires
        names.len() == folds.len(),
        are_collisions(out, names, folds),
        0 <= i < j < folds.len(),
        folds[i] == folds[j],
    ensures
        out.len() > 0,
{
    lemma_members_counted(names, folds, folds[i], i, j, names.len() as int);
    assert(keys(out).contains(folds[i]));
}

proof fn lemma_members_counted(
    names: Seq<Seq<char>>,
    folds: Seq<Seq<char>>,
    key: Seq<char>,
    i: int,
    j: int,
    n: int,
)
    requires
        0 <= i < j,
        0 <= n,
        folds[i] == key,
        folds[j] == key,
    ensures
        i < n ==> members(names, folds, key, n).len() >= 1,
        j < n ==> members(names, folds, key, n).len() >= 2,
    decreases n,
{
    if n > 0 {
        lemma_members_counted(names, folds, key, i, j, n - 1);
    }
}

} // verus!
