//! Ordering a walk's entries by path.

use crate::primitives::path;
use crate::primitives::path::AbsPath;
use vstd::prelude::*;

verus! {

pub open spec fn path_keys(paths: Seq<AbsPath>) -> Seq<Seq<Seq<u8>>> {
    paths.map_values(|p: AbsPath| p@)
}

/// Whether the index `i` comes before `j`: by its path, and where two paths are equal by
/// itself.
pub open spec fn index_before(keys: Seq<Seq<Seq<u8>>>, i: usize, j: usize) -> bool {
    crate::primitives::path::path_less(keys[i as int], keys[j as int]) || keys[i as int]
        == keys[j as int] && i < j
}

/// Each index comes before every later one.
pub open spec fn ascending(keys: Seq<Seq<Seq<u8>>>, order: Seq<usize>) -> bool {
    forall|a: int, b: int|
        0 <= a < b < order.len() ==> index_before(keys, #[trigger] order[a], #[trigger] order[b])
}

/// The indices from `from` up to `to`, once each and in any order.
pub open spec fn covers(order: Seq<usize>, from: int, to: int) -> bool {
    &&& order.len() == to - from
    &&& order.no_duplicates()
    &&& forall|i: usize| #[trigger] order.contains(i) <==> from <= i < to
}

/// The indices of `paths` in path order, those of equal paths in the order they came.
pub fn path_order(paths: &[AbsPath]) -> (out: Vec<usize>)
    ensures
        covers(out@, 0, paths@.len() as int),
        ascending(path_keys(paths@), out@),
{
    order_between(paths, 0, paths.len())
}

fn order_between(paths: &[AbsPath], from: usize, to: usize) -> (out: Vec<usize>)
    requires
        from <= to <= paths@.len(),
    ensures
        covers(out@, from as int, to as int),
        ascending(path_keys(paths@), out@),
    decreases to - from,
{
    let mut out: Vec<usize> = Vec::new();
    if from == to {
        return out;
    }
    if to - from == 1 {
        out.push(from);
        assert(out@[0] == from);
        return out;
    }
    let mid: usize = from + (to - from) / 2;
    let a = order_between(paths, from, mid);
    let b = order_between(paths, mid, to);
    merged(paths, &a, &b, from, mid, to)
}

fn merged(
    paths: &[AbsPath],
    a: &Vec<usize>,
    b: &Vec<usize>,
    from: usize,
    mid: usize,
    to: usize,
) -> (out: Vec<usize>)
    requires
        from <= mid <= to <= paths@.len(),
        covers(a@, from as int, mid as int),
        covers(b@, mid as int, to as int),
        ascending(path_keys(paths@), a@),
        ascending(path_keys(paths@), b@),
    ensures
        covers(out@, from as int, to as int),
        ascending(path_keys(paths@), out@),
{
    let ghost keys = path_keys(paths@);
    let mut out: Vec<usize> = Vec::new();
    let mut i: usize = 0;
    let mut j: usize = 0;
    while i < a.len() || j < b.len()
        invariant
            i <= a@.len(),
            j <= b@.len(),
            from <= mid <= to <= paths@.len(),
            keys == path_keys(paths@),
            covers(a@, from as int, mid as int),
            covers(b@, mid as int, to as int),
            ascending(keys, a@),
            ascending(keys, b@),
            ascending(keys, out@),
            out@.len() == i + j,
            out@.no_duplicates(),
            forall|k: usize|
                #[trigger] out@.contains(k) <==> a@.take(i as int).contains(k) || b@.take(
                    j as int,
                ).contains(k),
            forall|x: int, y: int|
                0 <= x < out@.len() && i <= y < a@.len() ==> index_before(
                    keys,
                    #[trigger] out@[x],
                    #[trigger] a@[y],
                ),
            forall|x: int, y: int|
                0 <= x < out@.len() && j <= y < b@.len() ==> index_before(
                    keys,
                    #[trigger] out@[x],
                    #[trigger] b@[y],
                ),
        decreases a@.len() - i + b@.len() - j,
    {
        proof {
            if i < a@.len() {
                assert(a@.contains(a@[i as int]));
            }
            if j < b@.len() {
                assert(b@.contains(b@[j as int]));
            }
        }
        let left = if j >= b.len() {
            true
        } else if i >= a.len() {
            false
        } else {
            !paths[b[j]].precedes(&paths[a[i]])
        };
        let next: usize = if left {
            a[i]
        } else {
            b[j]
        };
        let ghost before = out@;
        out.push(next);
        proof {
            if i < a@.len() && j < b@.len() {
                lemma_pick(keys, a@[i as int], b@[j as int]);
            }
            assert forall|x: int| i <= x < a@.len() && !(left && x == i) implies index_before(
                keys,
                next,
                #[trigger] a@[x],
            ) by {
                if left {
                    assert(a@[i as int] == next);
                } else if x > i {
                    lemma_before_transitive(keys, next, a@[i as int], a@[x]);
                }
            }
            assert forall|x: int| j <= x < b@.len() && (left || x != j) implies index_before(
                keys,
                next,
                #[trigger] b@[x],
            ) by {
                if !left {
                    assert(b@[j as int] == next);
                } else if x > j {
                    lemma_before_transitive(keys, next, b@[j as int], b@[x]);
                }
            }
            assert(!before.contains(next)) by {
                if before.contains(next) {
                    let x = choose|x: int| 0 <= x < before.len() && before[x] == next;
                    assert(index_before(keys, before[x], next));
                    path::lemma_path_irreflexive(keys[next as int]);
                }
            }
            assert forall|k: usize|
                #[trigger] out@.contains(k) <==> before.contains(k) || k == next by {
                if before.contains(k) {
                    let x = choose|x: int| 0 <= x < before.len() && before[x] == k;
                    assert(out@[x] == k);
                }
                if k == next {
                    assert(out@[before.len() as int] == k);
                }
                if out@.contains(k) {
                    let x = choose|x: int| 0 <= x < out@.len() && out@[x] == k;
                    if x < before.len() {
                        assert(before[x] == k);
                    }
                }
            }
            if left {
                lemma_take_more(a@, i as int);
            } else {
                lemma_take_more(b@, j as int);
            }
            assert forall|x: int, y: int| 0 <= x < y < out@.len() implies out@[x] != out@[y] by {
                if y == before.len() {
                    assert(before.contains(before[x]));
                }
            }
        }
        if left {
            i += 1;
        } else {
            j += 1;
        }
    }
    proof {
        assert(a@.take(i as int) =~= a@);
        assert(b@.take(j as int) =~= b@);
        assert forall|k: usize| #[trigger] out@.contains(k) <==> from <= k < to by {
            assert(a@.contains(k) <==> from <= k < mid);
            assert(b@.contains(k) <==> mid <= k < to);
        }
    }
    out
}

/// Of two indices from the two halves the one whose path is not greater comes first.
proof fn lemma_pick(keys: Seq<Seq<Seq<u8>>>, i: usize, j: usize)
    requires
        i < j,
    ensures
        path::path_less(keys[j as int], keys[i as int]) ==> index_before(keys, j, i),
        !path::path_less(keys[j as int], keys[i as int]) ==> index_before(keys, i, j),
{
    path::lemma_path_total(keys[i as int], keys[j as int]);
}

proof fn lemma_before_transitive(keys: Seq<Seq<Seq<u8>>>, i: usize, j: usize, k: usize)
    requires
        index_before(keys, i, j),
        index_before(keys, j, k),
    ensures
        index_before(keys, i, k),
{
    if path::path_less(keys[i as int], keys[j as int]) && path::path_less(
        keys[j as int],
        keys[k as int],
    ) {
        path::lemma_path_transitive(keys[i as int], keys[j as int], keys[k as int]);
    }
}

proof fn lemma_take_more(s: Seq<usize>, n: int)
    requires
        0 <= n < s.len(),
    ensures
        forall|k: usize|
            #[trigger] s.take(n + 1).contains(k) <==> s.take(n).contains(k) || k == s[n],
{
    assert forall|k: usize|
        #[trigger] s.take(n + 1).contains(k) <==> s.take(n).contains(k) || k == s[n] by {
        if s.take(n).contains(k) {
            let x = choose|x: int| 0 <= x < s.take(n).len() && s.take(n)[x] == k;
            assert(s.take(n + 1)[x] == k);
        }
        if k == s[n] {
            assert(s.take(n + 1)[n] == k);
        }
        if s.take(n + 1).contains(k) {
            let more = s.take(n + 1);
            let x = choose|x: int| 0 <= x < more.len() && more[x] == k;
            if x < n {
                assert(s.take(n)[x] == k);
            }
        }
    }
}

} // verus!
