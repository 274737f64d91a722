//! A map from texts, kept in the order of its keys.

use crate::text;
use crate::text::{less, same};
use vstd::prelude::*;

verus! {

/// A map whose rows stand in the order of their keys.
#[derive(Debug, PartialEq, Eq)]
pub struct TextMap<V> {
    rows: Vec<(String, V)>,
}

pub open spec fn row_views<V>(rows: Seq<(String, V)>) -> Seq<(Seq<char>, V)> {
    rows.map_values(|r: (String, V)| (r.0@, r.1))
}

pub open spec fn row_keys<V>(rows: Seq<(Seq<char>, V)>) -> Seq<Seq<char>> {
    rows.map_values(|r: (Seq<char>, V)| r.0)
}

/// What some rows map, the later of two for one key.
pub open spec fn row_map<V>(rows: Seq<(Seq<char>, V)>) -> Map<Seq<char>, V>
    decreases rows.len(),
{
    if rows.len() == 0 {
        Map::empty()
    } else {
        row_map(rows.drop_last()).insert(rows.last().0, rows.last().1)
    }
}

impl<V> View for TextMap<V> {
    type V = Map<Seq<char>, V>;

    closed spec fn view(&self) -> Map<Seq<char>, V> {
        row_map(row_views(self.rows@))
    }
}

/// A key stands in the map exactly where it stands in a row.
pub proof fn lemma_row_map<V>(rows: Seq<(Seq<char>, V)>)
    requires
        text::sorted(row_keys(rows)),
    ensures
        forall|i: int|
            0 <= i < rows.len() ==> row_map(rows).contains_key((#[trigger] rows[i]).0)
                && row_map(rows)[rows[i].0] == rows[i].1,
        forall|k: Seq<char>|
            #[trigger] row_map(rows).contains_key(k) ==> exists|i: int|
                0 <= i < rows.len() && (#[trigger] rows[i]).0 == k,
    decreases rows.len(),
{
    if rows.len() > 0 {
        let rest = rows.drop_last();
        assert forall|i: int, j: int| 0 <= i < j < row_keys(rest).len() implies text::text_less(
            #[trigger] row_keys(rest)[i],
            #[trigger] row_keys(rest)[j],
        ) by {
            assert(row_keys(rest)[i] == row_keys(rows)[i]);
            assert(row_keys(rest)[j] == row_keys(rows)[j]);
        }
        lemma_row_map(rest);
        assert forall|i: int| 0 <= i < rows.len() implies row_map(rows).contains_key(
            (#[trigger] rows[i]).0,
        ) && row_map(rows)[rows[i].0] == rows[i].1 by {
            if i < rest.len() {
                assert(rest[i] == rows[i]);
                assert(text::text_less(row_keys(rows)[i], row_keys(rows)[rows.len() - 1]));
                text::lemma_less_irreflexive(rows[i].0);
            }
        }
        assert forall|k: Seq<char>| #[trigger] row_map(rows).contains_key(k) implies exists|
            i: int,
        |
            0 <= i < rows.len() && (#[trigger] rows[i]).0 == k by {
            if k == rows.last().0 {
                assert(rows[rows.len() - 1].0 == k);
            } else {
                assert(row_map(rest).contains_key(k));
                let i = choose|i: int| 0 <= i < rest.len() && (#[trigger] rest[i]).0 == k;
                assert(rows[i].0 == k);
            }
        }
    }
}

/// Two lists of rows in key order that map the same are the same.
pub proof fn rows_are_unique<V>(a: Seq<(Seq<char>, V)>, b: Seq<(Seq<char>, V)>)
    requires
        text::sorted(row_keys(a)),
        text::sorted(row_keys(b)),
        row_map(a) == row_map(b),
    ensures
        a == b,
    decreases a.len(),
{
    lemma_row_map(a);
    lemma_row_map(b);
    if a.len() == 0 {
        if b.len() > 0 {
            assert(row_map(b).contains_key(b[0].0));
        }
    } else if b.len() == 0 {
        assert(row_map(a).contains_key(a[0].0));
    } else {
        let x = a.last();
        let y = b.last();
        assert(x.0 == y.0) by {
            assert(row_map(b).contains_key(a[a.len() - 1].0));
            let j = choose|j: int| 0 <= j < b.len() && (#[trigger] b[j]).0 == x.0;
            assert(row_map(a).contains_key(b[b.len() - 1].0));
            let i = choose|i: int| 0 <= i < a.len() && (#[trigger] a[i]).0 == y.0;
            if x.0 != y.0 {
                assert(text::text_less(row_keys(b)[j], row_keys(b)[b.len() - 1]));
                assert(text::text_less(row_keys(a)[i], row_keys(a)[a.len() - 1]));
                text::lemma_less_transitive(x.0, y.0, x.0);
                text::lemma_less_irreflexive(x.0);
            }
        }
        assert(x == y) by {
            assert(a[a.len() - 1].1 == row_map(a)[x.0]);
            assert(b[b.len() - 1].1 == row_map(b)[x.0]);
        }
        lemma_sorted_prefix(a);
        lemma_sorted_prefix(b);
        lemma_dropped(a);
        lemma_dropped(b);
        rows_are_unique(a.drop_last(), b.drop_last());
        assert(a =~= a.drop_last().push(x));
        assert(b =~= b.drop_last().push(y));
    }
}

proof fn lemma_sorted_prefix<V>(rows: Seq<(Seq<char>, V)>)
    requires
        text::sorted(row_keys(rows)),
        rows.len() > 0,
    ensures
        text::sorted(row_keys(rows.drop_last())),
{
    let rest = rows.drop_last();
    assert forall|i: int, j: int| 0 <= i < j < row_keys(rest).len() implies text::text_less(
        #[trigger] row_keys(rest)[i],
        #[trigger] row_keys(rest)[j],
    ) by {
        assert(row_keys(rest)[i] == row_keys(rows)[i]);
        assert(row_keys(rest)[j] == row_keys(rows)[j]);
    }
}

/// Without its last row a list maps all but that row's key.
proof fn lemma_dropped<V>(rows: Seq<(Seq<char>, V)>)
    requires
        text::sorted(row_keys(rows)),
        rows.len() > 0,
    ensures
        row_map(rows.drop_last()) == row_map(rows).remove(rows.last().0),
{
    lemma_sorted_prefix(rows);
    let rest = rows.drop_last();
    lemma_row_map(rest);
    let key = rows.last().0;
    assert(!row_map(rest).contains_key(key)) by {
        if row_map(rest).contains_key(key) {
            let i = choose|i: int| 0 <= i < rest.len() && (#[trigger] rest[i]).0 == key;
            assert(text::text_less(row_keys(rows)[i], row_keys(rows)[rows.len() - 1]));
            text::lemma_less_irreflexive(key);
        }
    }
    assert(row_map(rest) =~= row_map(rows).remove(key));
}

impl<V> TextMap<V> {
    #[verifier::type_invariant]
    closed spec fn valid(self) -> bool {
        text::sorted(row_keys(row_views(self.rows@)))
    }

    /// The rows in the order of their keys.
    pub closed spec fn rows(self) -> Seq<(Seq<char>, V)> {
        row_views(self.rows@)
    }

    /// Nothing is mapped yet.
    pub fn new() -> (out: TextMap<V>)
        ensures
            out@ == Map::<Seq<char>, V>::empty(),
            out.rows() == Seq::<(Seq<char>, V)>::empty(),
    {
        let out = TextMap { rows: Vec::new() };
        assert(row_views(out.rows@) =~= Seq::<(Seq<char>, V)>::empty());
        out
    }

    pub fn len(&self) -> (out: usize)
        ensures
            out == self.rows().len(),
            text::sorted(row_keys(self.rows())),
            self@ == row_map(self.rows()),
    {
        proof {
            use_type_invariant(self);
        }
        self.rows.len()
    }

    pub fn is_empty(&self) -> (out: bool)
        ensures
            out == (self.rows().len() == 0),
    {
        self.rows.len() == 0
    }

    /// The key of a row.
    pub fn key(&self, i: usize) -> (out: &str)
        requires
            i < self.rows().len(),
        ensures
            out@ == self.rows()[i as int].0,
    {
        self.rows[i].0.as_str()
    }

    /// The value of a row.
    pub fn value(&self, i: usize) -> (out: &V)
        requires
            i < self.rows().len(),
        ensures
            *out == self.rows()[i as int].1,
    {
        &self.rows[i].1
    }

    /// Where a key stands or would stand, and whether it is there.
    fn place(&self, key: &str) -> (out: (usize, bool))
        ensures
            out.0 <= self.rows().len(),
            out.1 == self@.contains_key(key@),
            out.1 ==> out.0 < self.rows().len() && self.rows()[out.0 as int].0 == key@,
            forall|j: int|
                0 <= j < out.0 ==> text::text_less((#[trigger] self.rows()[j]).0, key@),
            !out.1 ==> forall|j: int|
                out.0 <= j < self.rows().len() ==> text::text_less(
                    key@,
                    (#[trigger] self.rows()[j]).0,
                ),
    {
        proof {
            use_type_invariant(self);
        }
        let ghost before = self.rows();
        let ghost keys = row_keys(before);
        let mut i: usize = 0;
        while i < self.rows.len() && less(&self.rows[i].0, key)
            invariant
                i <= self.rows@.len(),
                before == row_views(self.rows@),
                forall|j: int| 0 <= j < i ==> text::text_less((#[trigger] before[j]).0, key@),
            decreases self.rows@.len() - i,
        {
            assert(before[i as int].0 == self.rows@[i as int].0@);
            i += 1;
        }
        let found = i < self.rows.len() && same(&self.rows[i].0, key);
        proof {
            lemma_row_map(before);
            if i < self.rows@.len() {
                assert(before[i as int].0 == self.rows@[i as int].0@);
                text::lemma_less_total(before[i as int].0, key@);
            }
            if found {
                assert(before[i as int].0 == key@);
            } else {
                assert forall|j: int| i <= j < before.len() implies text::text_less(
                    key@,
                    (#[trigger] before[j]).0,
                ) by {
                    if j > i {
                        assert(text::text_less(keys[i as int], keys[j]));
                        text::lemma_less_transitive(key@, before[i as int].0, before[j].0);
                    }
                }
                if self@.contains_key(key@) {
                    let j = choose|j: int| 0 <= j < before.len() && (#[trigger] before[j]).0 == key@;
                    text::lemma_less_irreflexive(key@);
                }
            }
        }
        (i, found)
    }

    pub fn get(&self, key: &str) -> (out: Option<&V>)
        ensures
            match out {
                Some(v) => self@.contains_key(key@) && self@[key@] == *v,
                None => !self@.contains_key(key@),
            },
    {
        let (at, found) = self.place(key);
        if !found {
            return None;
        }
        proof {
            use_type_invariant(self);
            lemma_row_map(self.rows());
            assert(self.rows()[at as int].0 == key@);
        }
        Some(&self.rows[at].1)
    }

    /// Maps a key, replacing what it was mapped to.
    pub fn insert(&mut self, key: String, value: V)
        ensures
            final(self)@ == old(self)@.insert(key@, value),
    {
        proof {
            use_type_invariant(&*self);
        }
        let (i, found) = self.place(&key);
        let ghost before = self.rows();
        let ghost keys = row_keys(before);
        let ghost wanted = key@;
        let ghost v = value;
        let mut rows: Vec<(String, V)> = Vec::new();
        std::mem::swap(&mut rows, &mut self.rows);
        if found {
            rows.set(i, (key, value));
            proof {
                let after = row_views(rows@);
                assert(after =~= before.update(i as int, (wanted, v)));
                assert(row_keys(after) =~= keys);
                lemma_replaced(before, after, i as int, wanted, v);
            }
        } else {
            rows.insert(i, (key, value));
            proof {
                let after = row_views(rows@);
                assert(after =~= before.insert(i as int, (wanted, v)));
                assert forall|a: int, b: int| 0 <= a < b < row_keys(after).len() implies text::text_less(
                    #[trigger] row_keys(after)[a],
                    #[trigger] row_keys(after)[b],
                ) by {
                    if a < i && b < i {
                        assert(text::text_less(keys[a], keys[b]));
                    } else if a < i && b > i {
                        assert(text::text_less(keys[a], keys[b - 1]));
                    } else if a > i {
                        assert(text::text_less(keys[a - 1], keys[b - 1]));
                    } else if a == i {
                        assert(before[b - 1].0 == row_keys(after)[b]);
                    } else {
                        assert(before[a].0 == row_keys(after)[a]);
                    }
                }
                lemma_inserted(before, after, i as int, wanted, v);
            }
        }
        self.rows = rows;
    }

    /// Takes a key out of the map, and gives what it was mapped to.
    pub fn remove(&mut self, key: &str) -> (out: Option<V>)
        ensures
            final(self)@ == old(self)@.remove(key@),
            match out {
                Some(v) => old(self)@.contains_key(key@) && old(self)@[key@] == v,
                None => !old(self)@.contains_key(key@),
            },
    {
        proof {
            use_type_invariant(&*self);
        }
        let (i, found) = self.place(key);
        if !found {
            assert(self@ =~= self@.remove(key@));
            return None;
        }
        let ghost before = self.rows();
        let ghost keys = row_keys(before);
        let mut rows: Vec<(String, V)> = Vec::new();
        std::mem::swap(&mut rows, &mut self.rows);
        let (_, value) = rows.remove(i);
        proof {
            let after = row_views(rows@);
            assert(after =~= before.remove(i as int));
            assert forall|a: int, b: int| 0 <= a < b < row_keys(after).len() implies text::text_less(
                #[trigger] row_keys(after)[a],
                #[trigger] row_keys(after)[b],
            ) by {
                let x = if a < i {
                    a
                } else {
                    a + 1
                };
                let y = if b < i {
                    b
                } else {
                    b + 1
                };
                assert(text::text_less(keys[x], keys[y]));
            }
            lemma_removed(before, after, i as int);
        }
        self.rows = rows;
        Some(value)
    }

    /// Maps every key of another map to what it is mapped to there.
    pub fn extend(&mut self, more: TextMap<V>)
        ensures
            final(self)@ == old(self)@.union_prefer_right(more@),
            text::sorted(row_keys(final(self).rows())),
            row_map(final(self).rows()) == final(self)@,
    {
        let ghost start = self@;
        let ghost all = more.rows();
        let mut rest = more.into_rows();
        let ghost mut done: int = 0;
        proof {
            assert(all.take(0) =~= Seq::empty());
            assert(self@ =~= start.union_prefer_right(row_map(all.take(0))));
        }
        while rest.len() > 0
            invariant
                0 <= done <= all.len(),
                row_views(rest@) == all.skip(done),
                rest@.len() == all.len() - done,
                self@ == start.union_prefer_right(row_map(all.take(done))),
            decreases rest@.len(),
        {
            let ghost before = row_views(rest@);
            let (key, value) = rest.remove(0);
            let ghost held = self@;
            let ghost row = (key@, value);
            self.insert(key, value);
            proof {
                assert(row == before[0] && before[0] == all[done]);
                let after = row_views(rest@);
                assert forall|i: int| 0 <= i < after.len() implies #[trigger] after[i] == all.skip(
                    done + 1,
                )[i] by {
                    assert(after[i] == before[i + 1]);
                    assert(before[i + 1] == all.skip(done)[i + 1]);
                }
                assert(after =~= all.skip(done + 1));
                assert(all.take(done + 1).drop_last() =~= all.take(done));
                assert(self@ =~= start.union_prefer_right(row_map(all.take(done + 1))));
                done = done + 1;
            }
        }
        proof {
            assert(all.take(done) =~= all);
            use_type_invariant(&*self);
        }
    }

    /// The rows in the order of their keys.
    pub fn into_rows(self) -> (out: Vec<(String, V)>)
        ensures
            text::sorted(row_keys(row_views(out@))),
            row_map(row_views(out@)) == self@,
            row_views(out@) == self.rows(),
    {
        proof {
            use_type_invariant(&self);
        }
        self.rows
    }
}

proof fn lemma_replaced<V>(
    before: Seq<(Seq<char>, V)>,
    after: Seq<(Seq<char>, V)>,
    at: int,
    key: Seq<char>,
    value: V,
)
    requires
        text::sorted(row_keys(before)),
        text::sorted(row_keys(after)),
        0 <= at < before.len(),
        before[at].0 == key,
        after == before.update(at, (key, value)),
    ensures
        row_map(after) == row_map(before).insert(key, value),
{
    lemma_row_map(before);
    lemma_row_map(after);
    let want = row_map(before).insert(key, value);
    assert forall|k: Seq<char>| #[trigger] row_map(after).contains_key(k) <==> want.contains_key(
        k,
    ) by {
        if row_map(after).contains_key(k) {
            let i = choose|i: int| 0 <= i < after.len() && (#[trigger] after[i]).0 == k;
            assert(before[i].0 == k);
        }
        if want.contains_key(k) {
            if k == key {
                assert(after[at].0 == k);
            } else {
                let i = choose|i: int| 0 <= i < before.len() && (#[trigger] before[i]).0 == k;
                assert(after[i].0 == k);
            }
        }
    }
    assert forall|k: Seq<char>| #[trigger] row_map(after).contains_key(k) implies row_map(
        after,
    )[k] == want[k] by {
        let i = choose|i: int| 0 <= i < after.len() && (#[trigger] after[i]).0 == k;
        if i != at {
            assert(before[i].0 == k);
            if k == key {
                if i < at {
                    assert(text::text_less(row_keys(before)[i], row_keys(before)[at]));
                } else {
                    assert(text::text_less(row_keys(before)[at], row_keys(before)[i]));
                }
                text::lemma_less_irreflexive(key);
            }
        }
    }
    assert(row_map(after) =~= want);
}

proof fn lemma_inserted<V>(
    before: Seq<(Seq<char>, V)>,
    after: Seq<(Seq<char>, V)>,
    at: int,
    key: Seq<char>,
    value: V,
)
    requires
        text::sorted(row_keys(before)),
        text::sorted(row_keys(after)),
        0 <= at <= before.len(),
        after == before.insert(at, (key, value)),
    ensures
        row_map(after) == row_map(before).insert(key, value),
{
    lemma_row_map(before);
    lemma_row_map(after);
    let want = row_map(before).insert(key, value);
    assert(after[at] == (key, value));
    assert forall|i: int| 0 <= i < before.len() implies (#[trigger] before[i]).0 != key by {
        if i < at {
            assert(after[i] == before[i]);
            assert(text::text_less(row_keys(after)[i], row_keys(after)[at]));
        } else {
            assert(after[i + 1] == before[i]);
            assert(text::text_less(row_keys(after)[at], row_keys(after)[i + 1]));
        }
        text::lemma_less_irreflexive(key);
    }
    assert forall|k: Seq<char>| #[trigger] row_map(after).contains_key(k) <==> want.contains_key(
        k,
    ) by {
        if row_map(after).contains_key(k) {
            let i = choose|i: int| 0 <= i < after.len() && (#[trigger] after[i]).0 == k;
            if i < at {
                assert(before[i].0 == k);
            } else if i > at {
                assert(before[i - 1].0 == k);
            }
        }
        if want.contains_key(k) && k != key {
            let i = choose|i: int| 0 <= i < before.len() && (#[trigger] before[i]).0 == k;
            if i < at {
                assert(after[i].0 == k);
            } else {
                assert(after[i + 1].0 == k);
            }
        }
    }
    assert forall|k: Seq<char>| #[trigger] row_map(after).contains_key(k) implies row_map(
        after,
    )[k] == want[k] by {
        let i = choose|i: int| 0 <= i < after.len() && (#[trigger] after[i]).0 == k;
        if i < at {
            assert(before[i] == after[i]);
        } else if i > at {
            assert(before[i - 1] == after[i]);
        }
    }
    assert(row_map(after) =~= want);
}

proof fn lemma_removed<V>(before: Seq<(Seq<char>, V)>, after: Seq<(Seq<char>, V)>, at: int)
    requires
        text::sorted(row_keys(before)),
        text::sorted(row_keys(after)),
        0 <= at < before.len(),
        after == before.remove(at),
    ensures
        row_map(after) == row_map(before).remove(before[at].0),
        row_map(before).contains_key(before[at].0),
        row_map(before)[before[at].0] == before[at].1,
{
    let key = before[at].0;
    lemma_row_map(before);
    lemma_row_map(after);
    assert(before =~= after.insert(at, before[at]));
    lemma_inserted(after, before, at, key, before[at].1);
    assert(!row_map(after).contains_key(key)) by {
        if row_map(after).contains_key(key) {
            let i = choose|i: int| 0 <= i < after.len() && (#[trigger] after[i]).0 == key;
            if i < at {
                assert(text::text_less(row_keys(before)[i], row_keys(before)[at]));
            } else {
                assert(text::text_less(row_keys(before)[at], row_keys(before)[i + 1]));
            }
            text::lemma_less_irreflexive(key);
        }
    }
    assert(row_map(after) =~= row_map(before).remove(key));
}

/// What some rows map is what the last row of each key says: one row more maps its own key and
/// changes no other, and no rows map nothing.
pub proof fn the_last_row_of_a_key_counts<V>(
    rows: Seq<(Seq<char>, V)>,
    row: (Seq<char>, V),
    other: Seq<char>,
)
    ensures
        row_map(rows.push(row)).contains_key(row.0),
        row_map(rows.push(row))[row.0] == row.1,
        other != row.0 ==> row_map(rows.push(row)).contains_key(other) == row_map(
            rows,
        ).contains_key(other),
        other != row.0 && row_map(rows).contains_key(other) ==> row_map(rows.push(row))[other]
            == row_map(rows)[other],
        !row_map(Seq::<(Seq<char>, V)>::empty()).contains_key(other),
{
    assert(rows.push(row).drop_last() =~= rows);
}

} // verus!
