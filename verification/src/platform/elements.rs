//! Markup as a list of pieces, each of which opens with an angle bracket.
//!
//! Where no piece holds another bracket, what a reader finds in the text is told by what the
//! pieces begin with.

use crate::text;
use vstd::prelude::*;

verus! {

/// Some pieces written one behind another, each behind its bracket.
pub open spec fn marked(pieces: Seq<Seq<char>>) -> Seq<char>
    decreases pieces.len(),
{
    if pieces.len() == 0 {
        Seq::empty()
    } else {
        marked(pieces.drop_last()) + "<"@ + pieces.last()
    }
}

pub(crate) fn marked_text(pieces: &[String]) -> (out: String)
    ensures
        out@ == marked(text::views(pieces@)),
{
    let ghost all = text::views(pieces@);
    let mut out = String::new();
    assert(out@ =~= marked(all.take(0)));
    let mut i: usize = 0;
    while i < pieces.len()
        invariant
            i <= pieces@.len(),
            all == text::views(pieces@),
            out@ == marked(all.take(i as int)),
        decreases pieces@.len() - i,
    {
        assert(all.take(i + 1).drop_last() =~= all.take(i as int));
        assert(all.take(i + 1).last() == pieces@[i as int]@);
        out.append("<");
        out.append(&pieces[i]);
        i += 1;
    }
    assert(all.take(i as int) =~= all);
    out
}

/// Whether a text holds no opening bracket.
pub open spec fn plain(s: Seq<char>) -> bool {
    forall|i: int| 0 <= i < s.len() ==> #[trigger] s[i] != '<'
}

pub open spec fn all_plain(pieces: Seq<Seq<char>>) -> bool {
    forall|i: int| 0 <= i < pieces.len() ==> plain(#[trigger] pieces[i])
}

/// Whether no piece begins with a text.
pub open spec fn none_begins(pieces: Seq<Seq<char>>, m: Seq<char>) -> bool {
    forall|i: int| 0 <= i < pieces.len() ==> !text::has_prefix(#[trigger] pieces[i], m)
}

pub proof fn lemma_marked_joins(a: Seq<Seq<char>>, b: Seq<Seq<char>>)
    ensures
        marked(a + b) == marked(a) + marked(b),
    decreases b.len(),
{
    if b.len() == 0 {
        assert(a + b =~= a);
        assert(marked(a) + marked(b) =~= marked(a));
    } else {
        assert((a + b).drop_last() =~= a + b.drop_last());
        assert((a + b).last() == b.last());
        lemma_marked_joins(a, b.drop_last());
        assert(marked(a + b) =~= marked(a) + marked(b));
    }
}

pub proof fn lemma_marked_front(pieces: Seq<Seq<char>>)
    requires
        pieces.len() > 0,
    ensures
        marked(pieces) == "<"@ + pieces[0] + marked(pieces.skip(1)),
{
    let one = seq![pieces[0]];
    assert(one.drop_last() =~= Seq::empty());
    assert(marked(Seq::empty()) =~= Seq::<char>::empty());
    assert(marked(one) == marked(one.drop_last()) + "<"@ + one.last());
    assert(marked(one) =~= "<"@ + pieces[0]);
    lemma_marked_joins(one, pieces.skip(1));
    assert(one + pieces.skip(1) =~= pieces);
}

/// Before the first piece that begins with a text, the text stands behind no bracket.
pub proof fn lemma_none_before(pieces: Seq<Seq<char>>, k: int, m: Seq<char>, at: int)
    requires
        all_plain(pieces),
        plain(m),
        m.len() > 0,
        0 <= k <= pieces.len(),
        none_begins(pieces.take(k), m),
        0 <= at < marked(pieces.take(k)).len(),
    ensures
        !text::occurs_at(marked(pieces), "<"@ + m, at),
    decreases k,
{
    reveal_strlit("<");
    let whole = marked(pieces);
    let part = "<"@ + m;
    if k == 0 {
        assert(pieces.take(0) =~= Seq::empty());
    } else {
        let first = pieces[0];
        let rest = pieces.skip(1);
        lemma_marked_front(pieces);
        lemma_marked_front(pieces.take(k));
        assert(pieces.take(k)[0] == first);
        assert(pieces.take(k).skip(1) =~= rest.take(k - 1));
        assert(!text::has_prefix(pieces.take(k)[0], m));
        assert(plain(first));
        let after = 1 + first.len();
        if text::occurs_at(whole, part, at) {
            let found = whole.subrange(at, at + part.len());
            assert(found[0] == part[0]);
            assert(whole[at] == '<');
            if at == 0 {
                assert forall|j: int| 0 <= j < m.len() implies whole[1 + j] == #[trigger] m[j] by {
                    assert(found[1 + j] == part[1 + j]);
                }
                if m.len() <= first.len() {
                    assert(first.take(m.len() as int) =~= m);
                } else {
                    assert(whole[after as int] == m[first.len() as int]);
                    if rest.len() > 0 {
                        lemma_marked_front(rest);
                        assert(marked(rest)[0] == '<');
                        assert(whole[after as int] == marked(rest)[0]);
                    }
                }
            } else if at < after {
                assert(whole[at] == first[at - 1]);
            } else {
                assert forall|i: int| 0 <= i < rest.len() implies plain(#[trigger] rest[i]) by {
                    assert(rest[i] == pieces[i + 1]);
                }
                assert forall|i: int| 0 <= i < rest.take(k - 1).len() implies !text::has_prefix(
                    #[trigger] rest.take(k - 1)[i],
                    m,
                ) by {
                    assert(rest.take(k - 1)[i] == pieces.take(k)[i + 1]);
                }
                lemma_none_before(rest, k - 1, m, at - after);
                assert(marked(rest).subrange(at - after, at - after + part.len()) =~= found);
            }
        }
    }
}

/// Where the `k`th piece is the first that begins with a text, a reader finds it there.
pub proof fn lemma_found(pieces: Seq<Seq<char>>, k: int, m: Seq<char>)
    requires
        all_plain(pieces),
        plain(m),
        m.len() > 0,
        0 <= k < pieces.len(),
        none_begins(pieces.take(k), m),
        text::has_prefix(pieces[k], m),
    ensures
        text::contains_text(marked(pieces), "<"@ + m),
        text::split_at_text(marked(pieces), "<"@ + m) == Some(
            (
                marked(pieces.take(k)),
                pieces[k].skip(m.len() as int) + marked(pieces.skip(k + 1)),
            ),
        ),
{
    reveal_strlit("<");
    let part = "<"@ + m;
    let before = marked(pieces.take(k));
    let rest = pieces.skip(k);
    lemma_marked_joins(pieces.take(k), rest);
    assert(pieces.take(k) + rest =~= pieces);
    lemma_marked_front(rest);
    assert(rest[0] == pieces[k]);
    assert(rest.skip(1) =~= pieces.skip(k + 1));
    let whole = marked(pieces);
    let tail = marked(pieces.skip(k + 1));
    assert(whole =~= before + "<"@ + pieces[k] + tail);
    let at = before.len() as int;
    assert(pieces[k].take(m.len() as int) =~= m);
    assert(whole.subrange(at, at + part.len()) =~= part) by {
        assert forall|j: int| 0 <= j < part.len() implies whole[at + j] == part[j] by {
            if j > 0 {
                assert(part[j] == m[j - 1]);
                assert(pieces[k].take(m.len() as int)[j - 1] == pieces[k][j - 1]);
            }
        }
    }
    assert(text::occurs_at(whole, part, at));
    assert forall|i: int| 0 <= i < at implies !text::occurs_at(whole, part, i) by {
        lemma_none_before(pieces, k, m, i);
    }
    text::lemma_text_position(whole, part, at);
    assert(whole.take(at) =~= before);
    assert(whole.skip(at + part.len()) =~= pieces[k].skip(m.len() as int) + tail);
}

/// Where no piece begins with a text, a reader does not find it.
pub proof fn lemma_absent(pieces: Seq<Seq<char>>, m: Seq<char>)
    requires
        all_plain(pieces),
        plain(m),
        m.len() > 0,
        none_begins(pieces, m),
    ensures
        !text::contains_text(marked(pieces), "<"@ + m),
        text::split_at_text(marked(pieces), "<"@ + m) is None,
{
    reveal_strlit("<");
    let whole = marked(pieces);
    let part = "<"@ + m;
    let n = pieces.len() as int;
    assert(pieces.take(n) =~= pieces);
    assert forall|i: int| !text::occurs_at(whole, part, i) by {
        if 0 <= i < whole.len() {
            lemma_none_before(pieces, n, m, i);
        }
    }
    text::lemma_text_position(whole, part, whole.len() as int);
}

pub proof fn lemma_none_joins(a: Seq<Seq<char>>, b: Seq<Seq<char>>, m: Seq<char>)
    requires
        none_begins(a, m),
        none_begins(b, m),
    ensures
        none_begins(a + b, m),
{
    assert forall|i: int| 0 <= i < (a + b).len() implies !text::has_prefix(
        #[trigger] (a + b)[i],
        m,
    ) by {
        if i < a.len() {
            assert((a + b)[i] == a[i]);
        } else {
            assert((a + b)[i] == b[i - a.len()]);
        }
    }
}

pub proof fn lemma_plain_joins(a: Seq<Seq<char>>, b: Seq<Seq<char>>)
    requires
        all_plain(a),
        all_plain(b),
    ensures
        all_plain(a + b),
{
    assert forall|i: int| 0 <= i < (a + b).len() implies plain(#[trigger] (a + b)[i]) by {
        if i < a.len() {
            assert((a + b)[i] == a[i]);
        } else {
            assert((a + b)[i] == b[i - a.len()]);
        }
    }
}

/// A text that differs from another at some place does not begin with it.
pub proof fn lemma_differs(s: Seq<char>, m: Seq<char>, k: int)
    requires
        0 <= k < m.len(),
        k < s.len() ==> s[k] != m[k],
    ensures
        !text::has_prefix(s, m),
{
    if text::has_prefix(s, m) {
        assert(s.take(m.len() as int)[k] == s[k]);
    }
}

} // verus!
