//! Raw bytes: what a file name is made of before anybody calls it text.

use crate::text;
use vstd::prelude::*;
use vstd::utf8::*;

verus! {

/// The byte strings that a sequence of vectors holds.
pub open spec fn byte_views(v: Seq<Vec<u8>>) -> Seq<Seq<u8>> {
    v.map_values(|b: Vec<u8>| b@)
}

/// The text `String::from_utf8_lossy` shows for a byte string.
pub uninterp spec fn lossy(raw: Seq<u8>) -> Seq<char>;

/// Calls `String::from_utf8_lossy`. Where the bytes are valid UTF-8 the text is what they
/// encode; what stands in for an invalid sequence is left to the name.
#[verifier::external_body]
pub(crate) fn lossy_text(raw: &[u8]) -> (out: String)
    ensures
        out@ == lossy(raw@),
        valid_utf8(raw@) ==> out@ == decode_utf8(raw@),
{
    String::from_utf8_lossy(raw).into_owned()
}

/// Calls `std::str::from_utf8`: the text that bytes encode where they are valid UTF-8, and
/// nothing where they are not.
#[verifier::external_body]
pub(crate) fn utf8_text(raw: &[u8]) -> (out: Option<String>)
    ensures
        match out {
            Some(s) => valid_utf8(raw@) && s@ == decode_utf8(raw@),
            None => !valid_utf8(raw@),
        },
{
    std::str::from_utf8(raw).ok().map(str::to_owned)
}

pub fn same_bytes(a: &[u8], b: &[u8]) -> (out: bool)
    ensures
        out == (a@ == b@),
{
    if a.len() != b.len() {
        return false;
    }
    let mut i: usize = 0;
    while i < a.len()
        invariant
            i <= a@.len(),
            a@.len() == b@.len(),
            forall|j: int| 0 <= j < i ==> a@[j] == b@[j],
        decreases a@.len() - i,
    {
        if a[i] != b[i] {
            assert(a@ != b@);
            return false;
        }
        i += 1;
    }
    assert(a@ =~= b@);
    true
}

pub fn copy_bytes(a: &[u8]) -> (out: Vec<u8>)
    ensures
        out@ == a@,
{
    range(a, 0, a.len())
}

/// The bytes from `from` up to `to`.
pub fn range(s: &[u8], from: usize, to: usize) -> (out: Vec<u8>)
    requires
        from <= to <= s@.len(),
    ensures
        out@ == s@.subrange(from as int, to as int),
{
    let mut out: Vec<u8> = Vec::new();
    let mut i: usize = from;
    while i < to
        invariant
            from <= i <= to <= s@.len(),
            out@ == s@.subrange(from as int, i as int),
        decreases to - i,
    {
        out.push(s[i]);
        i += 1;
        assert(out@ =~= s@.subrange(from as int, i as int));
    }
    assert(i == to);
    out
}

/// Appends `more` to `out`.
pub fn extend(out: &mut Vec<u8>, more: &[u8])
    ensures
        final(out)@ == old(out)@ + more@,
{
    let mut i: usize = 0;
    assert(out@ =~= old(out)@ + more@.take(0));
    while i < more.len()
        invariant
            i <= more@.len(),
            out@ == old(out)@ + more@.take(i as int),
        decreases more@.len() - i,
    {
        out.push(more[i]);
        i += 1;
        assert(out@ =~= old(out)@ + more@.take(i as int));
    }
    assert(more@.take(i as int) =~= more@);
}

pub fn ends_with(s: &[u8], suffix: &[u8]) -> (out: bool)
    ensures
        out == text::has_suffix(s@, suffix@),
{
    if suffix.len() > s.len() {
        return false;
    }
    let from: usize = s.len() - suffix.len();
    let mut i: usize = 0;
    while i < suffix.len()
        invariant
            i <= suffix@.len() <= s@.len(),
            s@.len() <= usize::MAX,
            from == s@.len() - suffix@.len(),
            forall|j: int| 0 <= j < i ==> s@[from + j] == suffix@[j],
        decreases suffix@.len() - i,
    {
        if s[from + i] != suffix[i] {
            assert(s@.skip(from as int)[i as int] != suffix@[i as int]);
            return false;
        }
        i += 1;
    }
    assert(s@.skip(from as int) =~= suffix@);
    true
}

pub fn starts_with(s: &[u8], prefix: &[u8]) -> (out: bool)
    ensures
        out == text::has_prefix(s@, prefix@),
{
    if prefix.len() > s.len() {
        return false;
    }
    let mut i: usize = 0;
    while i < prefix.len()
        invariant
            i <= prefix@.len() <= s@.len(),
            forall|j: int| 0 <= j < i ==> s@[j] == prefix@[j],
        decreases prefix@.len() - i,
    {
        if s[i] != prefix[i] {
            assert(s@.take(prefix@.len() as int)[i as int] != prefix@[i as int]);
            return false;
        }
        i += 1;
    }
    assert(s@.take(prefix@.len() as int) =~= prefix@);
    true
}

/// The pieces of a byte string between its separators.
pub fn split_bytes(s: &[u8], sep: u8) -> (out: Vec<Vec<u8>>)
    ensures
        byte_views(out@) == text::split(s@, sep),
{
    let mut out: Vec<Vec<u8>> = Vec::new();
    let mut start: usize = 0;
    let mut i: usize = 0;
    proof {
        assert(s@.skip(0) =~= s@);
        assert(byte_views(out@) + text::split(s@.skip(0), sep) =~= text::split(s@, sep));
    }
    while i < s.len()
        invariant
            start <= i <= s@.len(),
            forall|j: int| start <= j < i ==> s@[j] != sep,
            byte_views(out@) + text::split(s@.skip(start as int), sep) == text::split(s@, sep),
        decreases s@.len() - i,
    {
        if s[i] == sep {
            let piece = range(s, start, i);
            let ghost rest = s@.skip(start as int);
            let ghost before = byte_views(out@);
            out.push(piece);
            proof {
                text::lemma_position(rest, sep, i - start);
                assert(rest.take(i - start) =~= piece@);
                assert(rest.skip(i - start + 1) =~= s@.skip(i + 1));
                assert(byte_views(out@) =~= before.push(piece@));
                assert(before.push(piece@) + text::split(s@.skip(i + 1), sep) =~= before + (seq![piece@]
                    + text::split(s@.skip(i + 1), sep)));
            }
            start = i + 1;
        }
        i += 1;
    }
    let piece = range(s, start, i);
    let ghost rest = s@.skip(start as int);
    let ghost before = byte_views(out@);
    out.push(piece);
    proof {
        text::lemma_position(rest, sep, rest.len() as int);
        assert(rest =~= piece@);
        assert(byte_views(out@) =~= before.push(piece@));
        assert(before.push(piece@) =~= before + seq![piece@]);
    }
    out
}

/// The byte strings one after another, with `sep` between each two.
pub fn join_bytes(parts: &[Vec<u8>], sep: &[u8]) -> (out: Vec<u8>)
    ensures
        out@ == text::join(byte_views(parts@), sep@),
{
    let ghost all = byte_views(parts@);
    let mut out: Vec<u8> = Vec::new();
    let mut i: usize = 0;
    proof {
        assert(all.take(0) =~= Seq::<Seq<u8>>::empty());
    }
    while i < parts.len()
        invariant
            i <= parts@.len(),
            all == byte_views(parts@),
            out@ == text::join(all.take(i as int), sep@),
        decreases parts@.len() - i,
    {
        if i > 0 {
            extend(&mut out, sep);
        }
        extend(&mut out, &parts[i]);
        i += 1;
        proof {
            let now = all.take(i as int);
            assert(now.drop_last() =~= all.take(i - 1));
            assert(now.last() == parts@[i - 1]@);
            if i == 1 {
                assert(out@ =~= now[0]);
            }
        }
    }
    assert(all.take(i as int) =~= all);
    out
}

/// Dictionary order by byte.
pub open spec fn bytes_less(a: Seq<u8>, b: Seq<u8>) -> bool
    decreases a.len(),
{
    if b.len() == 0 {
        false
    } else if a.len() == 0 {
        true
    } else if a[0] == b[0] {
        bytes_less(a.skip(1), b.skip(1))
    } else {
        a[0] < b[0]
    }
}

pub proof fn lemma_bytes_transitive(a: Seq<u8>, b: Seq<u8>, c: Seq<u8>)
    requires
        bytes_less(a, b),
        bytes_less(b, c),
    ensures
        bytes_less(a, c),
    decreases a.len(),
{
    if a.len() > 0 && a[0] == b[0] && b[0] == c[0] {
        lemma_bytes_transitive(a.skip(1), b.skip(1), c.skip(1));
    }
}

pub proof fn lemma_bytes_irreflexive(a: Seq<u8>)
    ensures
        !bytes_less(a, a),
    decreases a.len(),
{
    if a.len() > 0 {
        lemma_bytes_irreflexive(a.skip(1));
    }
}

pub proof fn lemma_bytes_total(a: Seq<u8>, b: Seq<u8>)
    ensures
        a == b || bytes_less(a, b) || bytes_less(b, a),
    decreases a.len(),
{
    if a.len() == 0 {
        assert(b.len() == 0 ==> a =~= b);
    } else if b.len() > 0 && a[0] == b[0] {
        lemma_bytes_total(a.skip(1), b.skip(1));
        if a.skip(1) == b.skip(1) {
            assert(a =~= seq![a[0]] + a.skip(1));
            assert(b =~= seq![b[0]] + b.skip(1));
        }
    }
}

/// Whether `a` comes before `b`, byte by byte.
pub fn less(a: &[u8], b: &[u8]) -> (out: bool)
    ensures
        out == bytes_less(a@, b@),
{
    let mut i: usize = 0;
    assert(a@.skip(0) =~= a@);
    assert(b@.skip(0) =~= b@);
    while i < a.len() && i < b.len() && a[i] == b[i]
        invariant
            i <= a@.len(),
            i <= b@.len(),
            bytes_less(a@, b@) == bytes_less(a@.skip(i as int), b@.skip(i as int)),
        decreases a@.len() - i,
    {
        assert(a@.skip(i as int).skip(1) =~= a@.skip(i + 1));
        assert(b@.skip(i as int).skip(1) =~= b@.skip(i + 1));
        i += 1;
    }
    if i >= b.len() {
        return false;
    }
    if i >= a.len() {
        return true;
    }
    a[i] < b[i]
}

/// Two texts one after the other are the bytes of the one and then of the other.
pub proof fn lemma_encoded_together(a: Seq<char>, b: Seq<char>)
    ensures
        encode_utf8(a + b) == encode_utf8(a) + encode_utf8(b),
    decreases a.len(),
{
    if a.len() == 0 {
        assert(a + b =~= b);
        assert(encode_utf8(a) + encode_utf8(b) =~= encode_utf8(b));
    } else {
        lemma_encoded_together(a.drop_first(), b);
        assert((a + b).drop_first() =~= a.drop_first() + b);
        assert((a + b)[0] == a[0]);
        assert(encode_utf8(a + b) =~= encode_utf8(a) + encode_utf8(b));
    }
}

/// Dictionary order by byte is decided by the first place at which two byte strings differ, and
/// where there is none, by which ends first.
pub proof fn the_first_different_byte_decides(a: Seq<u8>, b: Seq<u8>, at: int)
    requires
        0 <= at <= a.len(),
        at <= b.len(),
        a.take(at) == b.take(at),
    ensures
        at == a.len() ==> bytes_less(a, b) == (at < b.len()),
        at == b.len() ==> !bytes_less(a, b),
        at < a.len() && at < b.len() && a[at] != b[at] ==> bytes_less(a, b) == (a[at] < b[at]),
    decreases at,
{
    if at > 0 {
        assert(a.take(at)[0] == a[0] && b.take(at)[0] == b[0]);
        let x = a.skip(1);
        let y = b.skip(1);
        assert(x.take(at - 1) =~= a.take(at).skip(1));
        assert(y.take(at - 1) =~= b.take(at).skip(1));
        the_first_different_byte_decides(x, y, at - 1);
        if at < a.len() {
            assert(x[at - 1] == a[at]);
        }
        if at < b.len() {
            assert(y[at - 1] == b[at]);
        }
    }
}

} // verus!
