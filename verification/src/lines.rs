//! Text as it comes in lines and words.

use crate::text;
use crate::text::{between, chars_of};
use vstd::prelude::*;

verus! {

/// The white space Unicode knows.
pub open spec fn is_white(c: char) -> bool {
    ||| '\u{9}' <= c && c <= '\u{d}'
    ||| c == ' '
    ||| c == '\u{85}'
    ||| c == '\u{a0}'
    ||| c == '\u{1680}'
    ||| '\u{2000}' <= c && c <= '\u{200a}'
    ||| c == '\u{2028}'
    ||| c == '\u{2029}'
    ||| c == '\u{202f}'
    ||| c == '\u{205f}'
    ||| c == '\u{3000}'
}

pub open spec fn trim_start(s: Seq<char>) -> Seq<char>
    decreases s.len(),
{
    if s.len() > 0 && is_white(s[0]) {
        trim_start(s.skip(1))
    } else {
        s
    }
}

pub open spec fn trim_end(s: Seq<char>) -> Seq<char>
    decreases s.len(),
{
    if s.len() > 0 && is_white(s.last()) {
        trim_end(s.drop_last())
    } else {
        s
    }
}

/// A text without the white space around it.
pub open spec fn trimmed(s: Seq<char>) -> Seq<char> {
    trim_end(trim_start(s))
}

pub fn white(c: char) -> (out: bool)
    ensures
        out == is_white(c),
{
    ('\u{9}' <= c && c <= '\u{d}') || c == ' ' || c == '\u{85}' || c == '\u{a0}' || c == '\u{1680}'
        || ('\u{2000}' <= c && c <= '\u{200a}') || c == '\u{2028}' || c == '\u{2029}' || c
        == '\u{202f}' || c == '\u{205f}' || c == '\u{3000}'
}

/// A text without the white space around it.
pub fn trim(s: &str) -> (out: String)
    ensures
        out@ == trimmed(s@),
{
    let cs = chars_of(s);
    let n: usize = cs.len();
    let mut from: usize = 0;
    assert(cs@.skip(0) =~= cs@);
    while from < n && white(cs[from])
        invariant
            from <= n == cs@.len(),
            trim_start(cs@) == trim_start(cs@.skip(from as int)),
        decreases n - from,
    {
        assert(cs@.skip(from as int).skip(1) =~= cs@.skip(from + 1));
        from += 1;
    }
    let ghost rest = cs@.skip(from as int);
    assert(trim_start(cs@) == rest);
    let mut to: usize = n;
    assert(cs@.subrange(from as int, n as int) =~= rest);
    while to > from && white(cs[to - 1])
        invariant
            from <= to <= n == cs@.len(),
            trim_end(rest) == trim_end(cs@.subrange(from as int, to as int)),
        decreases to,
    {
        assert(cs@.subrange(from as int, to as int).drop_last() =~= cs@.subrange(
            from as int,
            to - 1,
        ));
        assert(cs@.subrange(from as int, to as int).last() == cs@[to - 1]);
        to -= 1;
    }
    proof {
        let kept = cs@.subrange(from as int, to as int);
        if kept.len() > 0 {
            assert(kept.last() == cs@[to - 1]);
        }
    }
    between(&cs, from, to)
}

/// A piece of text up to a line's end, without the carriage return before it.
pub open spec fn without_return(s: Seq<char>) -> Seq<char> {
    if s.len() > 0 && s.last() == '\r' {
        s.drop_last()
    } else {
        s
    }
}

/// The lines of a text. A line ends at a newline, or at a carriage return and a newline; what
/// stands behind the last of them is a line only if it is not empty.
pub open spec fn lines_of(s: Seq<char>) -> Seq<Seq<char>>
    decreases s.len(),
{
    let at = text::position(s, '\n');
    if 0 <= at < s.len() {
        seq![without_return(s.take(at))] + lines_of(s.skip(at + 1))
    } else if s.len() == 0 {
        Seq::empty()
    } else {
        seq![s]
    }
}

/// The lines of a text.
pub fn lines(s: &str) -> (out: Vec<String>)
    ensures
        text::views(out@) == lines_of(s@),
{
    let cs = chars_of(s);
    let mut out: Vec<String> = Vec::new();
    let mut start: usize = 0;
    let mut i: usize = 0;
    proof {
        assert(cs@.skip(0) =~= cs@);
        assert(text::views(out@) + lines_of(cs@.skip(0)) =~= lines_of(cs@));
    }
    while i < cs.len()
        invariant
            start <= i <= cs@.len(),
            forall|j: int| start <= j < i ==> cs@[j] != '\n',
            text::views(out@) + lines_of(cs@.skip(start as int)) == lines_of(cs@),
        decreases cs@.len() - i,
    {
        if cs[i] == '\n' {
            let end: usize = if i > start && cs[i - 1] == '\r' {
                i - 1
            } else {
                i
            };
            let piece = between(&cs, start, end);
            let ghost rest = cs@.skip(start as int);
            let ghost before = text::views(out@);
            out.push(piece);
            proof {
                text::lemma_position(rest, '\n', i - start);
                let whole = rest.take(i - start);
                if i > start {
                    assert(whole.last() == cs@[i - 1]);
                }
                assert(without_return(whole) =~= piece@);
                assert(rest.skip(i - start + 1) =~= cs@.skip(i + 1));
                assert(text::views(out@) =~= before.push(piece@));
                assert(before.push(piece@) + lines_of(cs@.skip(i + 1)) =~= before + (seq![piece@]
                    + lines_of(cs@.skip(i + 1))));
            }
            start = i + 1;
        }
        i += 1;
    }
    let ghost rest = cs@.skip(start as int);
    let ghost before = text::views(out@);
    proof {
        text::lemma_position(rest, '\n', rest.len() as int);
    }
    if start < i {
        let piece = between(&cs, start, i);
        out.push(piece);
        proof {
            assert(rest =~= piece@);
            assert(text::views(out@) =~= before.push(piece@));
            assert(before.push(piece@) =~= before + seq![piece@]);
        }
    } else {
        assert(before + lines_of(rest) =~= before);
    }
    out
}

/// How many characters at the start of `s` are not white.
pub open spec fn word_length(s: Seq<char>) -> int
    decreases s.len(),
{
    if s.len() == 0 || is_white(s[0]) {
        0
    } else {
        1 + word_length(s.skip(1))
    }
}

/// The first word of a text: what stands before the white space behind it.
pub open spec fn first_word_of(s: Seq<char>) -> Option<Seq<char>> {
    let t = trim_start(s);
    if t.len() == 0 {
        None
    } else {
        Some(t.take(word_length(t)))
    }
}

/// What stands behind the first word.
pub open spec fn after_word_of(s: Seq<char>) -> Seq<char> {
    let t = trim_start(s);
    t.skip(word_length(t))
}

pub proof fn lemma_trim_shrinks(s: Seq<char>)
    ensures
        trim_start(s).len() <= s.len(),
        trim_start(s).len() > 0 ==> !is_white(trim_start(s)[0]),
    decreases s.len(),
{
    if s.len() > 0 && is_white(s[0]) {
        lemma_trim_shrinks(s.skip(1));
    }
}

pub proof fn lemma_word_bounds(s: Seq<char>)
    ensures
        0 <= word_length(s) <= s.len(),
        s.len() > 0 && !is_white(s[0]) ==> word_length(s) > 0,
        forall|i: int| 0 <= i < word_length(s) ==> !is_white(#[trigger] s[i]),
        word_length(s) < s.len() ==> is_white(s[word_length(s)]),
    decreases s.len(),
{
    if s.len() > 0 && !is_white(s[0]) {
        lemma_word_bounds(s.skip(1));
        assert forall|i: int| 0 <= i < word_length(s) implies !is_white(#[trigger] s[i]) by {
            if i > 0 {
                assert(s.skip(1)[i - 1] == s[i]);
            }
        }
    }
}

/// The words of a text: what white space parts.
pub open spec fn words_of(s: Seq<char>) -> Seq<Seq<char>>
    decreases s.len(),
    via words_shrink
{
    match first_word_of(s) {
        None => Seq::empty(),
        Some(word) => seq![word] + words_of(after_word_of(s)),
    }
}

#[via_fn]
proof fn words_shrink(s: Seq<char>) {
    lemma_trim_shrinks(s);
    lemma_word_bounds(trim_start(s));
}

/// The first word of a text from `from` on, and where what follows it begins.
fn word_at(cs: &[char], from: usize) -> (out: Option<(String, usize)>)
    requires
        from <= cs@.len(),
    ensures
        match out {
            Some((word, next)) => from < next <= cs@.len() && first_word_of(cs@.skip(from as int))
                == Some(word@) && after_word_of(cs@.skip(from as int)) == cs@.skip(next as int),
            None => first_word_of(cs@.skip(from as int)) is None,
        },
{
    let n: usize = cs.len();
    let mut a: usize = from;
    while a < n && white(cs[a])
        invariant
            from <= a <= n == cs@.len(),
            trim_start(cs@.skip(from as int)) == trim_start(cs@.skip(a as int)),
        decreases n - a,
    {
        assert(cs@.skip(a as int).skip(1) =~= cs@.skip(a + 1));
        a += 1;
    }
    let ghost t = cs@.skip(a as int);
    assert(trim_start(cs@.skip(from as int)) == t);
    if a == n {
        return None;
    }
    let mut b: usize = a;
    assert(t.skip(0) =~= t);
    while b < n && !white(cs[b])
        invariant
            a <= b <= n == cs@.len(),
            t == cs@.skip(a as int),
            word_length(t) == b - a + word_length(t.skip(b - a)),
        decreases n - b,
    {
        assert(t.skip(b - a)[0] == cs@[b as int]);
        assert(t.skip(b - a).skip(1) =~= t.skip(b + 1 - a));
        b += 1;
    }
    proof {
        if b < n {
            assert(t.skip(b - a)[0] == cs@[b as int]);
        }
        assert(word_length(t) == b - a);
        lemma_word_bounds(t);
    }
    let word = between(cs, a, b);
    assert(t.take(b - a) =~= word@);
    assert(t.skip(b - a) =~= cs@.skip(b as int));
    Some((word, b))
}

/// The words of a text.
pub fn words(s: &str) -> (out: Vec<String>)
    ensures
        text::views(out@) == words_of(s@),
{
    let cs = chars_of(s);
    let n: usize = cs.len();
    let mut out: Vec<String> = Vec::new();
    let mut from: usize = 0;
    proof {
        assert(cs@.skip(0) =~= cs@);
        assert(text::views(out@) + words_of(cs@.skip(0)) =~= words_of(cs@));
    }
    loop
        invariant
            from <= n == cs@.len(),
            cs@ == s@,
            text::views(out@) + words_of(cs@.skip(from as int)) == words_of(cs@),
        decreases n - from,
    {
        let ghost rest = cs@.skip(from as int);
        match word_at(&cs, from) {
            None => {
                assert(text::views(out@) + words_of(rest) =~= text::views(out@));
                return out;
            },
            Some((word, next)) => {
                let ghost before = text::views(out@);
                let ghost w = word@;
                out.push(word);
                proof {
                    assert(words_of(rest) == seq![w] + words_of(cs@.skip(next as int)));
                    assert(text::views(out@) =~= before.push(w));
                    assert(before.push(w) + words_of(cs@.skip(next as int)) =~= before + (seq![w]
                        + words_of(cs@.skip(next as int))));
                }
                from = next;
            },
        }
    }
}

/// The first word of a text.
pub fn first_word(s: &str) -> (out: Option<String>)
    ensures
        text::view_opt(out) == first_word_of(s@),
{
    let cs = chars_of(s);
    assert(cs@.skip(0) =~= s@);
    match word_at(&cs, 0) {
        Some((word, _)) => Some(word),
        None => None,
    }
}

/// What stands before and after the first white character.
pub open spec fn split_white(s: Seq<char>) -> Option<(Seq<char>, Seq<char>)> {
    let at = word_length(s);
    if at < s.len() {
        Some((s.take(at), s.skip(at + 1)))
    } else {
        None
    }
}

/// What stands before and after the first white character.
pub fn split_once_white(s: &str) -> (out: Option<(String, String)>)
    ensures
        match out {
            Some((a, b)) => split_white(s@) == Some((a@, b@)),
            None => split_white(s@) is None,
        },
{
    let cs = chars_of(s);
    let n: usize = cs.len();
    let mut b: usize = 0;
    assert(cs@.skip(0) =~= cs@);
    while b < n && !white(cs[b])
        invariant
            b <= n == cs@.len(),
            word_length(cs@) == b + word_length(cs@.skip(b as int)),
        decreases n - b,
    {
        assert(cs@.skip(b as int)[0] == cs@[b as int]);
        assert(cs@.skip(b as int).skip(1) =~= cs@.skip(b + 1));
        b += 1;
    }
    if b == n {
        return None;
    }
    assert(cs@.skip(b as int)[0] == cs@[b as int]);
    let head = between(&cs, 0, b);
    let tail = between(&cs, b + 1, n);
    assert(head@ =~= s@.take(b as int));
    assert(tail@ =~= s@.skip(b + 1));
    Some((head, tail))
}

/// Whether a value stands on one line and has no white space around it.
pub open spec fn one_line(v: Seq<char>) -> bool {
    !v.contains('\n') && trimmed(v) == v
}

/// The first line of a text is what stands before its first newline.
pub proof fn lemma_first_line(line: Seq<char>, rest: Seq<char>)
    requires
        !line.contains('\n'),
        line.len() > 0 ==> line.last() != '\r',
    ensures
        lines_of(line + seq!['\n'] + rest) == seq![line] + lines_of(rest),
{
    let s = line + seq!['\n'] + rest;
    assert forall|i: int| 0 <= i < line.len() implies s[i] != '\n' by {
        assert(s[i] == line[i]);
        assert(line.contains(line[i]));
    }
    assert(s[line.len() as int] == '\n');
    text::lemma_position(s, '\n', line.len() as int);
    assert(s.take(line.len() as int) =~= line);
    assert(s.skip(line.len() as int + 1) =~= rest);
    assert(without_return(line) == line);
}

/// White space before a text is trimmed away with the rest.
pub proof fn lemma_trim_padding(pad: Seq<char>, v: Seq<char>)
    requires
        forall|i: int| 0 <= i < pad.len() ==> is_white(#[trigger] pad[i]),
    ensures
        trim_start(pad + v) == trim_start(v),
        trimmed(pad + v) == trimmed(v),
    decreases pad.len(),
{
    if pad.len() > 0 {
        assert((pad + v)[0] == pad[0]);
        assert((pad + v).skip(1) =~= pad.skip(1) + v);
        assert forall|i: int| 0 <= i < pad.skip(1).len() implies is_white(
            #[trigger] pad.skip(1)[i],
        ) by {
            assert(pad[i + 1] == pad.skip(1)[i]);
        }
        lemma_trim_padding(pad.skip(1), v);
    } else {
        assert(pad + v =~= v);
    }
}

pub proof fn lemma_word_then_white(word: Seq<char>, tail: Seq<char>)
    requires
        forall|i: int| 0 <= i < word.len() ==> !is_white(#[trigger] word[i]),
        tail.len() > 0 ==> is_white(tail[0]),
    ensures
        word_length(word + tail) == word.len(),
    decreases word.len(),
{
    if word.len() > 0 {
        assert((word + tail)[0] == word[0]);
        assert((word + tail).skip(1) =~= word.skip(1) + tail);
        assert forall|i: int| 0 <= i < word.skip(1).len() implies !is_white(
            #[trigger] word.skip(1)[i],
        ) by {
            assert(word[i + 1] == word.skip(1)[i]);
        }
        lemma_word_then_white(word.skip(1), tail);
    } else {
        assert(word + tail =~= tail);
    }
}

/// A line of a name, white space and a value splits into the name and, trimmed, the value.
pub proof fn lemma_labelled(word: Seq<char>, pad: Seq<char>, v: Seq<char>)
    requires
        forall|i: int| 0 <= i < word.len() ==> !is_white(#[trigger] word[i]),
        pad.len() > 0,
        forall|i: int| 0 <= i < pad.len() ==> is_white(#[trigger] pad[i]),
    ensures
        split_white(word + pad + v) matches Some((a, b)) && a == word && trimmed(b) == trimmed(v),
{
    let s = word + pad + v;
    assert(s =~= word + (pad + v));
    assert((pad + v)[0] == pad[0]);
    lemma_word_then_white(word, pad + v);
    assert(s.take(word.len() as int) =~= word);
    assert(s.skip(word.len() as int + 1) =~= pad.skip(1) + v);
    assert forall|i: int| 0 <= i < pad.skip(1).len() implies is_white(#[trigger] pad.skip(1)[i]) by {
        assert(pad[i + 1] == pad.skip(1)[i]);
    }
    lemma_trim_padding(pad.skip(1), v);
}

/// A text that neither begins nor ends white is its own trimmed form.
pub proof fn lemma_untrimmed(v: Seq<char>)
    requires
        v.len() > 0 ==> !is_white(v[0]) && !is_white(v.last()),
    ensures
        trimmed(v) == v,
{
}

pub proof fn lemma_trimmed_edges(v: Seq<char>)
    requires
        trimmed(v) == v,
        v.len() > 0,
    ensures
        !is_white(v[0]),
        !is_white(v.last()),
{
    lemma_trim_shrinks(v);
    lemma_trim_end_shrinks(trim_start(v));
    lemma_trim_end_shrinks(v);
    assert(trim_start(v).len() == v.len());
    lemma_trim_start_keeps(v);
}

proof fn lemma_trim_start_keeps(v: Seq<char>)
    ensures
        trim_start(v).len() == v.len() ==> trim_start(v) == v,
{
    if v.len() > 0 && is_white(v[0]) {
        lemma_trim_shrinks(v.skip(1));
    }
}

pub proof fn lemma_trim_end_shrinks(s: Seq<char>)
    ensures
        trim_end(s).len() <= s.len(),
        trim_end(s).len() > 0 ==> !is_white(trim_end(s).last()),
    decreases s.len(),
{
    if s.len() > 0 && is_white(s.last()) {
        lemma_trim_end_shrinks(s.drop_last());
    }
}

// ---------------------------------------------------------------------------
// Laws
// ---------------------------------------------------------------------------

/// Trimming takes white space from both ends and nothing else: what is left neither begins nor ends
/// with any, and is what stood between it.
pub proof fn trimming_takes_only_white_space(before: Seq<char>, v: Seq<char>, after: Seq<char>)
    requires
        forall|i: int| 0 <= i < before.len() ==> is_white(#[trigger] before[i]),
        forall|i: int| 0 <= i < after.len() ==> is_white(#[trigger] after[i]),
        v.len() > 0 ==> !is_white(v[0]) && !is_white(v.last()),
    ensures
        trimmed(before + v + after) == v,
{
    lemma_trim_padding(before, v + after);
    assert(before + v + after =~= before + (v + after));
    if v.len() > 0 {
        assert((v + after)[0] == v[0]);
        lemma_trim_behind(v, after);
    } else {
        assert(v + after =~= after);
        let none = Seq::<char>::empty();
        lemma_trim_padding(after, none);
        assert(after + none =~= after);
        assert(v =~= none);
    }
}

proof fn lemma_trim_behind(v: Seq<char>, after: Seq<char>)
    requires
        forall|i: int| 0 <= i < after.len() ==> is_white(#[trigger] after[i]),
        v.len() > 0,
        !is_white(v.last()),
    ensures
        trim_end(v + after) == v,
    decreases after.len(),
{
    if after.len() == 0 {
        assert(v + after =~= v);
    } else {
        assert((v + after).last() == after.last());
        assert(is_white(after[after.len() - 1]));
        assert((v + after).drop_last() =~= v + after.drop_last());
        lemma_trim_behind(v, after.drop_last());
    }
}

/// White space parts words: what has none is one word, and what stands on either side of some is
/// taken for itself. No word is empty.
pub proof fn white_space_parts_words(a: Seq<char>, c: char, b: Seq<char>)
    requires
        is_white(c),
    ensures
        words_of(a + seq![c] + b) == words_of(a) + words_of(b),
        a.len() > 0 && (forall|i: int| 0 <= i < a.len() ==> !is_white(#[trigger] a[i])) ==> words_of(
            a,
        ) == seq![a],
        words_of(Seq::empty()) == Seq::<Seq<char>>::empty(),
    decreases a.len(),
{
    let whole = a + seq![c] + b;
    lemma_trim_shrinks(a);
    if a.len() > 0 && is_white(a[0]) {
        white_space_parts_words(a.skip(1), c, b);
        assert(whole[0] == a[0]);
        assert(whole.skip(1) =~= a.skip(1) + seq![c] + b);
        lemma_words_of_trimmed(whole);
        lemma_words_of_trimmed(a);
        lemma_words_of_trimmed(whole.skip(1));
        lemma_words_of_trimmed(a.skip(1));
    } else if a.len() == 0 {
        assert(whole[0] == c);
        assert(whole.skip(1) =~= b);
        lemma_words_of_trimmed(whole);
        lemma_words_of_trimmed(b);
        assert(words_of(a) =~= Seq::<Seq<char>>::empty());
        assert(words_of(a) + words_of(b) =~= words_of(b));
    } else {
        lemma_word_bounds(a);
        let n = word_length(a);
        let word = a.take(n);
        let rest = a.skip(n);
        assert forall|i: int| 0 <= i < word.len() implies !is_white(#[trigger] word[i]) by {
            assert(word[i] == a[i]);
        }
        let tail = rest + seq![c] + b;
        assert(whole =~= word + tail);
        assert(tail[0] == if rest.len() > 0 {
            rest[0]
        } else {
            c
        });
        lemma_word_then_white(word, tail);
        assert(whole[0] == a[0]);
        assert(whole.take(n) =~= word);
        assert(whole.skip(n) =~= tail);
        white_space_parts_words(rest, c, b);
        assert(words_of(whole) == seq![word] + words_of(tail));
        assert(words_of(a) == seq![word] + words_of(rest));
        assert(seq![word] + (words_of(rest) + words_of(b)) =~= seq![word] + words_of(rest)
            + words_of(b));
        if forall|i: int| 0 <= i < a.len() ==> !is_white(#[trigger] a[i]) {
            assert(n == a.len());
            assert(word =~= a);
            assert(rest =~= Seq::<char>::empty());
            assert(words_of(rest) =~= Seq::<Seq<char>>::empty());
            assert(words_of(a) =~= seq![a]);
        }
    }
}

proof fn lemma_words_of_trimmed(s: Seq<char>)
    ensures
        words_of(s) == words_of(trim_start(s)),
{
    lemma_trim_shrinks(s);
    let t = trim_start(s);
    assert(trim_start(t) == t) by {
        if t.len() > 0 {
            assert(!is_white(t[0]));
        }
    }
}

/// A line ends at a newline, with the carriage return before it where there is one; what stands
/// behind the last newline is a line where it is anything.
pub proof fn a_line_ends_at_its_newline(line: Seq<char>, rest: Seq<char>)
    requires
        !line.contains('\n'),
        line.len() > 0 ==> line.last() != '\r',
    ensures
        lines_of(line + seq!['\n'] + rest) == seq![line] + lines_of(rest),
        lines_of(line + seq!['\r', '\n'] + rest) == seq![line] + lines_of(rest),
        line.len() > 0 ==> lines_of(line) == seq![line],
        lines_of(Seq::empty()) == Seq::<Seq<char>>::empty(),
{
    lemma_first_line(line, rest);
    let back = line.push('\r');
    let s = line + seq!['\r', '\n'] + rest;
    assert(s =~= back + seq!['\n'] + rest);
    assert forall|i: int| 0 <= i < back.len() implies s[i] != '\n' by {
        assert(s[i] == back[i]);
        if i < line.len() {
            assert(line.contains(line[i]));
        }
    }
    assert(s[back.len() as int] == '\n');
    text::lemma_position(s, '\n', back.len() as int);
    assert(s.take(back.len() as int) =~= back);
    assert(s.skip(back.len() as int + 1) =~= rest);
    assert(without_return(back) =~= line);
    assert forall|i: int| 0 <= i < line.len() implies line[i] != '\n' by {
        assert(line.contains(line[i]));
    }
    text::lemma_position(line, '\n', line.len() as int);
}

} // verus!
