//! Text as sequences of characters: the building blocks every other module renders
//! and parses with.

use vstd::prelude::*;

verus! {

/// `String::push` appends the given character to the end of the string.
pub assume_specification[ String::push ](s: &mut String, c: char)
    ensures
        final(s)@ == old(s)@.push(c),
;

/// The texts that a sequence of strings holds.
pub open spec fn views(v: Seq<String>) -> Seq<Seq<char>> {
    v.map_values(|s: String| s@)
}

/// The text an optional string holds.
pub open spec fn view_opt(v: Option<String>) -> Option<Seq<char>> {
    match v {
        Some(s) => Some(s@),
        None => None,
    }
}

/// The character `c`, `n` times over.
pub open spec fn repeated(c: char, n: nat) -> Seq<char> {
    Seq::new(n, |i: int| c)
}

/// `s` followed by as many spaces as bring it to `width`; `s` itself when it is that wide already.
pub open spec fn padded_right(s: Seq<char>, width: nat) -> Seq<char> {
    if s.len() >= width {
        s
    } else {
        s + repeated(' ', (width - s.len()) as nat)
    }
}

/// `s` preceded by as many spaces as bring it to `width`; `s` itself when it is that wide already.
pub open spec fn padded_left(s: Seq<char>, width: nat) -> Seq<char> {
    if s.len() >= width {
        s
    } else {
        repeated(' ', (width - s.len()) as nat) + s
    }
}

/// The decimal digit of a number under ten.
pub open spec fn digit(n: nat) -> char {
    (48 + n) as char
}

/// A number in decimal, without leading zeros.
pub open spec fn decimal_text(n: nat) -> Seq<char>
    decreases n,
{
    if n < 10 {
        seq![digit(n)]
    } else {
        decimal_text(n / 10).push(digit(n % 10))
    }
}

/// The least index at which `s` holds `c`, or the length of `s` where it holds none.
pub open spec fn position<T>(s: Seq<T>, c: T) -> int
    decreases s.len(),
{
    if s.len() == 0 {
        0
    } else if s[0] == c {
        0
    } else {
        1 + position(s.skip(1), c)
    }
}

/// The pieces of `s` between its separators. There is always one more piece than separators.
pub open spec fn split<T>(s: Seq<T>, sep: T) -> Seq<Seq<T>>
    decreases s.len(),
{
    let at = position(s, sep);
    if 0 <= at < s.len() {
        seq![s.take(at)] + split(s.skip(at + 1), sep)
    } else {
        seq![s]
    }
}

/// What stands before and after the first separator, where there is one.
pub open spec fn split_first<T>(s: Seq<T>, sep: T) -> Option<(Seq<T>, Seq<T>)> {
    let at = position(s, sep);
    if 0 <= at < s.len() {
        Some((s.take(at), s.skip(at + 1)))
    } else {
        None
    }
}

/// The parts one after another, with `sep` between each two.
pub open spec fn join<T>(parts: Seq<Seq<T>>, sep: Seq<T>) -> Seq<T>
    decreases parts.len(),
{
    if parts.len() == 0 {
        Seq::empty()
    } else if parts.len() == 1 {
        parts[0]
    } else {
        join(parts.drop_last(), sep) + sep + parts.last()
    }
}

pub open spec fn has_prefix<T>(s: Seq<T>, prefix: Seq<T>) -> bool {
    prefix.len() <= s.len() && s.take(prefix.len() as int) == prefix
}

pub open spec fn has_suffix<T>(s: Seq<T>, suffix: Seq<T>) -> bool {
    suffix.len() <= s.len() && s.skip(s.len() - suffix.len()) == suffix
}

/// What follows `prefix`, where `s` begins with it.
pub open spec fn without_prefix<T>(s: Seq<T>, prefix: Seq<T>) -> Option<Seq<T>> {
    if has_prefix(s, prefix) {
        Some(s.skip(prefix.len() as int))
    } else {
        None
    }
}

/// What precedes `suffix`, where `s` ends with it.
pub open spec fn without_suffix<T>(s: Seq<T>, suffix: Seq<T>) -> Option<Seq<T>> {
    if has_suffix(s, suffix) {
        Some(s.take(s.len() - suffix.len()))
    } else {
        None
    }
}

/// Whether `part` occurs in `s` at index `at`.
pub open spec fn occurs_at<T>(s: Seq<T>, part: Seq<T>, at: int) -> bool {
    0 <= at && at + part.len() <= s.len() && s.subrange(at, at + part.len()) == part
}

pub open spec fn contains_text<T>(s: Seq<T>, part: Seq<T>) -> bool {
    exists|at: int| occurs_at(s, part, at)
}

/// The decimal value of a sequence of digits, read from the left.
pub open spec fn decimal_value(s: Seq<char>) -> nat
    decreases s.len(),
{
    if s.len() == 0 {
        0
    } else {
        decimal_value(s.drop_last()) * 10 + (s.last() as nat - 48) as nat
    }
}

pub open spec fn is_digit(c: char) -> bool {
    '0' <= c && c <= '9'
}

pub open spec fn all_digits(s: Seq<char>) -> bool {
    s.len() > 0 && forall|i: int| 0 <= i < s.len() ==> is_digit(#[trigger] s[i])
}

/// An unsigned decimal number no greater than `max`, with an optional plus sign before it.
pub open spec fn parsed_number(s: Seq<char>, max: nat) -> Option<nat> {
    let body = if s.len() > 0 && s[0] == '+' {
        s.skip(1)
    } else {
        s
    };
    if all_digits(body) && decimal_value(body) <= max {
        Some(decimal_value(body))
    } else {
        None
    }
}

/// A character in lower case where it is an ASCII capital, and unchanged otherwise.
pub open spec fn ascii_lower(c: char) -> char {
    if 'A' <= c && c <= 'Z' {
        (c as u32 + 32) as char
    } else {
        c
    }
}

pub open spec fn ascii_lower_text(s: Seq<char>) -> Seq<char> {
    s.map_values(|c: char| ascii_lower(c))
}

/// A position is where the first occurrence stands.
pub proof fn lemma_position<T>(s: Seq<T>, c: T, at: int)
    requires
        0 <= at <= s.len(),
        forall|i: int| 0 <= i < at ==> s[i] != c,
        at < s.len() ==> s[at] == c,
    ensures
        position(s, c) == at,
    decreases s.len(),
{
    if s.len() > 0 && at > 0 {
        assert(s[0] != c);
        lemma_position(s.skip(1), c, at - 1);
    }
}

pub proof fn lemma_position_bounds<T>(s: Seq<T>, c: T)
    ensures
        0 <= position(s, c) <= s.len(),
        position(s, c) < s.len() ==> s[position(s, c)] == c,
        forall|i: int| 0 <= i < position(s, c) ==> s[i] != c,
    decreases s.len(),
{
    if s.len() > 0 && s[0] != c {
        lemma_position_bounds(s.skip(1), c);
        assert forall|i: int| 0 <= i < position(s, c) implies s[i] != c by {
            if i > 0 {
                assert(s.skip(1)[i - 1] == s[i]);
            }
        }
    }
}

/// Splitting is what joining undoes.
pub proof fn lemma_join_split<T>(s: Seq<T>, sep: T)
    ensures
        join(split(s, sep), seq![sep]) == s,
    decreases s.len(),
{
    lemma_position_bounds(s, sep);
    let at = position(s, sep);
    if at < s.len() {
        let tail = split(s.skip(at + 1), sep);
        lemma_join_split(s.skip(at + 1), sep);
        lemma_split_nonempty(s.skip(at + 1), sep);
        lemma_join_prepend(s.take(at), tail, seq![sep]);
        assert(s =~= s.take(at) + seq![sep] + s.skip(at + 1));
    }
}

pub proof fn lemma_split_nonempty<T>(s: Seq<T>, sep: T)
    ensures
        split(s, sep).len() >= 1,
{
    lemma_position_bounds(s, sep);
}

pub proof fn lemma_join_prepend<T>(head: Seq<T>, parts: Seq<Seq<T>>, sep: Seq<T>)
    requires
        parts.len() >= 1,
    ensures
        join(seq![head] + parts, sep) == head + sep + join(parts, sep),
    decreases parts.len(),
{
    let all = seq![head] + parts;
    assert(all.last() == parts.last());
    if parts.len() == 1 {
        assert(all.drop_last() =~= seq![head]);
        assert(join(seq![head], sep) == head);
    } else {
        assert(all.drop_last() =~= seq![head] + parts.drop_last());
        lemma_join_prepend(head, parts.drop_last(), sep);
        assert(head + sep + join(parts.drop_last(), sep) + sep + parts.last() =~= head + sep + (join(
            parts.drop_last(),
            sep,
        ) + sep + parts.last()));
    }
}

/// The character `c`, `n` times over.
pub fn repeat(c: char, n: usize) -> (out: String)
    ensures
        out@ == repeated(c, n as nat),
{
    let mut out = String::new();
    let mut i: usize = 0;
    while i < n
        invariant
            i <= n,
            out@ == repeated(c, i as nat),
        decreases n - i,
    {
        out.push(c);
        i += 1;
        assert(out@ =~= repeated(c, i as nat));
    }
    assert(i == n);
    out
}

pub fn chars_of(s: &str) -> (out: Vec<char>)
    ensures
        out@ == s@,
{
    let mut out: Vec<char> = Vec::new();
    for c in it: s.chars()
        invariant
            out@ == s@.take(it.index()),
            it.seq() == s@,
    {
        out.push(c);
    }
    assert(s@.take(s@.len() as int) =~= s@);
    out
}

pub fn string_of(s: &[char]) -> (out: String)
    ensures
        out@ == s@,
{
    between(s, 0, s.len())
}

/// The characters from `from` up to `to`.
pub fn between(s: &[char], from: usize, to: usize) -> (out: String)
    requires
        from <= to <= s@.len(),
    ensures
        out@ == s@.subrange(from as int, to as int),
{
    let mut out = String::new();
    let mut i: usize = from;
    while i < to
        invariant
            from <= i <= to <= s@.len(),
            out@ == s@.subrange(from as int, i as int),
        decreases to - i,
    {
        out.push(s[i]);
        i += 1;
        assert(out@ =~= s@.subrange(from as int, i as int));
    }
    assert(i == to);
    out
}

pub fn same_chars(a: &[char], b: &[char]) -> (out: bool)
    ensures
        out == (a@ == b@),
{
    if a.len() != b.len() {
        return false;
    }
    let mut i: usize = 0;
    while i < a.len()
        invariant
            i <= a@.len(),
            a@.len() == b@.len(),
            forall|j: int| 0 <= j < i ==> a@[j] == b@[j],
        decreases a@.len() - i,
    {
        if a[i] != b[i] {
            assert(a@ != b@);
            return false;
        }
        i += 1;
    }
    assert(a@ =~= b@);
    true
}

pub fn same(a: &str, b: &str) -> (out: bool)
    ensures
        out == (a@ == b@),
{
    let x = chars_of(a);
    let y = chars_of(b);
    same_chars(&x, &y)
}

/// Whether one of the strings holds the given text.
pub fn any_same(list: &[String], s: &str) -> (out: bool)
    ensures
        out == exists|i: int| 0 <= i < list@.len() && (#[trigger] list@[i])@ == s@,
        out == views(list@).contains(s@),
{
    let mut i: usize = 0;
    while i < list.len()
        invariant
            i <= list@.len(),
            forall|j: int| 0 <= j < i ==> (#[trigger] list@[j])@ != s@,
        decreases list@.len() - i,
    {
        if same(&list[i], s) {
            assert(views(list@)[i as int] == s@);
            return true;
        }
        i += 1;
    }
    assert(!views(list@).contains(s@)) by {
        if views(list@).contains(s@) {
            let j = choose|j: int| 0 <= j < views(list@).len() && views(list@)[j] == s@;
            assert(list@[j]@ == s@);
        }
    }
    false
}

pub fn cat2(a: &str, b: &str) -> (out: String)
    ensures
        out@ == a@ + b@,
{
    let mut out = a.to_owned();
    out.append(b);
    out
}

pub fn cat3(a: &str, b: &str, c: &str) -> (out: String)
    ensures
        out@ == a@ + b@ + c@,
{
    let mut out = a.to_owned();
    out.append(b);
    out.append(c);
    out
}

pub fn cat4(a: &str, b: &str, c: &str, d: &str) -> (out: String)
    ensures
        out@ == a@ + b@ + c@ + d@,
{
    let mut out = a.to_owned();
    out.append(b);
    out.append(c);
    out.append(d);
    out
}

pub fn cat5(a: &str, b: &str, c: &str, d: &str, e: &str) -> (out: String)
    ensures
        out@ == a@ + b@ + c@ + d@ + e@,
{
    let mut out = cat4(a, b, c, d);
    out.append(e);
    out
}

pub fn cat6(a: &str, b: &str, c: &str, d: &str, e: &str, f: &str) -> (out: String)
    ensures
        out@ == a@ + b@ + c@ + d@ + e@ + f@,
{
    let mut out = cat5(a, b, c, d, e);
    out.append(f);
    out
}

pub fn cat7(a: &str, b: &str, c: &str, d: &str, e: &str, f: &str, g: &str) -> (out: String)
    ensures
        out@ == a@ + b@ + c@ + d@ + e@ + f@ + g@,
{
    let mut out = cat6(a, b, c, d, e, f);
    out.append(g);
    out
}

/// Left-aligned in `width` columns.
pub fn left(s: &str, width: usize) -> (out: String)
    ensures
        out@ == padded_right(s@, width as nat),
{
    let len: usize = s.unicode_len();
    if len >= width {
        return s.to_owned();
    }
    cat2(s, &repeat(' ', width - len))
}

/// Right-aligned in `width` columns.
pub fn right(s: &str, width: usize) -> (out: String)
    ensures
        out@ == padded_left(s@, width as nat),
{
    let len: usize = s.unicode_len();
    if len >= width {
        return s.to_owned();
    }
    cat2(&repeat(' ', width - len), s)
}

fn digit_char(n: u64) -> (c: char)
    requires
        n < 10,
    ensures
        c == digit(n as nat),
{
    let b: u8 = 48 + n as u8;
    b as char
}

/// A number in decimal.
pub fn decimal(n: u64) -> (out: String)
    ensures
        out@ == decimal_text(n as nat),
    decreases n,
{
    if n < 10 {
        let mut out = String::new();
        out.push(digit_char(n));
        assert(out@ =~= seq![digit(n as nat)]);
        out
    } else {
        let mut out = decimal(n / 10);
        out.push(digit_char(n % 10));
        out
    }
}

pub fn find(s: &[char], c: char) -> (out: Option<usize>)
    ensures
        match out {
            Some(at) => at == position(s@, c) && at < s@.len() && s@[at as int] == c,
            None => position(s@, c) == s@.len(),
        },
{
    let mut i: usize = 0;
    while i < s.len()
        invariant
            i <= s@.len(),
            forall|j: int| 0 <= j < i ==> s@[j] != c,
        decreases s@.len() - i,
    {
        if s[i] == c {
            proof {
                lemma_position(s@, c, i as int);
            }
            return Some(i);
        }
        i += 1;
    }
    proof {
        lemma_position(s@, c, i as int);
    }
    None
}

/// The pieces of a text between its separators.
pub fn split_text(s: &str, sep: char) -> (out: Vec<String>)
    ensures
        views(out@) == split(s@, sep),
{
    let cs = chars_of(s);
    let mut out: Vec<String> = Vec::new();
    let mut start: usize = 0;
    let mut i: usize = 0;
    proof {
        assert(cs@.skip(0) =~= cs@);
        assert(views(out@) + split(cs@.skip(0), sep) =~= split(cs@, sep));
    }
    while i < cs.len()
        invariant
            start <= i <= cs@.len(),
            forall|j: int| start <= j < i ==> cs@[j] != sep,
            views(out@) + split(cs@.skip(start as int), sep) == split(cs@, sep),
        decreases cs@.len() - i,
    {
        if cs[i] == sep {
            let piece = between(&cs, start, i);
            let ghost rest = cs@.skip(start as int);
            let ghost before = views(out@);
            out.push(piece);
            proof {
                lemma_position(rest, sep, i - start);
                assert(rest.take(i - start) =~= piece@);
                assert(rest.skip(i - start + 1) =~= cs@.skip(i + 1));
                assert(views(out@) =~= before.push(piece@));
                assert(before.push(piece@) + split(cs@.skip(i + 1), sep) =~= before + (seq![piece@]
                    + split(cs@.skip(i + 1), sep)));
            }
            start = i + 1;
        }
        i += 1;
    }
    let piece = between(&cs, start, i);
    let ghost rest = cs@.skip(start as int);
    let ghost before = views(out@);
    out.push(piece);
    proof {
        lemma_position(rest, sep, rest.len() as int);
        assert(rest =~= piece@);
        assert(views(out@) =~= before.push(piece@));
        assert(before.push(piece@) =~= before + seq![piece@]);
    }
    out
}

/// What stands before and after the first separator.
pub fn split_once(s: &str, sep: char) -> (out: Option<(String, String)>)
    ensures
        match out {
            Some((a, b)) => split_first(s@, sep) == Some((a@, b@)),
            None => split_first(s@, sep) is None,
        },
{
    let cs = chars_of(s);
    match find(&cs, sep) {
        Some(at) => {
            let len: usize = cs.len();
            let a = between(&cs, 0, at);
            let b = between(&cs, at + 1, len);
            assert(a@ =~= s@.take(at as int));
            assert(b@ =~= s@.skip(at + 1));
            Some((a, b))
        },
        None => None,
    }
}

/// The strings one after another, with `sep` between each two.
pub fn join_text(parts: &[String], sep: &str) -> (out: String)
    ensures
        out@ == join(views(parts@), sep@),
{
    let ghost all = views(parts@);
    let mut out = String::new();
    let mut i: usize = 0;
    proof {
        assert(all.take(0) =~= Seq::<Seq<char>>::empty());
    }
    while i < parts.len()
        invariant
            i <= parts@.len(),
            all == views(parts@),
            out@ == join(all.take(i as int), sep@),
        decreases parts@.len() - i,
    {
        if i > 0 {
            out.append(sep);
        }
        out.append(&parts[i]);
        i += 1;
        proof {
            let now = all.take(i as int);
            assert(now.drop_last() =~= all.take(i - 1));
            assert(now.last() == parts@[i - 1]@);
            if i == 1 {
                assert(out@ =~= now[0]);
            }
        }
    }
    assert(all.take(i as int) =~= all);
    out
}

pub fn starts_with(s: &[char], prefix: &str) -> (out: bool)
    ensures
        out == has_prefix(s@, prefix@),
{
    let p = chars_of(prefix);
    if p.len() > s.len() {
        return false;
    }
    let mut i: usize = 0;
    while i < p.len()
        invariant
            i <= p@.len() <= s@.len(),
            p@ == prefix@,
            forall|j: int| 0 <= j < i ==> s@[j] == p@[j],
        decreases p@.len() - i,
    {
        if s[i] != p[i] {
            assert(s@.take(p@.len() as int)[i as int] != p@[i as int]);
            return false;
        }
        i += 1;
    }
    assert(s@.take(p@.len() as int) =~= p@);
    true
}

pub fn strip_prefix(s: &str, prefix: &str) -> (out: Option<String>)
    ensures
        view_opt(out) == without_prefix(s@, prefix@),
{
    let cs = chars_of(s);
    if starts_with(&cs, prefix) {
        let n: usize = prefix.unicode_len();
        let rest = between(&cs, n, cs.len());
        assert(rest@ =~= s@.skip(n as int));
        Some(rest)
    } else {
        None
    }
}

pub fn ends_with(s: &[char], suffix: &str) -> (out: bool)
    ensures
        out == has_suffix(s@, suffix@),
{
    let p = chars_of(suffix);
    if p.len() > s.len() {
        return false;
    }
    let from: usize = s.len() - p.len();
    let mut i: usize = 0;
    while i < p.len()
        invariant
            i <= p@.len() <= s@.len(),
            from == s@.len() - p@.len(),
            s@.len() <= usize::MAX,
            p@ == suffix@,
            forall|j: int| 0 <= j < i ==> s@[from + j] == p@[j],
        decreases p@.len() - i,
    {
        if s[from + i] != p[i] {
            assert(s@.skip(from as int)[i as int] != p@[i as int]);
            return false;
        }
        i += 1;
    }
    assert(s@.skip(from as int) =~= p@);
    true
}

pub fn strip_suffix(s: &str, suffix: &str) -> (out: Option<String>)
    ensures
        view_opt(out) == without_suffix(s@, suffix@),
{
    let cs = chars_of(s);
    if ends_with(&cs, suffix) {
        let n: usize = suffix.unicode_len();
        let rest = between(&cs, 0, cs.len() - n);
        assert(rest@ =~= s@.take(s@.len() - n));
        Some(rest)
    } else {
        None
    }
}

/// Whether `part` occurs in `s` at index `at`.
pub fn stands_at(s: &[char], part: &[char], at: usize) -> (out: bool)
    ensures
        out == occurs_at(s@, part@, at as int),
{
    if at > s.len() || part.len() > s.len() - at {
        return false;
    }
    let mut i: usize = 0;
    while i < part.len()
        invariant
            i <= part@.len(),
            at + part@.len() <= s@.len() <= usize::MAX,
            forall|j: int| 0 <= j < i ==> s@[at + j] == part@[j],
        decreases part@.len() - i,
    {
        if s[at + i] != part[i] {
            assert(s@.subrange(at as int, at + part@.len())[i as int] != part@[i as int]);
            return false;
        }
        i += 1;
    }
    assert(s@.subrange(at as int, at + part@.len()) =~= part@);
    true
}

pub fn holds_text(s: &str, part: &str) -> (out: bool)
    ensures
        out == contains_text(s@, part@),
{
    let cs = chars_of(s);
    let ps = chars_of(part);
    let mut i: usize = 0;
    while i < cs.len()
        invariant
            i <= cs@.len(),
            cs@ == s@,
            ps@ == part@,
            forall|j: int| 0 <= j < i ==> !occurs_at(s@, part@, j),
        decreases cs@.len() - i,
    {
        if stands_at(&cs, &ps, i) {
            return true;
        }
        i += 1;
    }
    stands_at(&cs, &ps, i)
}

/// An unsigned decimal number no greater than `max`.
pub fn number(s: &[char], max: u64) -> (out: Option<u64>)
    ensures
        match out {
            Some(n) => parsed_number(s@, max as nat) == Some(n as nat),
            None => parsed_number(s@, max as nat) is None,
        },
{
    let start: usize = if s.len() > 0 && s[0] == '+' {
        1
    } else {
        0
    };
    let ghost body = s@.skip(start as int);
    proof {
        if start == 0 {
            assert(body =~= s@);
        }
    }
    if start == s.len() {
        return None;
    }
    let mut value: u64 = 0;
    let mut i: usize = start;
    while i < s.len()
        invariant
            start <= i <= s@.len(),
            start <= 1,
            body == s@.skip(start as int),
            value == decimal_value(body.take(i - start)),
            value <= max,
            parsed_number(s@, max as nat) == (if all_digits(body) && decimal_value(body) <= max {
                Some(decimal_value(body))
            } else {
                None::<nat>
            }),
            forall|j: int| 0 <= j < i - start ==> is_digit(body[j]),
        decreases s@.len() - i,
    {
        let c = s[i];
        assert(body[i - start] == c);
        if c < '0' || c > '9' {
            assert(!is_digit(body[i - start]));
            return None;
        }
        let d: u64 = (c as u32 - 48) as u64;
        proof {
            let now = body.take(i + 1 - start);
            assert(now.drop_last() =~= body.take(i - start));
            assert(decimal_value(now) == value * 10 + d);
        }
        if d > max || value > (max - d) / 10 {
            proof {
                assert(value * 10 + d > max) by (nonlinear_arith)
                    requires
                        d > max || value > (max - d) / 10,
                ;
                lemma_decimal_grows(body, i + 1 - start);
            }
            return None;
        }
        assert(value * 10 + d <= max) by (nonlinear_arith)
            requires
                d <= max,
                value <= (max - d) / 10,
        ;
        value = value * 10 + d;
        i += 1;
    }
    assert(body.take(i - start) =~= body);
    Some(value)
}

/// Reading more digits never makes a number smaller.
proof fn lemma_decimal_grows(s: Seq<char>, n: int)
    requires
        0 <= n <= s.len(),
    ensures
        decimal_value(s.take(n)) <= decimal_value(s),
    decreases s.len() - n,
{
    if n < s.len() {
        lemma_decimal_grows(s, n + 1);
        assert(s.take(n + 1).drop_last() =~= s.take(n));
    } else {
        assert(s.take(n) =~= s);
    }
}

/// Dictionary order by code point.
pub open spec fn text_less(a: Seq<char>, b: Seq<char>) -> bool
    decreases a.len(),
{
    if b.len() == 0 {
        false
    } else if a.len() == 0 {
        true
    } else if a[0] == b[0] {
        text_less(a.skip(1), b.skip(1))
    } else {
        a[0] < b[0]
    }
}

pub proof fn lemma_less_transitive(a: Seq<char>, b: Seq<char>, c: Seq<char>)
    requires
        text_less(a, b),
        text_less(b, c),
    ensures
        text_less(a, c),
    decreases a.len(),
{
    if a.len() > 0 && a[0] == b[0] && b[0] == c[0] {
        lemma_less_transitive(a.skip(1), b.skip(1), c.skip(1));
    }
}

pub proof fn lemma_less_irreflexive(a: Seq<char>)
    ensures
        !text_less(a, a),
    decreases a.len(),
{
    if a.len() > 0 {
        lemma_less_irreflexive(a.skip(1));
    }
}

pub proof fn lemma_less_total(a: Seq<char>, b: Seq<char>)
    ensures
        a == b || text_less(a, b) || text_less(b, a),
    decreases a.len(),
{
    if a.len() == 0 {
        assert(b.len() == 0 ==> a =~= b);
    } else if b.len() > 0 && a[0] == b[0] {
        lemma_less_total(a.skip(1), b.skip(1));
        if a.skip(1) == b.skip(1) {
            assert(a =~= seq![a[0]] + a.skip(1));
            assert(b =~= seq![b[0]] + b.skip(1));
        }
    }
}

/// Whether `a` comes before `b` in the dictionary.
pub fn less(a: &str, b: &str) -> (out: bool)
    ensures
        out == text_less(a@, b@),
{
    let x = chars_of(a);
    let y = chars_of(b);
    let mut i: usize = 0;
    assert(x@.skip(0) =~= x@);
    assert(y@.skip(0) =~= y@);
    while i < x.len() && i < y.len() && x[i] == y[i]
        invariant
            i <= x@.len(),
            i <= y@.len(),
            x@ == a@,
            y@ == b@,
            text_less(a@, b@) == text_less(x@.skip(i as int), y@.skip(i as int)),
        decreases x@.len() - i,
    {
        assert(x@.skip(i as int).skip(1) =~= x@.skip(i + 1));
        assert(y@.skip(i as int).skip(1) =~= y@.skip(i + 1));
        i += 1;
    }
    if i >= y.len() {
        return false;
    }
    if i >= x.len() {
        return true;
    }
    x[i] < y[i]
}

/// Each text comes before every later one.
pub open spec fn sorted(v: Seq<Seq<char>>) -> bool {
    forall|i: int, j: int| 0 <= i < j < v.len() ==> text_less(#[trigger] v[i], #[trigger] v[j])
}

/// The least index at which `part` occurs in `s`, or the length of `s` where it does not.
pub open spec fn text_position(s: Seq<char>, part: Seq<char>) -> int
    decreases s.len(),
{
    if occurs_at(s, part, 0) || s.len() == 0 {
        0
    } else {
        1 + text_position(s.skip(1), part)
    }
}

/// What stands before and after the first occurrence of a text, where there is one.
pub open spec fn split_at_text(s: Seq<char>, part: Seq<char>) -> Option<(Seq<char>, Seq<char>)> {
    let at = text_position(s, part);
    if occurs_at(s, part, at) {
        Some((s.take(at), s.skip(at + part.len())))
    } else {
        None
    }
}

pub proof fn lemma_text_position(s: Seq<char>, part: Seq<char>, at: int)
    requires
        0 <= at <= s.len(),
        forall|i: int| 0 <= i < at ==> !occurs_at(s, part, i),
        at < s.len() ==> occurs_at(s, part, at),
    ensures
        text_position(s, part) == at,
    decreases s.len(),
{
    if at > 0 {
        assert(!occurs_at(s, part, 0));
        let rest = s.skip(1);
        assert forall|i: int| 0 <= i < at - 1 implies !occurs_at(rest, part, i) by {
            assert(!occurs_at(s, part, i + 1));
            if occurs_at(rest, part, i) {
                assert(rest.subrange(i, i + part.len()) =~= s.subrange(i + 1, i + 1 + part.len()));
            }
        }
        if at < s.len() {
            assert(rest.subrange(at - 1, at - 1 + part.len()) =~= s.subrange(
                at,
                at + part.len(),
            ));
        }
        lemma_text_position(rest, part, at - 1);
    }
}

/// What stands before and after the first occurrence of a text.
pub fn split_once_text(s: &str, part: &str) -> (out: Option<(String, String)>)
    requires
        part@.len() > 0,
    ensures
        match out {
            Some((a, b)) => split_at_text(s@, part@) == Some((a@, b@)),
            None => split_at_text(s@, part@) is None,
        },
{
    let cs = chars_of(s);
    let ps = chars_of(part);
    let n: usize = cs.len();
    let mut i: usize = 0;
    while i < n
        invariant
            i <= n == cs@.len(),
            cs@ == s@,
            ps@ == part@,
            forall|j: int| 0 <= j < i ==> !occurs_at(s@, part@, j),
        decreases n - i,
    {
        if stands_at(&cs, &ps, i) {
            proof {
                lemma_text_position(s@, part@, i as int);
            }
            let end: usize = i + ps.len();
            let a = between(&cs, 0, i);
            let b = between(&cs, end, n);
            assert(a@ =~= s@.take(i as int));
            assert(b@ =~= s@.skip(end as int));
            return Some((a, b));
        }
        i += 1;
    }
    proof {
        lemma_text_position(s@, part@, n as int);
    }
    None
}

/// A number's decimal is digits alone, and reads back as the number.
pub proof fn lemma_decimal_reads_back(n: nat)
    ensures
        all_digits(decimal_text(n)),
        decimal_value(decimal_text(n)) == n,
    decreases n,
{
    if n < 10 {
        assert(decimal_text(n).drop_last() =~= Seq::empty());
        assert(decimal_value(Seq::empty()) == 0);
    } else {
        lemma_decimal_reads_back(n / 10);
        let head = decimal_text(n / 10);
        let whole = decimal_text(n);
        assert(whole.drop_last() =~= head);
        assert forall|i: int| 0 <= i < whole.len() implies is_digit(#[trigger] whole[i]) by {
            if i < head.len() {
                assert(whole[i] == head[i]);
            }
        }
    }
}

/// A number is written in digits alone, one at least.
pub proof fn lemma_decimal_digits(n: nat)
    ensures
        forall|i: int| 0 <= i < decimal_text(n).len() ==> is_digit(#[trigger] decimal_text(n)[i]),
        decimal_text(n).len() > 0,
    decreases n,
{
    if n >= 10 {
        lemma_decimal_digits(n / 10);
    }
}

/// Reading a number's decimal gives the number, where it is no greater than the bound.
pub proof fn decimals_round_trip(n: nat, max: nat)
    requires
        n <= max,
    ensures
        parsed_number(decimal_text(n), max) == Some(n),
{
    lemma_decimal_reads_back(n);
    assert(is_digit(decimal_text(n)[0]));
}

/// How many texts at the start of a list come before `x` or are it.
pub open spec fn rank(v: Seq<Seq<char>>, x: Seq<char>) -> int
    decreases v.len(),
{
    if v.len() == 0 || text_less(x, v[0]) {
        0
    } else {
        1 + rank(v.skip(1), x)
    }
}

/// A list with one text more, behind those that come before it or are it.
pub open spec fn placed(v: Seq<Seq<char>>, x: Seq<char>) -> Seq<Seq<char>> {
    v.insert(rank(v, x), x)
}

/// The texts of a list in dictionary order.
pub open spec fn in_order(v: Seq<Seq<char>>) -> Seq<Seq<char>>
    decreases v.len(),
{
    if v.len() == 0 {
        Seq::empty()
    } else {
        placed(in_order(v.drop_last()), v.last())
    }
}

/// No text of a list comes before an earlier one.
pub open spec fn ordered(v: Seq<Seq<char>>) -> bool {
    forall|i: int, j: int| 0 <= i < j < v.len() ==> !text_less(#[trigger] v[j], #[trigger] v[i])
}

pub proof fn lemma_rank(v: Seq<Seq<char>>, x: Seq<char>)
    ensures
        0 <= rank(v, x) <= v.len(),
        forall|i: int| 0 <= i < rank(v, x) ==> !text_less(x, #[trigger] v[i]),
        rank(v, x) < v.len() ==> text_less(x, v[rank(v, x)]),
    decreases v.len(),
{
    if v.len() > 0 && !text_less(x, v[0]) {
        lemma_rank(v.skip(1), x);
        assert forall|i: int| 0 <= i < rank(v, x) implies !text_less(x, #[trigger] v[i]) by {
            if i > 0 {
                assert(v.skip(1)[i - 1] == v[i]);
            }
        }
    }
}

/// Sorting keeps every text and puts them in order.
pub proof fn sorting_only_reorders(v: Seq<Seq<char>>)
    ensures
        in_order(v).to_multiset() == v.to_multiset(),
        in_order(v).len() == v.len(),
        ordered(in_order(v)),
    decreases v.len(),
{
    broadcast use vstd::seq_lib::group_to_multiset_ensures;

    if v.len() > 0 {
        let rest = in_order(v.drop_last());
        let x = v.last();
        let k = rank(rest, x);
        sorting_only_reorders(v.drop_last());
        lemma_rank(rest, x);
        let out = placed(rest, x);
        assert(v =~= v.drop_last().push(x));
        assert(out.remove(k) =~= rest);
        assert(out[k] == x);
        assert(out.to_multiset().remove(x) =~= rest.to_multiset());
        assert(out.contains(x));
        assert(out.to_multiset() =~= rest.to_multiset().insert(x));
        assert forall|i: int, j: int| 0 <= i < j < out.len() implies !text_less(
            #[trigger] out[j],
            #[trigger] out[i],
        ) by {
            if j < k {
                assert(out[i] == rest[i] && out[j] == rest[j]);
            } else if j == k {
                assert(out[i] == rest[i]);
            } else if i == k {
                assert(out[j] == rest[j - 1]);
                if text_less(rest[j - 1], x) {
                    lemma_less_total(rest[k], rest[j - 1]);
                    lemma_less_transitive(rest[j - 1], x, rest[k]);
                    if j - 1 == k {
                        lemma_less_irreflexive(rest[k]);
                    }
                }
            } else if i < k {
                assert(out[i] == rest[i] && out[j] == rest[j - 1]);
            } else {
                assert(out[i] == rest[i - 1] && out[j] == rest[j - 1]);
            }
        }
    } else {
        assert(in_order(v) =~= v);
    }
}

/// The texts of a list in dictionary order.
pub fn sort_texts(v: &[String]) -> (out: Vec<String>)
    ensures
        views(out@) == in_order(views(v@)),
{
    let ghost all = views(v@);
    let mut out: Vec<String> = Vec::new();
    let mut i: usize = 0;
    assert(views(out@) =~= in_order(all.take(0)));
    while i < v.len()
        invariant
            i <= v@.len(),
            all == views(v@),
            views(out@) == in_order(all.take(i as int)),
        decreases v@.len() - i,
    {
        let x = &v[i];
        let ghost before = views(out@);
        let mut k: usize = 0;
        assert(before.skip(0) =~= before);
        while k < out.len() && !less(x, &out[k])
            invariant
                k <= out@.len(),
                before == views(out@),
                rank(before, x@) == k + rank(before.skip(k as int), x@),
            decreases out@.len() - k,
        {
            assert(before.skip(k as int)[0] == out@[k as int]@);
            assert(before.skip(k as int).skip(1) =~= before.skip(k + 1));
            k += 1;
        }
        proof {
            if k < out@.len() {
                assert(before.skip(k as int)[0] == out@[k as int]@);
            }
            assert(rank(before, x@) == k);
        }
        out.insert(k, x.clone());
        i += 1;
        proof {
            assert(views(out@) =~= before.insert(k as int, x@));
            assert(all.take(i as int).drop_last() =~= all.take(i - 1));
            assert(all.take(i as int).last() == x@);
        }
    }
    assert(all.take(i as int) =~= all);
    out
}

/// A text with every character replaced by what `f` makes of it.
pub open spec fn each(s: Seq<char>, f: spec_fn(char) -> Seq<char>) -> Seq<char>
    decreases s.len(),
{
    if s.len() == 0 {
        Seq::empty()
    } else {
        each(s.drop_last(), f) + f(s.last())
    }
}

/// A signed decimal number, with an optional sign before it.
pub open spec fn parsed_signed(s: Seq<char>) -> Option<int> {
    if s.len() > 0 && s[0] == '-' {
        match parsed_digits(s.skip(1), i64::MAX as nat + 1) {
            Some(n) => Some(-(n as int)),
            None => None,
        }
    } else {
        match parsed_number(s, i64::MAX as nat) {
            Some(n) => Some(n as int),
            None => None,
        }
    }
}

/// Digits alone, no greater than `max`.
pub open spec fn parsed_digits(s: Seq<char>, max: nat) -> Option<nat> {
    if all_digits(s) && decimal_value(s) <= max {
        Some(decimal_value(s))
    } else {
        None
    }
}

/// A signed decimal number.
pub fn signed(s: &[char]) -> (out: Option<i64>)
    ensures
        match out {
            Some(n) => parsed_signed(s@) == Some(n as int),
            None => parsed_signed(s@) is None,
        },
{
    if s.len() > 0 && s[0] == '-' {
        let rest = string_of(s);
        let cs = chars_of(&rest);
        let tail = chars_of(&between(&cs, 1, cs.len()));
        assert(tail@ =~= s@.skip(1));
        if tail.len() > 0 && tail[0] == '+' {
            assert(!is_digit(tail@[0]));
            return None;
        }
        match number(&tail, 9_223_372_036_854_775_808) {
            Some(n) => {
                if n == 9_223_372_036_854_775_808 {
                    Some(i64::MIN)
                } else {
                    Some(-(n as i64))
                }
            },
            None => None,
        }
    } else {
        match number(s, 9_223_372_036_854_775_807) {
            Some(n) => Some(n as i64),
            None => None,
        }
    }
}

// ---------------------------------------------------------------------------
// The last occurrence
// ---------------------------------------------------------------------------

/// The greatest index under `n` at which `s` holds `part`.
pub open spec fn last_text(s: Seq<char>, part: Seq<char>, n: int) -> Option<int>
    decreases n,
{
    if n <= 0 {
        None
    } else if occurs_at(s, part, n - 1) {
        Some(n - 1)
    } else {
        last_text(s, part, n - 1)
    }
}

/// What stands before and after the last occurrence of `part`, where there is one.
pub open spec fn split_at_last(s: Seq<char>, part: Seq<char>) -> Option<(Seq<char>, Seq<char>)> {
    match last_text(s, part, s.len() as int) {
        Some(at) => Some((s.take(at), s.skip(at + part.len()))),
        None => None,
    }
}

pub proof fn lemma_last_text(s: Seq<char>, part: Seq<char>, n: int)
    ensures
        last_text(s, part, n) matches Some(at) ==> 0 <= at < n && occurs_at(s, part, at),
    decreases n,
{
    if n > 0 && !occurs_at(s, part, n - 1) {
        lemma_last_text(s, part, n - 1);
    }
}

/// Splits at the last occurrence of `part`.
pub fn rsplit_once_text(s: &str, part: &str) -> (out: Option<(String, String)>)
    requires
        part@.len() > 0,
    ensures
        match out {
            Some((a, b)) => split_at_last(s@, part@) == Some((a@, b@)),
            None => split_at_last(s@, part@) is None,
        },
{
    let cs = chars_of(s);
    let ps = chars_of(part);
    let n: usize = cs.len();
    let mut i: usize = n;
    while i > 0
        invariant
            i <= n == cs@.len(),
            cs@ == s@,
            ps@ == part@,
            last_text(s@, part@, n as int) == last_text(s@, part@, i as int),
        decreases i,
    {
        if stands_at(&cs, &ps, i - 1) {
            let at: usize = i - 1;
            let len: usize = ps.len();
            assert(at + len <= n);
            let before = between(&cs, 0, at);
            let after = between(&cs, at + len, n);
            assert(before@ =~= s@.take(at as int));
            assert(after@ =~= s@.skip(at + part@.len()));
            return Some((before, after));
        }
        i -= 1;
    }
    None
}

/// Whether every character satisfies a test.
pub open spec fn all_chars(s: Seq<char>, good: spec_fn(char) -> bool) -> bool {
    forall|i: int| 0 <= i < s.len() ==> good(#[trigger] s[i])
}

/// Dictionary order is decided by the first place at which two texts differ, and where there is
/// none, by which ends first.
pub proof fn the_first_difference_decides(a: Seq<char>, b: Seq<char>, at: int)
    requires
        0 <= at <= a.len(),
        at <= b.len(),
        a.take(at) == b.take(at),
    ensures
        at == a.len() ==> text_less(a, b) == (at < b.len()),
        at == b.len() ==> !text_less(a, b),
        at < a.len() && at < b.len() && a[at] != b[at] ==> text_less(a, b) == (a[at] < b[at]),
    decreases at,
{
    if at > 0 {
        assert(a.take(at)[0] == a[0] && b.take(at)[0] == b[0]);
        let x = a.skip(1);
        let y = b.skip(1);
        assert(x.take(at - 1) =~= a.take(at).skip(1));
        assert(y.take(at - 1) =~= b.take(at).skip(1));
        the_first_difference_decides(x, y, at - 1);
        if at < a.len() {
            assert(x[at - 1] == a[at]);
        }
        if at < b.len() {
            assert(y[at - 1] == b[at]);
        }
    }
}

/// A text is parted at the first place where another stands in it, and is left whole only where it
/// stands nowhere.
pub proof fn a_text_parts_at_the_first_place(s: Seq<char>, part: Seq<char>)
    requires
        part.len() > 0,
    ensures
        split_at_text(s, part) is Some <==> contains_text(s, part),
        split_at_text(s, part) matches Some((a, b)) ==> s == a + part + b && forall|i: int|
            0 <= i < a.len() ==> !occurs_at(s, part, i),
    decreases s.len(),
{
    let at = text_position(s, part);
    if occurs_at(s, part, 0) {
        assert(s =~= s.take(0) + part + s.skip(part.len() as int)) by {
            assert(s.subrange(0, part.len() as int) == part);
        }
    } else if s.len() > 0 {
        let rest = s.skip(1);
        a_text_parts_at_the_first_place(rest, part);
        lemma_later(s, part);
        if let Some((a, b)) = split_at_text(rest, part) {
            let k = text_position(rest, part);
            assert(occurs_at(s, part, k + 1));
            assert(at == k + 1);
            assert(s.subrange(at, at + part.len()) == part);
            assert(s =~= s.take(at) + part + s.skip(at + part.len()));
            assert forall|i: int| 0 <= i < at implies !occurs_at(s, part, i) by {
                if i > 0 {
                    assert(!occurs_at(rest, part, i - 1));
                    assert(occurs_at(s, part, (i - 1) + 1) == occurs_at(rest, part, i - 1));
                }
            }
        } else {
            assert(!contains_text(s, part)) by {
                if contains_text(s, part) {
                    let i = choose|i: int| occurs_at(s, part, i);
                    assert(i > 0);
                    assert(occurs_at(s, part, (i - 1) + 1) == occurs_at(rest, part, i - 1));
                    assert(contains_text(rest, part));
                }
            }
            let k = text_position(rest, part);
            assert(!occurs_at(rest, part, k));
            lemma_position_inside(rest, part);
            assert(occurs_at(s, part, k + 1) == occurs_at(rest, part, k));
        }
    } else {
        assert(!contains_text(s, part)) by {
            if contains_text(s, part) {
                let i = choose|i: int| occurs_at(s, part, i);
                assert(i + part.len() <= 0);
            }
        }
    }
}

proof fn lemma_later(s: Seq<char>, part: Seq<char>)
    requires
        s.len() > 0,
    ensures
        forall|k: int| 0 <= k ==> #[trigger] occurs_at(s, part, k + 1) == occurs_at(s.skip(1), part, k),
{
    let rest = s.skip(1);
    assert forall|k: int| 0 <= k implies #[trigger] occurs_at(s, part, k + 1) == occurs_at(
        rest,
        part,
        k,
    ) by {
        if k + 1 + part.len() <= s.len() {
            assert(s.subrange(k + 1, k + 1 + part.len()) =~= rest.subrange(k, k + part.len()));
        }
    }
}

proof fn lemma_position_inside(s: Seq<char>, part: Seq<char>)
    ensures
        0 <= text_position(s, part) <= s.len(),
    decreases s.len(),
{
    if !(occurs_at(s, part, 0) || s.len() == 0) {
        lemma_position_inside(s.skip(1), part);
    }
}

/// A padded text is the text itself and spaces, as wide as was asked for or as it was already.
pub proof fn padding_is_spaces(s: Seq<char>, width: nat)
    ensures
        s.is_prefix_of(padded_right(s, width)),
        s.is_suffix_of(padded_left(s, width)),
        padded_right(s, width).len() == if s.len() < width {
            width
        } else {
            s.len()
        },
        padded_left(s, width).len() == padded_right(s, width).len(),
        forall|i: int|
            s.len() <= i < padded_right(s, width).len() ==> #[trigger] padded_right(s, width)[i]
                == ' ',
        forall|i: int|
            0 <= i < padded_left(s, width).len() - s.len() ==> #[trigger] padded_left(s, width)[i]
                == ' ',
{
    let right = padded_right(s, width);
    let left = padded_left(s, width);
    assert(s =~= right.subrange(0, s.len() as int));
    assert(s =~= left.subrange(left.len() - s.len(), left.len() as int));
}

/// Only the capitals of English become small, and each its own.
pub proof fn lowering_is_for_capitals(c: char)
    ensures
        'A' <= c && c <= 'Z' ==> 'a' <= ascii_lower(c) && ascii_lower(c) <= 'z' && ascii_lower(
            c,
        ) as int - c as int == 'a' as int - 'A' as int,
        !('A' <= c && c <= 'Z') ==> ascii_lower(c) == c,
{
}

} // verus!
