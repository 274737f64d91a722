//! The three wire formats, named for what consumes them.
//!
//! Each is a distinct encoding and using one where another belongs corrupts a backup
//! at exit 0. `git hash-object --stdin-paths` has no `-z`, so a newline in a filename
//! splits one path into two; `git update-index -z --index-info` takes raw bytes, and
//! without `-z` a path starting with `"` is silently dequoted.

use crate::text;
use crate::octets::{ends_with, extend};
use crate::primitives::oid::Oid;
use vstd::prelude::*;
use vstd::string::*;
use vstd::utf8::*;

verus! {

/// A tree entry's mode. Layer 1 classifies `st_mode` and maps into this.
#[derive(Clone, Copy, Debug, PartialEq, Eq, Structural)]
pub enum FileMode {
    Regular,
    Executable,
    Symlink,
}

impl FileMode {
    pub open spec fn digits(self) -> Seq<char> {
        match self {
            FileMode::Regular => "100644"@,
            FileMode::Executable => "100755"@,
            FileMode::Symlink => "120000"@,
        }
    }

    #[must_use]
    pub fn as_str(self) -> (out: &'static str)
        ensures
            out@ == self.digits(),
    {
        match self {
            FileMode::Regular => "100644",
            FileMode::Executable => "100755",
            FileMode::Symlink => "120000",
        }
    }
}

/// The bytes of `.lock`.
pub open spec fn lock_suffix() -> Seq<u8> {
    seq![46u8, 108, 111, 99, 107]
}

/// Whether a byte may stand in a refname component as itself: `[A-Za-z0-9._-]`.
pub open spec fn unreserved(b: u8) -> bool {
    ||| 48 <= b <= 57
    ||| 65 <= b <= 90
    ||| 97 <= b <= 122
    ||| b == 46
    ||| b == 95
    ||| b == 45
}

/// An upper-case hexadecimal digit.
pub open spec fn hex_upper(n: u8) -> char {
    if n < 10 {
        (48 + n) as char
    } else {
        (55 + n) as char
    }
}

/// The value of a hexadecimal digit in either case.
pub open spec fn hex_value(b: u8) -> Option<u8> {
    if 48 <= b <= 57 {
        Some((b - 48) as u8)
    } else if 97 <= b <= 102 {
        Some((b - 87) as u8)
    } else if 65 <= b <= 70 {
        Some((b - 55) as u8)
    } else {
        None
    }
}

/// Whether the byte at `i` has to be escaped: it is outside the unreserved set, or it is the
/// dot of a leading `.` or of a trailing `.lock`.
pub open spec fn escaped(raw: Seq<u8>, i: int) -> bool {
    ||| !unreserved(raw[i])
    ||| i == 0 && raw[i] == 46
    ||| text::has_suffix(raw, lock_suffix()) && i == raw.len() - 5
}

/// How the byte at `i` is written.
pub open spec fn percent_piece(raw: Seq<u8>, i: int) -> Seq<char> {
    if escaped(raw, i) {
        seq!['%', hex_upper(raw[i] / 16), hex_upper(raw[i] % 16)]
    } else {
        seq![raw[i] as char]
    }
}

/// The first `n` bytes percent-encoded.
pub open spec fn percent_encoded_to(raw: Seq<u8>, n: int) -> Seq<char>
    decreases n,
{
    if n <= 0 {
        Seq::empty()
    } else {
        percent_encoded_to(raw, n - 1) + percent_piece(raw, n - 1)
    }
}

/// A byte string as one component of a refname.
pub open spec fn percent_encoded(raw: Seq<u8>) -> Seq<char> {
    percent_encoded_to(raw, raw.len() as int)
}

/// The bytes that a percent-encoded byte string stands for, where every `%` is followed by two
/// hexadecimal digits.
pub open spec fn percent_decoded(b: Seq<u8>) -> Option<Seq<u8>>
    decreases b.len(),
{
    if b.len() == 0 {
        Some(Seq::empty())
    } else if b[0] != 37 {
        match percent_decoded(b.skip(1)) {
            Some(rest) => Some(seq![b[0]] + rest),
            None => None,
        }
    } else if b.len() < 3 || hex_value(b[1]) is None || hex_value(b[2]) is None {
        None
    } else {
        match percent_decoded(b.skip(3)) {
            Some(rest) => Some(seq![(hex_value(b[1])->0 * 16 + hex_value(b[2])->0) as u8] + rest),
            None => None,
        }
    }
}

fn is_unreserved(b: u8) -> (out: bool)
    ensures
        out == unreserved(b),
{
    (48 <= b && b <= 57) || (65 <= b && b <= 90) || (97 <= b && b <= 122) || b == 46 || b == 95
        || b == 45
}

fn upper_digit(n: u8) -> (out: char)
    requires
        n < 16,
    ensures
        out == hex_upper(n),
{
    let code: u8 = if n < 10 {
        48 + n
    } else {
        55 + n
    };
    code as char
}

/// Percent-encodes one component of a refname.
///
/// Every byte outside `[A-Za-z0-9._-]` becomes `%XX`, `%` included. A leading `.`
/// and the dot of a trailing `.lock` are encoded too: both are legal bytes in
/// positions git rejects.
#[must_use]
pub fn percent_component(raw: &[u8]) -> (out: String)
    ensures
        out@ == percent_encoded(raw@),
{
    let suffix: Vec<u8> = vec![46, 108, 111, 99, 107];
    assert(suffix@ =~= lock_suffix());
    let locked = ends_with(raw, &suffix);
    let mut out = String::new();
    let mut i: usize = 0;
    while i < raw.len()
        invariant
            i <= raw@.len(),
            locked == text::has_suffix(raw@, lock_suffix()),
            out@ == percent_encoded_to(raw@, i as int),
        decreases raw@.len() - i,
    {
        let byte = raw[i];
        let forced = (i == 0 && byte == 46) || (locked && i == raw.len() - 5);
        let ghost before = out@;
        if is_unreserved(byte) && !forced {
            out.push(byte as char);
            assert(out@ =~= before + percent_piece(raw@, i as int));
        } else {
            out.push('%');
            out.push(upper_digit(byte / 16));
            out.push(upper_digit(byte % 16));
            assert(out@ =~= before + percent_piece(raw@, i as int));
        }
        i += 1;
    }
    out
}

/// The value of a hexadecimal digit in either case.
pub fn unhex(byte: u8) -> (out: Option<u8>)
    ensures
        out == hex_value(byte),
{
    if 48 <= byte && byte <= 57 {
        Some(byte - 48)
    } else if 97 <= byte && byte <= 102 {
        Some(byte - 87)
    } else if 65 <= byte && byte <= 70 {
        Some(byte - 55)
    } else {
        None
    }
}

/// Reverses [`percent_component`]. `None` when a `%` is not followed by two hex
/// digits.
#[must_use]
pub fn percent_decode(text: &str) -> (out: Option<Vec<u8>>)
    ensures
        match out {
            Some(v) => percent_decoded(encode_utf8(text@)) == Some(v@),
            None => percent_decoded(encode_utf8(text@)) is None,
        },
{
    let raw = text.as_bytes();
    let len: usize = raw.len();
    let mut out: Vec<u8> = Vec::new();
    let mut index: usize = 0;
    proof {
        assert(raw@.skip(0) =~= raw@);
        match percent_decoded(raw@) {
            Some(rest) => {
                assert(out@ + rest =~= rest);
            },
            None => {},
        }
    }
    while index < raw.len()
        invariant
            index <= raw@.len() == len,
            raw@ == encode_utf8(text@),
            percent_decoded(raw@) == (match percent_decoded(raw@.skip(index as int)) {
                Some(rest) => Some(out@ + rest),
                None => None,
            }),
        decreases raw@.len() - index,
    {
        let ghost here = raw@.skip(index as int);
        let ghost before = out@;
        if raw[index] == 37 {
            if raw.len() - index < 3 {
                return None;
            }
            assert(here[1] == raw@[index + 1] && here[2] == raw@[index + 2]);
            let high = unhex(raw[index + 1]);
            let low = unhex(raw[index + 2]);
            match (high, low) {
                (Some(high), Some(low)) => {
                    out.push(high * 16 + low);
                    assert(here.skip(3) =~= raw@.skip(index + 3));
                    index += 3;
                },
                _ => {
                    return None;
                },
            }
        } else {
            out.push(raw[index]);
            assert(here.skip(1) =~= raw@.skip(index + 1));
            index += 1;
        }
        proof {
            match percent_decoded(raw@.skip(index as int)) {
                Some(rest) => {
                    assert(before + (seq![out@.last()] + rest) =~= out@ + rest);
                },
                None => {},
            }
        }
    }
    proof {
        assert(out@ + Seq::<u8>::empty() =~= out@);
    }
    Some(out)
}

/// A byte in git's C-quoted form.
pub open spec fn c_quoted(b: u8) -> Seq<u8> {
    if b == 7 {
        seq![92u8, 97]
    } else if b == 8 {
        seq![92u8, 98]
    } else if b == 9 {
        seq![92u8, 116]
    } else if b == 10 {
        seq![92u8, 110]
    } else if b == 11 {
        seq![92u8, 118]
    } else if b == 12 {
        seq![92u8, 102]
    } else if b == 13 {
        seq![92u8, 114]
    } else if b == 34 || b == 92 {
        seq![92u8, b]
    } else if 32 <= b <= 126 {
        seq![b]
    } else {
        seq![92u8, (48 + b / 64) as u8, (48 + b / 8 % 8) as u8, (48 + b % 8) as u8]
    }
}

/// Whether a byte may stand in a line of paths as itself.
pub open spec fn plain_byte(b: u8) -> bool {
    32 <= b <= 126 && b != 34 && b != 92
}

/// The bytes C-quoted one after another.
pub open spec fn c_quoted_all(raw: Seq<u8>) -> Seq<u8>
    decreases raw.len(),
{
    if raw.len() == 0 {
        Seq::empty()
    } else {
        c_quoted_all(raw.drop_last()) + c_quoted(raw.last())
    }
}

/// A path as one line for `git hash-object --stdin-paths`.
pub open spec fn paths_line(raw: Seq<u8>) -> Seq<u8> {
    if forall|i: int| 0 <= i < raw.len() ==> plain_byte(#[trigger] raw[i]) {
        raw.push(10)
    } else {
        (seq![34u8] + c_quoted_all(raw)).push(34).push(10)
    }
}

fn all_plain(raw: &[u8]) -> (out: bool)
    ensures
        out == forall|i: int| 0 <= i < raw@.len() ==> plain_byte(#[trigger] raw@[i]),
{
    let mut i: usize = 0;
    while i < raw.len()
        invariant
            i <= raw@.len(),
            forall|j: int| 0 <= j < i ==> plain_byte(#[trigger] raw@[j]),
        decreases raw@.len() - i,
    {
        let b = raw[i];
        if !(32 <= b && b <= 126 && b != 34 && b != 92) {
            assert(!plain_byte(raw@[i as int]));
            return false;
        }
        i += 1;
    }
    true
}

fn push_c_quoted(line: &mut Vec<u8>, b: u8)
    ensures
        final(line)@ == old(line)@ + c_quoted(b),
{
    if b == 34 || b == 92 {
        line.push(92);
        line.push(b);
    } else if 32 <= b && b <= 126 {
        line.push(b);
    } else if b == 7 {
        line.push(92);
        line.push(97);
    } else if b == 8 {
        line.push(92);
        line.push(98);
    } else if b == 9 {
        line.push(92);
        line.push(116);
    } else if b == 10 {
        line.push(92);
        line.push(110);
    } else if b == 11 {
        line.push(92);
        line.push(118);
    } else if b == 12 {
        line.push(92);
        line.push(102);
    } else if b == 13 {
        line.push(92);
        line.push(114);
    } else {
        line.push(92);
        line.push(48 + b / 64);
        line.push(48 + b / 8 % 8);
        line.push(48 + b % 8);
    }
    assert(line@ =~= old(line)@ + c_quoted(b));
}

/// One line for `git hash-object --stdin-paths`, newline included.
///
/// Emitted raw when every byte is printable ASCII other than `"` and `\`, and in
/// git's C-quoted form otherwise. Git unquotes a line only when it begins with `"`,
/// and reads lines with `strbuf_getline`, which strips a trailing `\r` - so a path
/// beginning with a quote or ending in a carriage return must be quoted even though
/// neither byte is itself unprintable.
#[must_use]
pub fn stdin_paths_line(path: &[u8]) -> (out: Vec<u8>)
    ensures
        out@ == paths_line(path@),
{
    let mut line: Vec<u8> = Vec::new();
    if all_plain(path) {
        extend(&mut line, path);
        line.push(10);
        assert(line@ =~= path@.push(10));
        return line;
    }
    line.push(34);
    let mut i: usize = 0;
    assert(line@ =~= seq![34u8] + c_quoted_all(path@.take(0)));
    while i < path.len()
        invariant
            i <= path@.len(),
            line@ == seq![34u8] + c_quoted_all(path@.take(i as int)),
        decreases path@.len() - i,
    {
        let ghost before = path@.take(i as int);
        push_c_quoted(&mut line, path[i]);
        i += 1;
        proof {
            let now = path@.take(i as int);
            assert(now.drop_last() =~= before);
            assert(line@ =~= seq![34u8] + (c_quoted_all(before) + c_quoted(now.last())));
        }
    }
    assert(path@.take(i as int) =~= path@);
    line.push(34);
    line.push(10);
    line
}

/// A record for `git update-index -z --index-info`.
pub open spec fn index_record(mode: FileMode, oid: Oid, raw: Seq<u8>) -> Seq<u8> {
    (encode_utf8(mode.digits()).push(32) + encode_utf8(oid.hex()) + seq![9u8] + raw).push(0)
}

/// One record for `git update-index -z --index-info`, NUL included.
///
/// The path is raw bytes with no quoting, which is what `-z` is for.
#[must_use]
pub fn index_info_line(mode: FileMode, oid: Oid, path: &[u8]) -> (out: Vec<u8>)
    ensures
        out@ == index_record(mode, oid, path@),
{
    let mut line: Vec<u8> = Vec::new();
    extend(&mut line, mode.as_str().as_bytes());
    line.push(32);
    let shown = oid.text();
    extend(&mut line, shown.as_str().as_bytes());
    line.push(9);
    extend(&mut line, path);
    line.push(0);
    assert(line@ =~= index_record(mode, oid, path@));
    line
}

/// Whether a character may stand in a refname component that [`percent_component`] wrote.
pub open spec fn component_char(c: char) -> bool {
    c == '%' || '\0' <= c <= '\u{7f}' && unreserved(c as u8)
}

proof fn lemma_encoded_chars(raw: Seq<u8>, n: int)
    requires
        0 <= n <= raw.len(),
    ensures
        forall|i: int|
            0 <= i < percent_encoded_to(raw, n).len() ==> component_char(
                #[trigger] percent_encoded_to(raw, n)[i],
            ),
        percent_encoded_to(raw, n).len() >= n,
    decreases n,
{
    if n > 0 {
        lemma_encoded_chars(raw, n - 1);
        let before = percent_encoded_to(raw, n - 1);
        let piece = percent_piece(raw, n - 1);
        assert forall|i: int| 0 <= i < (before + piece).len() implies component_char(
            #[trigger] (before + piece)[i],
        ) by {
            if i >= before.len() {
                assert((before + piece)[i] == piece[i - before.len()]);
            }
        }
    }
}

proof fn lemma_encoded_ascii(raw: Seq<u8>, n: int)
    requires
        0 <= n <= raw.len(),
    ensures
        is_ascii_chars(percent_encoded_to(raw, n)),
{
    lemma_encoded_chars(raw, n);
    let t = percent_encoded_to(raw, n);
    assert forall|i: int| 0 <= i < t.len() implies '\0' <= #[trigger] t[i] <= '\u{7f}' by {
        assert(component_char(t[i]));
    }
}

/// Decoding a run of escapes and plain bytes piece by piece.
proof fn lemma_decode_from(raw: Seq<u8>, n: int, tail: Seq<u8>)
    requires
        0 <= n <= raw.len(),
        is_ascii_chars(percent_encoded_to(raw, n)),
    ensures
        percent_decoded(encode_utf8(percent_encoded_to(raw, n)) + tail) == (match percent_decoded(
            tail,
        ) {
            Some(rest) => Some(raw.take(n) + rest),
            None => None,
        }),
    decreases n,
{
    let text = percent_encoded_to(raw, n);
    is_ascii_chars_encode_utf8(text);
    if n == 0 {
        assert(encode_utf8(text) + tail =~= tail);
        match percent_decoded(tail) {
            Some(rest) => {
                assert(raw.take(0) + rest =~= rest);
            },
            None => {},
        }
    } else {
        let before = percent_encoded_to(raw, n - 1);
        let piece = percent_piece(raw, n - 1);
        lemma_encoded_chars(raw, n - 1);
        lemma_encoded_ascii(raw, n - 1);
        is_ascii_chars_encode_utf8(before);
        let codes = Seq::new(piece.len(), |i: int| piece[i] as u8);
        assert(encode_utf8(text) =~= encode_utf8(before) + codes);
        assert(encode_utf8(text) + tail =~= encode_utf8(before) + (codes + tail));
        lemma_decode_from(raw, n - 1, codes + tail);
        assert((codes + tail).skip(codes.len() as int) =~= tail);
        let b = raw[n - 1];
        if escaped(raw, n - 1) {
            assert(codes.len() == 3);
            assert(hex_value((codes + tail)[1]) == Some((b / 16) as u8));
            assert(hex_value((codes + tail)[2]) == Some((b % 16) as u8));
            assert(b / 16 * 16 + b % 16 == b);
        } else {
            assert((codes + tail)[0] == b);
        }
        match percent_decoded(tail) {
            Some(rest) => {
                assert(raw.take(n - 1) + (seq![b] + rest) =~= raw.take(n) + rest);
            },
            None => {},
        }
    }
}

/// Decoding gives back what was encoded, whatever the bytes.
pub proof fn percent_round_trips(raw: Seq<u8>)
    ensures
        percent_decoded(encode_utf8(percent_encoded(raw))) == Some(raw),
{
    let n = raw.len() as int;
    lemma_encoded_chars(raw, n);
    let text = percent_encoded(raw);
    lemma_encoded_ascii(raw, n);
    lemma_decode_from(raw, n, Seq::empty());
    assert(encode_utf8(text) + Seq::<u8>::empty() =~= encode_utf8(text));
    assert(raw.take(n) + Seq::<u8>::empty() =~= raw);
}

/// Two different byte strings never share an encoding.
pub proof fn percent_is_injective(a: Seq<u8>, b: Seq<u8>)
    requires
        percent_encoded(a) == percent_encoded(b),
    ensures
        a == b,
{
    percent_round_trips(a);
    percent_round_trips(b);
}

/// What is encoded is always a safe refname component: unreserved characters and `%` only,
/// never starting with a dot and never ending with `.lock`.
pub proof fn percent_is_a_safe_component(raw: Seq<u8>)
    ensures
        forall|i: int|
            0 <= i < percent_encoded(raw).len() ==> component_char(
                #[trigger] percent_encoded(raw)[i],
            ),
        percent_encoded(raw).len() > 0 ==> percent_encoded(raw)[0] != '.',
        !text::has_suffix(percent_encoded(raw), ".lock"@),
{
    let n = raw.len() as int;
    lemma_encoded_chars(raw, n);
    if n > 0 {
        lemma_first_piece(raw, n);
    }
    reveal_strlit(".lock");
    assert(".lock"@ =~= seq!['.', 'l', 'o', 'c', 'k']);
    if text::has_suffix(percent_encoded(raw), ".lock"@) {
        lemma_lock_tail(raw);
    }
}

proof fn lemma_first_piece(raw: Seq<u8>, n: int)
    requires
        0 < n <= raw.len(),
    ensures
        percent_encoded_to(raw, n).len() > 0,
        percent_encoded_to(raw, n)[0] == percent_piece(raw, 0)[0],
        percent_piece(raw, 0)[0] != '.',
    decreases n,
{
    if n > 1 {
        lemma_first_piece(raw, n - 1);
    } else {
        assert(percent_encoded_to(raw, 0) =~= Seq::<char>::empty());
        assert(percent_encoded_to(raw, 1) =~= percent_piece(raw, 0));
    }
}

/// A last character that is no hexadecimal capital or digit was written for the last byte.
proof fn lemma_last_plain(raw: Seq<u8>, n: int, c: char)
    requires
        0 <= n <= raw.len(),
        percent_encoded_to(raw, n).len() > 0,
        percent_encoded_to(raw, n).last() == c,
        97 <= c as u32 <= 122 || c == '.',
    ensures
        n > 0,
        raw[n - 1] == c as u8,
        !escaped(raw, n - 1),
        percent_encoded_to(raw, n) == percent_encoded_to(raw, n - 1).push(c),
{
    let before = percent_encoded_to(raw, n - 1);
    let piece = percent_piece(raw, n - 1);
    assert((before + piece).last() == piece.last());
    if escaped(raw, n - 1) {
        assert(piece.last() == hex_upper(raw[n - 1] % 16));
    } else {
        assert(before + piece =~= before.push(c));
    }
}

proof fn lemma_lock_tail(raw: Seq<u8>)
    requires
        text::has_suffix(percent_encoded(raw), seq!['.', 'l', 'o', 'c', 'k']),
    ensures
        raw.len() >= 5,
        text::has_suffix(raw, lock_suffix()),
        !escaped(raw, raw.len() - 5),
{
    let n = raw.len() as int;
    let t = percent_encoded(raw);
    let suffix = seq!['.', 'l', 'o', 'c', 'k'];
    let from = t.len() - 5;
    assert(t.skip(from)[4] == 'k' && t.skip(from)[3] == 'c' && t.skip(from)[2] == 'o' && t.skip(
        from,
    )[1] == 'l' && t.skip(from)[0] == '.');
    lemma_last_plain(raw, n, 'k');
    lemma_last_plain(raw, n - 1, 'c');
    lemma_last_plain(raw, n - 2, 'o');
    lemma_last_plain(raw, n - 3, 'l');
    lemma_last_plain(raw, n - 4, '.');
    assert(raw.skip(n - 5) =~= lock_suffix());
}

/// What git reads of the inside of a C-quoted line.
pub open spec fn c_unquoted(s: Seq<u8>) -> Seq<u8>
    decreases s.len(),
{
    if s.len() == 0 {
        Seq::empty()
    } else if s[0] != 92 {
        seq![s[0]] + c_unquoted(s.skip(1))
    } else if s.len() >= 4 && 48 <= s[1] <= 51 {
        seq![((s[1] - 48) * 64 + (s[2] - 48) * 8 + (s[3] - 48)) as u8] + c_unquoted(s.skip(4))
    } else if s.len() >= 2 {
        seq![escape_byte(s[1])] + c_unquoted(s.skip(2))
    } else {
        s
    }
}

/// The byte that a letter behind a backslash stands for.
pub open spec fn escape_byte(letter: u8) -> u8 {
    if letter == 97 {
        7
    } else if letter == 98 {
        8
    } else if letter == 116 {
        9
    } else if letter == 110 {
        10
    } else if letter == 118 {
        11
    } else if letter == 102 {
        12
    } else if letter == 114 {
        13
    } else {
        letter
    }
}

/// What git reads of a line of paths: a line that begins with a quote is unquoted, and any other
/// stands for itself.
pub open spec fn line_read(line: Seq<u8>) -> Seq<u8> {
    if line.len() >= 3 && line[0] == 34 {
        c_unquoted(line.subrange(1, line.len() - 2))
    } else {
        line.drop_last()
    }
}

proof fn lemma_c_byte(b: u8, rest: Seq<u8>)
    ensures
        c_unquoted(c_quoted(b) + rest) == seq![b] + c_unquoted(rest),
        forall|i: int| 0 <= i < c_quoted(b).len() ==> 32 <= #[trigger] c_quoted(b)[i] <= 126,
{
    let q = c_quoted(b);
    let s = q + rest;
    assert(s.skip(q.len() as int) =~= rest);
    assert(b / 64 * 64 + b / 8 % 8 * 8 + b % 8 == b);
}

proof fn lemma_c_front(raw: Seq<u8>)
    requires
        raw.len() > 0,
    ensures
        c_quoted_all(raw) == c_quoted(raw[0]) + c_quoted_all(raw.skip(1)),
    decreases raw.len(),
{
    if raw.len() == 1 {
        assert(raw.drop_last() =~= Seq::empty());
        assert(raw.skip(1) =~= Seq::empty());
        assert(c_quoted_all(raw) =~= c_quoted(raw[0]) + c_quoted_all(raw.skip(1)));
    } else {
        let front = raw.drop_last();
        lemma_c_front(front);
        assert(raw.skip(1).drop_last() =~= front.skip(1));
        assert(raw.skip(1).last() == raw.last());
        assert(c_quoted_all(raw) =~= c_quoted(raw[0]) + c_quoted_all(raw.skip(1)));
    }
}

proof fn lemma_c_all(raw: Seq<u8>)
    ensures
        c_unquoted(c_quoted_all(raw)) == raw,
        forall|i: int|
            0 <= i < c_quoted_all(raw).len() ==> 32 <= #[trigger] c_quoted_all(raw)[i] <= 126,
    decreases raw.len(),
{
    if raw.len() > 0 {
        let rest = raw.skip(1);
        lemma_c_front(raw);
        lemma_c_all(rest);
        let q = c_quoted(raw[0]);
        let behind = c_quoted_all(rest);
        lemma_c_byte(raw[0], behind);
        assert(seq![raw[0]] + rest =~= raw);
        assert forall|i: int| 0 <= i < (q + behind).len() implies 32 <= #[trigger] (q + behind)[i]
            <= 126 by {
            if i < q.len() {
                assert((q + behind)[i] == q[i]);
            } else {
                assert((q + behind)[i] == behind[i - q.len()]);
            }
        }
    } else {
        assert(c_quoted_all(raw) =~= raw);
    }
}

/// Git reads back the path that a line was written from, whatever its bytes.
pub proof fn a_line_reads_back(raw: Seq<u8>)
    ensures
        line_read(paths_line(raw)) == raw,
{
    let line = paths_line(raw);
    if forall|i: int| 0 <= i < raw.len() ==> plain_byte(#[trigger] raw[i]) {
        assert(line.drop_last() =~= raw);
        if raw.len() > 0 {
            assert(plain_byte(raw[0]));
        }
    } else {
        lemma_c_all(raw);
        assert(line.subrange(1, line.len() - 2) =~= c_quoted_all(raw));
    }
}

/// A path takes exactly one line, however many newlines it holds: printable bytes, and the
/// newline that ends it.
pub proof fn a_path_takes_one_line(raw: Seq<u8>)
    ensures
        paths_line(raw).last() == 10,
        forall|i: int|
            0 <= i < paths_line(raw).len() - 1 ==> 32 <= #[trigger] paths_line(raw)[i] <= 126,
{
    let line = paths_line(raw);
    lemma_c_all(raw);
    let quoted = c_quoted_all(raw);
    assert forall|i: int| 0 <= i < line.len() - 1 implies 32 <= #[trigger] line[i] <= 126 by {
        if forall|j: int| 0 <= j < raw.len() ==> plain_byte(#[trigger] raw[j]) {
            assert(line[i] == raw[i]);
            assert(plain_byte(raw[i]));
        } else if 1 <= i < line.len() - 2 {
            assert(line[i] == quoted[i - 1]);
        }
    }
}

/// A record is the mode's six digits, a space, the id's forty, a tab, the path as it stands, and a
/// NUL; a script is stored as one, and a link as a link.
pub proof fn a_record_is_laid_out(mode: FileMode, oid: Oid, raw: Seq<u8>)
    ensures
        ({
            let record = index_record(mode, oid, raw);
            let digits = match mode {
                FileMode::Regular => seq![49u8, 48, 48, 54, 52, 52],
                FileMode::Executable => seq![49u8, 48, 48, 55, 53, 53],
                FileMode::Symlink => seq![49u8, 50, 48, 48, 48, 48],
            };
            &&& record.len() == 49 + raw.len()
            &&& record.take(6) == digits
            &&& record[6] == 32
            &&& record.subrange(7, 47) == encode_utf8(oid.hex())
            &&& record[47] == 9
            &&& record.subrange(48, 48 + raw.len() as int) == raw
            &&& record.last() == 0
        }),
{
    let shown = mode.digits();
    reveal_strlit("100644");
    reveal_strlit("100755");
    reveal_strlit("120000");
    assert(is_ascii_chars(shown));
    is_ascii_chars_encode_utf8(shown);
    crate::primitives::oid::oid_round_trips(oid.0@);
    let digits = match mode {
        FileMode::Regular => seq![49u8, 48, 48, 54, 52, 52],
        FileMode::Executable => seq![49u8, 48, 48, 55, 53, 53],
        FileMode::Symlink => seq![49u8, 50, 48, 48, 48, 48],
    };
    let front = encode_utf8(shown);
    assert(front =~= digits);
    let hex = encode_utf8(oid.hex());
    assert(hex.len() == 40);
    let record = index_record(mode, oid, raw);
    assert(record.take(6) =~= digits);
    assert(record.subrange(7, 47) =~= hex);
    assert(record.subrange(48, 48 + raw.len() as int) =~= raw);
}

} // verus!
