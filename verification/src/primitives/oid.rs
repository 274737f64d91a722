//! Object ids, fixed at SHA-1 because the store pins `--object-format=sha1` and a
//! source repository whose format differs is a hard per-repo error.

use crate::text;
use crate::primitives::encode;
use crate::primitives::encode::unhex;
use crate::text::{between, cat3, chars_of, decimal};
use vstd::prelude::*;
use vstd::string::*;
use vstd::utf8::*;

verus! {

#[derive(Clone, Copy, Debug, PartialEq, Eq, PartialOrd, Ord, Hash)]
pub struct Oid(pub [u8; 20]);

#[derive(Clone, Debug, PartialEq, Eq)]
pub enum OidError {
    Length { expected: usize, actual: usize },
    NotHex { at: usize },
}

impl OidError {
    pub open spec fn message(self) -> Seq<char> {
        match self {
            OidError::Length { expected, actual } => "expected "@ + text::decimal_text(expected as nat)
                + " hex characters, got "@ + text::decimal_text(actual as nat),
            OidError::NotHex { at } => "byte "@ + text::decimal_text(at as nat)
                + " of an object id is not hex"@,
        }
    }

    pub fn text(&self) -> (out: String)
        ensures
            out@ == self.message(),
    {
        match self {
            OidError::Length { expected, actual } => {
                let want = decimal(*expected as u64);
                let got = decimal(*actual as u64);
                crate::text::cat4("expected ", &want, " hex characters, got ", &got)
            },
            OidError::NotHex { at } => {
                cat3("byte ", &decimal(*at as u64), " of an object id is not hex")
            },
        }
    }
}

/// A lower-case hexadecimal digit.
pub open spec fn hex_lower(n: u8) -> char {
    if n < 10 {
        (48 + n) as char
    } else {
        (87 + n) as char
    }
}

/// Bytes as pairs of lower-case hexadecimal digits.
pub open spec fn hex_text(bytes: Seq<u8>) -> Seq<char> {
    Seq::new(
        bytes.len() * 2,
        |i: int|
            if i % 2 == 0 {
                hex_lower(bytes[i / 2] / 16)
            } else {
                hex_lower(bytes[i / 2] % 16)
            },
    )
}

/// The index of the first byte that is no hexadecimal digit, or the length.
pub open spec fn first_not_hex(raw: Seq<u8>) -> int
    decreases raw.len(),
{
    if raw.len() == 0 {
        0
    } else if encode::hex_value(raw[0]) is None {
        0
    } else {
        1 + first_not_hex(raw.skip(1))
    }
}

/// The bytes that pairs of hexadecimal digits stand for.
pub open spec fn hex_bytes(raw: Seq<u8>) -> Seq<u8> {
    Seq::new(
        raw.len() / 2,
        |i: int| (encode::hex_value(raw[2 * i])->0 * 16 + encode::hex_value(raw[2 * i + 1])->0) as u8,
    )
}

proof fn lemma_first_not_hex(raw: Seq<u8>, at: int)
    requires
        0 <= at <= raw.len(),
        forall|i: int| 0 <= i < at ==> encode::hex_value(raw[i]) is Some,
        at < raw.len() ==> encode::hex_value(raw[at]) is None,
    ensures
        first_not_hex(raw) == at,
    decreases raw.len(),
{
    if at > 0 {
        assert(encode::hex_value(raw[0]) is Some);
        lemma_first_not_hex(raw.skip(1), at - 1);
    }
}

pub fn lower_digit(n: u8) -> (out: char)
    requires
        n < 16,
    ensures
        out == hex_lower(n),
{
    let code: u8 = if n < 10 {
        48 + n
    } else {
        87 + n
    };
    code as char
}

/// Bytes as pairs of lower-case hexadecimal digits.
pub fn hex(bytes: &[u8]) -> (out: String)
    ensures
        out@ == hex_text(bytes@),
{
    let mut out = String::new();
    let mut i: usize = 0;
    assert(out@ =~= hex_text(bytes@.take(0)));
    while i < bytes.len()
        invariant
            i <= bytes@.len(),
            out@ == hex_text(bytes@.take(i as int)),
        decreases bytes@.len() - i,
    {
        out.push(lower_digit(bytes[i] / 16));
        out.push(lower_digit(bytes[i] % 16));
        i += 1;
        assert(out@ =~= hex_text(bytes@.take(i as int)));
    }
    assert(bytes@.take(i as int) =~= bytes@);
    out
}

/// The id a text names in forty hexadecimal digits of either case, or what is wrong with it.
pub open spec fn read_oid(text: Seq<char>) -> Result<Seq<u8>, OidError> {
    let raw = encode_utf8(text);
    if raw.len() != 40 {
        Err(OidError::Length { expected: 40, actual: raw.len() as usize })
    } else if first_not_hex(raw) < 40 {
        Err(OidError::NotHex { at: first_not_hex(raw) as usize })
    } else {
        Ok(hex_bytes(raw))
    }
}

impl Oid {
    /// The forty hexadecimal digits of an id.
    pub open spec fn hex(self) -> Seq<char> {
        hex_text(self.0@)
    }

    /// Parses the 40-character lowercase or uppercase hex form.
    pub fn parse(text: &str) -> (out: Result<Oid, OidError>)
        ensures
            match out {
                Ok(oid) => read_oid(text@) == Ok::<Seq<u8>, OidError>(oid.0@),
                Err(e) => read_oid(text@) == Err::<Seq<u8>, OidError>(e),
            },
    {
        let raw = text.as_bytes();
        if raw.len() != 40 {
            return Err(OidError::Length { expected: 40, actual: raw.len() });
        }
        let mut bytes: [u8; 20] = [0u8;20];
        let mut i: usize = 0;
        while i < 20
            invariant
                i <= 20,
                raw@.len() == 40,
                raw@ == encode_utf8(text@),
                forall|j: int| 0 <= j < 2 * i ==> encode::hex_value(raw@[j]) is Some,
                forall|j: int| 0 <= j < i ==> bytes@[j] == hex_bytes(raw@)[j],
            decreases 20 - i,
        {
            let high = match unhex(raw[i * 2]) {
                Some(high) => high,
                None => {
                    proof {
                        lemma_first_not_hex(raw@, 2 * i);
                    }
                    return Err(OidError::NotHex { at: i * 2 });
                },
            };
            let low = match unhex(raw[i * 2 + 1]) {
                Some(low) => low,
                None => {
                    proof {
                        lemma_first_not_hex(raw@, 2 * i + 1);
                    }
                    return Err(OidError::NotHex { at: i * 2 + 1 });
                },
            };
            let value: u8 = high * 16 + low;
            bytes[i] = value;
            i += 1;
        }
        proof {
            lemma_first_not_hex(raw@, 40);
            assert(bytes@ =~= hex_bytes(raw@));
        }
        Ok(Oid(bytes))
    }

    #[must_use]
    pub fn from_bytes(bytes: [u8; 20]) -> (out: Oid)
        ensures
            out.0 == bytes,
    {
        Oid(bytes)
    }

    #[must_use]
    pub fn as_bytes(&self) -> (out: &[u8; 20])
        ensures
            *out == self.0,
    {
        &self.0
    }

    /// The forty digits, in lower case.
    #[must_use]
    pub fn text(&self) -> (out: String)
        ensures
            out@ == self.hex(),
    {
        hex(self.0.as_slice())
    }

    /// The abbreviated form used in rendered output.
    #[must_use]
    pub fn short(&self) -> (out: String)
        ensures
            out@ == self.hex().take(7),
    {
        let shown = chars_of(&self.text());
        between(&shown, 0, 7)
    }
}

/// Parsing what an id renders as gives back the id.
pub proof fn oid_round_trips(bytes: Seq<u8>)
    ensures
        bytes.len() == 20 ==> read_oid(hex_text(bytes)) == Ok::<Seq<u8>, OidError>(bytes),
        encode_utf8(hex_text(bytes)).len() == 2 * bytes.len(),
        first_not_hex(encode_utf8(hex_text(bytes))) == 2 * bytes.len(),
        hex_bytes(encode_utf8(hex_text(bytes))) == bytes,
{
    let shown = hex_text(bytes);
    assert(is_ascii_chars(shown));
    is_ascii_chars_encode_utf8(shown);
    let raw = encode_utf8(shown);
    assert forall|i: int| 0 <= i < raw.len() implies encode::hex_value(#[trigger] raw[i]) == Some(
        (if i % 2 == 0 {
            bytes[i / 2] / 16
        } else {
            bytes[i / 2] % 16
        }) as u8,
    ) by {
        assert(raw[i] == shown[i] as u8);
    }
    lemma_first_not_hex(raw, raw.len() as int);
    assert forall|i: int| 0 <= i < bytes.len() implies #[trigger] hex_bytes(raw)[i] == bytes[i] by {
        assert(encode::hex_value(raw[2 * i]) == Some((bytes[i] / 16) as u8));
        assert(encode::hex_value(raw[2 * i + 1]) == Some((bytes[i] % 16) as u8));
    }
    assert(hex_bytes(raw) =~= bytes);
}

/// Capitals and small letters name the same id.
pub proof fn hex_ignores_case(a: u8, b: u8)
    requires
        65 <= a <= 70,
        b == a + 32,
    ensures
        encode::hex_value(a) == encode::hex_value(b),
{
}

} // verus!
