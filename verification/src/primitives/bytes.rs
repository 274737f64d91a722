//! Layer 0. Byte counts as people read them.
//!
//! Here rather than in `cli::render` because a backup's commit message carries these too, and
//! a presentational tweak in the CLI must not change bytes already committed to history.
//!
//! The quotient shown is a binary floating-point one: a count is brought to fifty-three
//! significant bits, and so is each division by a thousand, ties going to the even neighbour.
//! All of it is done in whole numbers here, with a value held as its multiple of 2^-52.

use crate::text;
use crate::text::{cat2, cat4, decimal};
use vstd::prelude::*;

verus! {

/// One, as a multiple of 2^-52.
pub const ONE: u128 = 4_503_599_627_370_496;

/// The first value that needs more than fifty-three bits.
pub const WIDE: u128 = 9_007_199_254_740_992;

/// The whole number nearest to a quotient, the even one of two that are equally near.
pub open spec fn nearest(num: nat, den: nat) -> nat {
    let q = num / den;
    let r = num % den;
    if 2 * r < den || 2 * r == den && q % 2 == 0 {
        q
    } else {
        q + 1
    }
}

/// The distance between neighbouring values of fifty-three bits around `x`.
pub open spec fn spacing(x: nat) -> nat
    decreases x,
{
    if x < WIDE {
        1
    } else {
        2 * spacing(x / 2)
    }
}

/// A quotient brought to fifty-three significant bits.
pub open spec fn rounded(num: nat, den: nat) -> nat {
    let s = spacing(num / den);
    nearest(num, den * s) * s
}

/// A count divided by a thousand as often as it is a thousand or more, four times at most:
/// what is left, and how often.
pub open spec fn scaled(value: nat, unit: nat) -> (nat, nat)
    decreases 4 - unit,
{
    if value >= 1000 * ONE && unit < 4 {
        scaled(rounded(value, 1000), unit + 1)
    } else {
        (value, unit)
    }
}

pub open spec fn unit_word(unit: nat) -> Seq<char> {
    if unit == 0 {
        "B"@
    } else if unit == 1 {
        "KB"@
    } else if unit == 2 {
        "MB"@
    } else if unit == 3 {
        "GB"@
    } else {
        "TB"@
    }
}

/// A value in three figures: with two places where those three figures hold them, with one where
/// they hold one, and with none from there on.
pub open spec fn figures(value: nat) -> Seq<char> {
    let two = nearest(value * 100, ONE as nat);
    let one = nearest(value * 10, ONE as nat);
    if two < 1000 {
        text::decimal_text(two / 100) + "."@ + text::decimal_text(two / 10 % 10)
            + text::decimal_text(two % 10)
    } else if one < 1000 {
        text::decimal_text(one / 10) + "."@ + text::decimal_text(one % 10)
    } else {
        text::decimal_text(nearest(value, ONE as nat))
    }
}

/// A byte count as people read it. What rounds to a thousand of one unit is one of the next.
pub open spec fn size_text(bytes: nat) -> Seq<char> {
    let (value, unit) = scaled(rounded(bytes * ONE as nat, 1), 0);
    if unit == 0 {
        text::decimal_text(bytes) + " B"@
    } else if unit < 4 && nearest(value, ONE as nat) >= 1000 {
        "1.00 "@ + unit_word(unit + 1)
    } else {
        figures(value) + " "@ + unit_word(unit)
    }
}

proof fn lemma_spacing(x: nat)
    ensures
        1 <= spacing(x),
        spacing(x) <= x || spacing(x) == 1,
    decreases x,
{
    if x >= WIDE {
        lemma_spacing(x / 2);
    }
}

/// A count under 2^53 needs no rounding.
pub proof fn lemma_small_is_exact(n: nat)
    requires
        n < WIDE,
    ensures
        rounded(n, 1) == n,
{
    assert(n / 1 == n);
    assert(spacing(n) == 1);
    let den = 1 * spacing(n / 1);
    assert(den == 1);
    assert(nearest(n, den) == n);
    assert(rounded(n, 1) == nearest(n, 1 * spacing(n / 1)) * spacing(n / 1));
    assert(n * spacing(n / 1) == n) by (nonlinear_arith)
        requires
            spacing(n / 1) == 1,
    ;
}

/// Rounding moves a quotient by less than one step.
proof fn lemma_rounded_bound(num: nat, den: nat)
    requires
        den > 0,
    ensures
        rounded(num, den) <= 2 * (num / den) + 1,
{
    let s = spacing(num / den);
    lemma_spacing(num / den);
    let q = num / (den * s);
    assert(den * s > 0) by (nonlinear_arith)
        requires
            den > 0,
            s >= 1,
    ;
    assert(q * s <= num / den) by (nonlinear_arith)
        requires
            den > 0,
            s >= 1,
            den * s > 0,
            q == num / (den * s),
    ;
    assert(nearest(num, den * s) * s <= q * s + s) by (nonlinear_arith)
        requires
            nearest(num, den * s) <= q + 1,
            s >= 1,
    ;
}

fn nearest_of(num: u128, den: u128) -> (out: u128)
    requires
        0 < den <= 0x8000_0000_0000_0000_0000_0000_0000_0000,
        num < 0x8000_0000_0000_0000_0000_0000_0000_0000,
    ensures
        out == nearest(num as nat, den as nat),
{
    let q: u128 = num / den;
    let r: u128 = num % den;
    if r < den - r || (r == den - r && q % 2 == 0) {
        q
    } else {
        q + 1
    }
}

fn spacing_of(x: u128) -> (out: u128)
    ensures
        out == spacing(x as nat),
    decreases x,
{
    if x < WIDE {
        1
    } else {
        let half: u128 = spacing_of(x / 2);
        proof {
            lemma_spacing((x / 2) as nat);
        }
        2 * half
    }
}

/// A quotient brought to fifty-three significant bits.
pub(crate) fn round_quotient(num: u128, den: u128) -> (out: u128)
    requires
        0 < den <= 1000,
        num < 0x40_0000_0000_0000_0000_0000_0000_0000,
    ensures
        out == rounded(num as nat, den as nat),
        out <= 2 * (num as nat / den as nat) + 1,
{
    let s: u128 = spacing_of(num / den);
    proof {
        lemma_spacing((num / den) as nat);
        lemma_rounded_bound(num as nat, den as nat);
        assert(num / den <= num) by (nonlinear_arith)
            requires
                den > 0,
        ;
        assert(den * s <= 0x8000_0000_0000_0000_0000_0000_0000_0000) by (nonlinear_arith)
            requires
                0 < den <= 1000,
                1 <= s,
                s <= num / den || s == 1,
                num < 0x40_0000_0000_0000_0000_0000_0000_0000,
        ;
        assert(den * s > 0) by (nonlinear_arith)
            requires
                den > 0,
                s >= 1,
        ;
    }
    let n: u128 = nearest_of(num, den * s);
    n * s
}

fn word_of(unit: u64) -> (out: &'static str)
    ensures
        out@ == unit_word(unit as nat),
{
    if unit == 0 {
        "B"
    } else if unit == 1 {
        "KB"
    } else if unit == 2 {
        "MB"
    } else if unit == 3 {
        "GB"
    } else {
        "TB"
    }
}

fn figures_of(value: u128) -> (out: String)
    requires
        value <= 0x1_0000_0000_0000_0000 * ONE,
    ensures
        out@ == figures(value as nat),
{
    let two: u128 = nearest_of(value * 100, ONE);
    if two < 1000 {
        return cat4(
            &decimal((two / 100) as u64),
            ".",
            &decimal((two / 10 % 10) as u64),
            &decimal((two % 10) as u64),
        );
    }
    let one: u128 = nearest_of(value * 10, ONE);
    if one < 1000 {
        return crate::text::cat3(&decimal((one / 10) as u64), ".", &decimal((one % 10) as u64));
    }
    wide_decimal(nearest_of(value, ONE))
}

/// A number of up to thirty-eight digits in decimal.
fn wide_decimal(n: u128) -> (out: String)
    ensures
        out@ == text::decimal_text(n as nat),
    decreases n,
{
    if n < 10 {
        decimal(n as u64)
    } else {
        let mut out = wide_decimal(n / 10);
        let last: u8 = 48 + (n % 10) as u8;
        out.push(last as char);
        out
    }
}

/// `1.19 GB`, `340 MB`, `0 B`. Three significant figures, decimal units. Past the last unit
/// there is none to go on to, and every whole figure is shown.
#[must_use]
pub fn size(bytes: u64) -> (out: String)
    ensures
        out@ == size_text(bytes as nat),
{
    let mut value: u128 = round_quotient(bytes as u128 * ONE, 1);
    let mut unit: u64 = 0;
    let ghost whole = scaled(rounded(bytes as nat * ONE as nat, 1), 0);
    proof {
        assert(value <= 2 * (bytes * ONE) + 1);
    }
    while value >= 1000 * ONE && unit < 4
        invariant
            unit <= 4,
            value < 0x20_0000_0000_0000_0000_0000_0000_0000,
            unit > 0 ==> value <= 0x1_0000_0000_0000_0000 * ONE,
            whole == scaled(value as nat, unit as nat),
        decreases 4 - unit,
    {
        value = round_quotient(value, 1000);
        unit += 1;
    }
    if unit == 0 {
        return cat2(&decimal(bytes), " B");
    }
    if unit < 4 && nearest_of(value, ONE) >= 1000 {
        return cat2("1.00 ", word_of(unit + 1));
    }
    crate::text::cat3(&figures_of(value), " ", word_of(unit))
}

// ---------------------------------------------------------------------------
// Laws
// ---------------------------------------------------------------------------

/// Three figures, with or without a point among them, of which the first is no zero.
pub open spec fn three_figures(s: Seq<char>) -> bool {
    &&& s.len() > 0 && s[0] != '0'
    &&& {
        ||| s.len() == 3 && text::is_digit(s[0]) && text::is_digit(s[1]) && text::is_digit(s[2])
        ||| s.len() == 4 && s[1] == '.' && text::is_digit(s[0]) && text::is_digit(s[2])
            && text::is_digit(s[3])
        ||| s.len() == 4 && s[2] == '.' && text::is_digit(s[0]) && text::is_digit(s[1])
            && text::is_digit(s[3])
    }
}

/// Whether a count rounds to a thousand of the last unit or more.
pub open spec fn past_the_last_unit(bytes: nat) -> bool {
    let (value, unit) = scaled(rounded(bytes * ONE as nat, 1), 0);
    unit == 4 && nearest(value, ONE as nat) >= 1000
}

proof fn lemma_spacing_is_small(x: nat)
    requires
        x >= WIDE,
    ensures
        spacing(x) <= x / 4,
    decreases x,
{
    let half = x / 2;
    assert(spacing(x) == 2 * spacing(half));
    if half >= WIDE {
        lemma_spacing_is_small(half);
    }
}

/// Rounding takes no more than a quarter off a quotient.
proof fn lemma_rounded_keeps(num: nat, den: nat)
    requires
        den > 0,
        num / den >= ONE,
    ensures
        rounded(num, den) >= ONE,
{
    let q = num / den;
    let s = spacing(q);
    lemma_spacing(q);
    assert(den * s > 0) by (nonlinear_arith)
        requires
            den > 0,
            s >= 1,
    ;
    let k = num / (den * s);
    assert(nearest(num, den * s) >= k);
    if q < WIDE {
        assert(s == 1);
        assert(den * s == den) by (nonlinear_arith)
            requires
                s == 1,
        ;
        assert(nearest(num, den * s) * s >= q) by (nonlinear_arith)
            requires
                s == 1,
                nearest(num, den * s) >= q,
        ;
    } else {
        lemma_spacing_is_small(q);
        assert(k * s + s > q) by (nonlinear_arith)
            requires
                den > 0,
                s >= 1,
                den * s > 0,
                k == num / (den * s),
                q == num / den,
        ;
        assert(nearest(num, den * s) * s >= k * s) by (nonlinear_arith)
            requires
                nearest(num, den * s) >= k,
                s >= 1,
        ;
    }
}

proof fn lemma_scaled(value: nat, unit: nat)
    requires
        unit <= 4,
        unit > 0 ==> value >= ONE,
    ensures
        scaled(value, unit).1 <= 4,
        scaled(value, unit).1 >= unit,
        scaled(value, unit).1 > 0 ==> scaled(value, unit).0 >= ONE,
        scaled(value, unit).1 < 4 ==> scaled(value, unit).0 < 1000 * ONE,
        value >= 1000 * ONE && unit < 4 ==> scaled(value, unit).1 > 0,
    decreases 4 - unit,
{
    if value >= 1000 * ONE && unit < 4 {
        assert(value / 1000 >= ONE);
        lemma_rounded_keeps(value, 1000);
        lemma_scaled(rounded(value, 1000), unit + 1);
    }
}

proof fn lemma_digits(n: nat)
    ensures
        n < 10 ==> text::decimal_text(n) == seq![text::digit(n)] && text::is_digit(text::digit(n)),
        10 <= n < 100 ==> text::decimal_text(n) == seq![text::digit(n / 10), text::digit(n % 10)],
        100 <= n < 1000 ==> text::decimal_text(n) == seq![
            text::digit(n / 100),
            text::digit(n / 10 % 10),
            text::digit(n % 10),
        ],
        text::is_digit(text::digit(n % 10)),
        1 <= n < 10 ==> text::digit(n) != '0',
{
    reveal_with_fuel(text::decimal_text, 4);
    if 10 <= n < 100 {
        assert(text::decimal_text(n) =~= seq![text::digit(n / 10), text::digit(n % 10)]);
    }
    if 100 <= n < 1000 {
        assert(n / 10 / 10 == n / 100);
        assert(text::decimal_text(n) =~= seq![
            text::digit(n / 100),
            text::digit(n / 10 % 10),
            text::digit(n % 10),
        ]);
    }
}

proof fn lemma_figures(value: nat)
    requires
        value >= ONE,
        nearest(value, ONE as nat) < 1000,
    ensures
        three_figures(figures(value)),
{
    reveal_strlit(".");
    let two = nearest(value * 100, ONE as nat);
    let one = nearest(value * 10, ONE as nat);
    let none = nearest(value, ONE as nat);
    if two < 1000 {
        assert(value * 100 / ONE as nat >= 100);
        lemma_digits(two / 100);
        lemma_digits(two / 10 % 10);
        lemma_digits(two / 10);
        lemma_digits(two % 10);
        assert(figures(value) =~= seq![
            text::digit(two / 100),
            '.',
            text::digit(two / 10 % 10),
            text::digit(two % 10),
        ]);
    } else if one < 1000 {
        assert(one >= 100);
        lemma_digits(one / 10);
        lemma_digits(one / 100);
        lemma_digits(one % 10);
        assert(one / 10 / 10 == one / 100);
        assert(figures(value) =~= seq![
            text::digit(one / 100),
            text::digit(one / 10 % 10),
            '.',
            text::digit(one % 10),
        ]);
    } else {
        assert(none >= 100);
        lemma_digits(none);
        lemma_digits(none / 100);
        lemma_digits(none / 10);
    }
}

/// A count of at least one unit is shown in exactly three figures, wherever its rounding carries
/// to. Past the last unit there is none to go on to.
pub proof fn a_size_has_three_figures(bytes: nat)
    requires
        bytes >= 1000,
        !past_the_last_unit(bytes),
    ensures
        exists|shown: Seq<char>, unit: nat|
            #[trigger] three_figures(shown) && 1 <= unit <= 4 && size_text(bytes) == shown + " "@
                + #[trigger] unit_word(unit),
{
    reveal_strlit("1.00 ");
    reveal_strlit("1.00");
    reveal_strlit(" ");
    let start = rounded(bytes * ONE as nat, 1);
    assert(start >= 1000 * ONE) by {
        lemma_start(bytes);
    }
    lemma_scaled(start, 0);
    let (value, unit) = scaled(start, 0);
    if unit < 4 && nearest(value, ONE as nat) >= 1000 {
        let shown = "1.00"@;
        assert(three_figures(shown));
        assert(size_text(bytes) =~= shown + " "@ + unit_word(unit + 1));
    } else {
        lemma_figures(value);
        assert(size_text(bytes) == figures(value) + " "@ + unit_word(unit));
    }
}

/// A count of a thousand or more stays one when it is brought to fifty-three bits.
proof fn lemma_start(bytes: nat)
    requires
        bytes >= 1000,
    ensures
        rounded(bytes * ONE as nat, 1) >= 1000 * ONE,
{
    let num = bytes * ONE as nat;
    let s = spacing(num);
    lemma_spacing(num);
    assert(num / 1 == num);
    assert(1 * s == s);
    assert(num >= 1000 * ONE) by (nonlinear_arith)
        requires
            bytes >= 1000,
            num == bytes * ONE as nat,
    ;
    let k = num / s;
    assert(nearest(num, s) >= k);
    assert(nearest(num, s) * s >= k * s) by (nonlinear_arith)
        requires
            nearest(num, s) >= k,
            s >= 1,
    ;
    if bytes < 2000 {
        reveal_with_fuel(spacing, 12);
        assert(s == 512 || s == 1024);
        let m = bytes * 4_398_046_511_104;
        assert(num == 1024 * m);
        assert(k * s == num) by (nonlinear_arith)
            requires
                num == 1024 * m,
                s == 512 || s == 1024,
                k == num / s,
        ;
    } else {
        lemma_spacing_is_small(num);
        assert(k * s + s > num) by (nonlinear_arith)
            requires
                s >= 1,
                k == num / s,
        ;
    }
}

/// A thousand, multiplied by itself.
pub open spec fn thousands(u: nat) -> nat
    decreases u,
{
    if u == 0 {
        1
    } else {
        1000 * thousands((u - 1) as nat)
    }
}

/// Two, multiplied by itself.
spec fn two(e: nat) -> nat
    decreases e,
{
    if e == 0 {
        1
    } else {
        2 * two((e - 1) as nat)
    }
}

/// The distance between neighbours around a value of fifty-three bits divides every place of it.
proof fn lemma_spacing_divides(a: nat, e: nat) -> (q: nat)
    requires
        a < WIDE,
    ensures
        q * spacing(a * two(e)) == two(e),
    decreases e,
{
    let x = a * two(e);
    if x < WIDE {
        assert(spacing(x) == 1);
        two(e)
    } else {
        assert(e > 0) by {
            if e == 0 {
                assert(x == a) by (nonlinear_arith)
                    requires
                        x == a * 1,
                ;
            }
        }
        let half = two((e - 1) as nat);
        assert(x == 2 * (a * half)) by (nonlinear_arith)
            requires
                x == a * (2 * half),
        ;
        assert(x / 2 == a * half);
        let q = lemma_spacing_divides(a, (e - 1) as nat);
        let s = spacing(a * half);
        assert(spacing(x) == 2 * s);
        assert(q * (2 * s) == 2 * half) by (nonlinear_arith)
            requires
                q * s == half,
        ;
        q
    }
}

/// A whole number of units stays one when it is brought to fifty-three bits, also once it has been
/// divided by a thousand.
proof fn lemma_whole_is_exact(j: nat)
    requires
        0 < j < WIDE,
    ensures
        rounded(j * ONE as nat, 1) == j * ONE,
        rounded(1000 * (j * ONE as nat), 1000) == j * ONE,
{
    let x = j * ONE as nat;
    assert(two(52) == ONE) by {
        reveal_with_fuel(two, 53);
    }
    let q = lemma_spacing_divides(j, 52);
    let s = spacing(x);
    lemma_spacing(x);
    assert(q * s == ONE);
    let k = j * q;
    assert(k * s == x) by (nonlinear_arith)
        requires
            k == j * q,
            q * s == ONE as nat,
            x == j * ONE as nat,
    ;
    assert(x / 1 == x && 1 * s == s);
    assert(x / s == k && x % s == 0) by (nonlinear_arith)
        requires
            k * s == x,
            s >= 1,
    ;
    assert(nearest(x, s) == k);
    assert(1000 * x / 1000 == x);
    assert((1000 * x) / (1000 * s) == k && (1000 * x) % (1000 * s) == 0) by (nonlinear_arith)
        requires
            k * s == x,
            s >= 1,
    ;
    assert(nearest(1000 * x, 1000 * s) == k);
}

proof fn lemma_scaled_whole(m: nat, u: nat, from: nat)
    requires
        0 < m < 1000,
        from + u <= 4,
        m * thousands(u) < WIDE,
    ensures
        scaled(m * thousands(u) * ONE as nat, from) == (m * ONE as nat, from + u),
    decreases u,
{
    let j = m * thousands(u);
    if u == 0 {
        assert(j == m) by (nonlinear_arith)
            requires
                j == m * 1,
        ;
        assert(m * ONE < 1000 * ONE) by (nonlinear_arith)
            requires
                m < 1000,
                ONE > 0,
        ;
    } else {
        let less = thousands((u - 1) as nat);
        let i = m * less;
        assert(less >= 1) by {
            lemma_thousands((u - 1) as nat);
        }
        assert(j == 1000 * i) by (nonlinear_arith)
            requires
                j == m * (1000 * less),
                i == m * less,
        ;
        assert(i >= 1) by (nonlinear_arith)
            requires
                i == m * less,
                m >= 1,
                less >= 1,
        ;
        let value = j * ONE as nat;
        assert(value == 1000 * (i * ONE as nat)) by (nonlinear_arith)
            requires
                value == j * ONE as nat,
                j == 1000 * i,
        ;
        assert(i * ONE >= ONE) by (nonlinear_arith)
            requires
                i >= 1,
        ;
        lemma_whole_is_exact(i);
        lemma_scaled_whole(m, (u - 1) as nat, from + 1);
    }
}

proof fn lemma_thousands(u: nat)
    ensures
        thousands(u) >= 1,
    decreases u,
{
    if u > 0 {
        lemma_thousands((u - 1) as nat);
    }
}

proof fn lemma_nearest_whole(a: nat, den: nat)
    requires
        den > 0,
    ensures
        nearest(a * den, den) == a,
{
    assert((a * den) / den == a && (a * den) % den == 0) by (nonlinear_arith)
        requires
            den > 0,
    ;
}

/// A whole number of units is shown as that number, in three figures, of the unit whose size is a
/// thousand as often as the unit is far from the byte; under a thousand bytes it is the bytes.
pub proof fn whole_sizes_are_exact(m: nat, u: nat)
    requires
        0 < m < 1000,
        u <= 4,
    ensures
        size_text(m * thousands(u)) == if u == 0 {
            text::decimal_text(m) + " B"@
        } else {
            (if m < 10 {
                text::decimal_text(m) + ".00"@
            } else if m < 100 {
                text::decimal_text(m) + ".0"@
            } else {
                text::decimal_text(m)
            }) + " "@ + seq!["KB"@, "MB"@, "GB"@, "TB"@][u - 1]
        },
{
    reveal_with_fuel(thousands, 6);
    let bytes = m * thousands(u);
    assert(0 < bytes < WIDE) by (nonlinear_arith)
        requires
            0 < m < 1000,
            bytes == m * thousands(u),
            1 <= thousands(u) <= 1_000_000_000_000,
            WIDE == 9_007_199_254_740_992,
    ;
    lemma_whole_is_exact(bytes);
    lemma_scaled_whole(m, u, 0);
    if u == 0 {
        assert(bytes == m) by (nonlinear_arith)
            requires
                bytes == m * 1,
        ;
    }
    let one = ONE as nat;
    assert(scaled(rounded(bytes * one, 1), 0) == (m * one, u));
    if u > 0 {
        let value = m * one;
        assert(value * 100 == (m * 100) * one && value * 10 == (m * 10) * one) by (nonlinear_arith)
            requires
                value == m * one,
        ;
        lemma_nearest_whole(m, one);
        lemma_nearest_whole(m * 100, one);
        lemma_nearest_whole(m * 10, one);
        reveal_strlit(".");
        reveal_strlit(".0");
        reveal_strlit(".00");
        assert(m * 100 / 100 == m && m * 100 / 10 % 10 == 0 && m * 100 % 10 == 0);
        assert(m * 10 / 10 == m && m * 10 % 10 == 0);
        assert(text::decimal_text(0) =~= seq!['0']);
        if m < 10 {
            assert(figures(value) =~= text::decimal_text(m) + ".00"@);
        } else if m < 100 {
            assert(figures(value) =~= text::decimal_text(m) + ".0"@);
        }
    }
}

} // verus!
