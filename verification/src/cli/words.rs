//! The words and columns that every report is put together from.

use crate::config::schedule;
use crate::config::schedule::Schedule;
use crate::store::Summary;
use crate::text;
use crate::text::{
    between, cat2, cat3, cat4, chars_of, decimal, join_text, strip_prefix, strip_suffix,
};
use vstd::prelude::*;

verus! {

/// Total width, which fits an eighty-column terminal.
pub const WIDTH: usize = 74;

/// Three digits of a number under a thousand.
pub open spec fn three_digits(n: nat) -> Seq<char> {
    seq![text::digit(n / 100), text::digit(n / 10 % 10), text::digit(n % 10)]
}

/// A number in decimal, with a comma before every three digits from the right.
pub open spec fn grouped(n: nat) -> Seq<char>
    decreases n,
{
    if n < 1000 {
        text::decimal_text(n)
    } else {
        grouped(n / 1000) + ","@ + three_digits(n % 1000)
    }
}

fn padded_three(n: u64) -> (out: String)
    requires
        n < 1000,
    ensures
        out@ == three_digits(n as nat),
{
    proof {
        reveal_with_fuel(text::decimal_text, 2);
    }
    let mut out = decimal(n / 100);
    let ghost hundreds = out@;
    out.append(&decimal(n / 10 % 10));
    out.append(&decimal(n % 10));
    assert(out@ =~= three_digits(n as nat));
    out
}

fn grouped_number(n: u64) -> (out: String)
    ensures
        out@ == grouped(n as nat),
    decreases n,
{
    if n < 1000 {
        decimal(n)
    } else {
        let mut out = grouped_number(n / 1000);
        out.append(",");
        out.append(&padded_three(n % 1000));
        out
    }
}

/// `8,412`.
#[must_use]
pub fn count(value: usize) -> (out: String)
    ensures
        out@ == grouped(value as nat),
{
    grouped_number(value as u64)
}

/// What stands behind a number of things.
pub open spec fn plural_word(value: nat, word: Seq<char>) -> Seq<char> {
    if value == 1 {
        word
    } else {
        match text::without_suffix(word, "y"@) {
            Some(stem) => stem + "ies"@,
            None => word + "s"@,
        }
    }
}

pub open spec fn plural_text(value: nat, word: Seq<char>) -> Seq<char> {
    grouped(value) + " "@ + plural_word(value, word)
}

/// `1 file`, `4 files`, `1 repository`, `12 repositories`.
#[must_use]
pub fn plural(value: usize, word: &str) -> (out: String)
    ensures
        out@ == plural_text(value as nat, word@),
{
    if value == 1 {
        return cat3(&count(value), " ", word);
    }
    match strip_suffix(word, "y") {
        Some(stem) => cat3(&count(value), " ", &cat2(&stem, "ies")),
        None => cat3(&count(value), " ", &cat2(word, "s")),
    }
}

pub open spec fn fitted(s: Seq<char>, width: int) -> Seq<char> {
    if s.len() <= width {
        s
    } else {
        "~"@ + s.skip(s.len() - (width - 1))
    }
}

/// Keeps a value inside its column. A path's tail is the informative half, so an
/// over-long one loses its head rather than its name.
pub fn fit(text: &str, width: usize) -> (out: String)
    requires
        width > 0,
    ensures
        out@ == fitted(text@, width as int),
{
    let cs = chars_of(text);
    let len: usize = cs.len();
    if len <= width {
        return text.to_owned();
    }
    let from: usize = len - (width - 1);
    let kept = between(&cs, from, len);
    assert(kept@ =~= text@.skip(from as int));
    cat2("~", &kept)
}

pub open spec fn clipped(s: Seq<char>, width: int) -> Seq<char> {
    if s.len() <= width {
        s
    } else if width == 0 {
        "~"@
    } else {
        s.take(width - 1) + "~"@
    }
}

/// Keeps prose inside its column, losing the **end** rather than the start.
///
/// The opposite of [`fit`], and both are right: a path's tail is its name, while a
/// sentence's head is its subject. Truncating "available, delivery not tested" from
/// the left produced "~able, delivery not tested", which reads as a different word.
pub fn clip(text: &str, width: usize) -> (out: String)
    ensures
        out@ == clipped(text@, width as int),
{
    let cs = chars_of(text);
    if cs.len() <= width {
        return text.to_owned();
    }
    if width == 0 {
        return "~".to_owned();
    }
    let kept = between(&cs, 0, width - 1);
    assert(kept@ =~= text@.take(width - 1));
    cat2(&kept, "~")
}

pub open spec fn abbreviated(path: Seq<char>, home: Option<Seq<char>>) -> Seq<char> {
    match home {
        Some(home) => match text::without_prefix(path, home) {
            Some(rest) => "~"@ + rest,
            None => path,
        },
        None => path,
    }
}

/// Paths render with `~` rather than the home directory spelled out, which is what
/// keeps a column model possible.
pub fn abbreviate(path: &str, home: Option<&str>) -> (out: String)
    ensures
        out@ == abbreviated(path@, crate::primitives::path::view_str_opt(home)),
{
    match home {
        Some(home) => match strip_prefix(path, home) {
            Some(rest) => cat2("~", &rest),
            None => path.to_owned(),
        },
        None => path.to_owned(),
    }
}

/// Two units of a length of time.
pub open spec fn until_text(seconds: int) -> Seq<char> {
    if seconds <= 0 {
        "now"@
    } else {
        let days = (seconds / 86_400) as nat;
        let hours = (seconds % 86_400 / 3_600) as nat;
        let minutes = (seconds % 3_600 / 60) as nat;
        if days > 0 {
            text::decimal_text(days) + "d "@ + text::decimal_text(hours) + "h"@
        } else if hours > 0 {
            text::decimal_text(hours) + "h "@ + text::decimal_text(minutes) + "m"@
        } else {
            text::decimal_text(minutes) + "m"@
        }
    }
}

/// `6d 2h`, `8h 46m`, `12m`. Two units, because the third never changes a decision.
#[must_use]
pub fn until(seconds: i64) -> (out: String)
    ensures
        out@ == until_text(seconds as int),
{
    if seconds <= 0 {
        return "now".to_owned();
    }
    let all: u64 = seconds as u64;
    let days: u64 = all / 86_400;
    let hours: u64 = (all % 86_400) / 3_600;
    let minutes: u64 = (all % 3_600) / 60;
    if days > 0 {
        return cat4(&decimal(days), "d ", &decimal(hours), "h");
    }
    if hours > 0 {
        return cat4(&decimal(hours), "h ", &decimal(minutes), "m");
    }
    cat2(&decimal(minutes), "m")
}

/// How long ago or how far off a duration is, as far as a signed count of seconds goes.
pub open spec fn capped(seconds: u64) -> int {
    if seconds <= i64::MAX {
        seconds as int
    } else {
        i64::MAX as int
    }
}

/// [`until`] for a duration.
pub fn lasting(seconds: u64) -> (out: String)
    ensures
        out@ == until_text(capped(seconds)),
{
    if seconds <= 9_223_372_036_854_775_807 {
        until(seconds as i64)
    } else {
        until(9_223_372_036_854_775_807)
    }
}

pub open spec fn every_text(seconds: nat) -> Seq<char> {
    if seconds % 86_400 == 0 {
        text::decimal_text(seconds / 86_400) + "d"@
    } else if seconds % 3_600 == 0 {
        text::decimal_text(seconds / 3_600) + "h"@
    } else if seconds % 60 == 0 {
        text::decimal_text(seconds / 60) + "m"@
    } else {
        text::decimal_text(seconds) + "s"@
    }
}

pub open spec fn said(schedule: Schedule) -> Seq<char> {
    match schedule {
        Schedule::Daily { at } => "daily "@ + at.shown(),
        Schedule::Weekly { day, at } => day.word() + " "@ + at.shown(),
        Schedule::Every(every) => "every "@ + every_text(every.secs as nat),
    }
}

/// A schedule in the words the config uses for it.
#[must_use]
pub fn say(schedule: Schedule) -> (out: String)
    ensures
        out@ == said(schedule),
{
    match schedule {
        Schedule::Daily { at } => cat2("daily ", &at.text()),
        Schedule::Weekly { day, at } => cat3(day.as_str(), " ", &at.text()),
        // Compact, and in the unit the config was written in. `until`'s two-unit form
        // reads as a countdown; a schedule is a setting, so `every 1h 0m` is wrong
        // for it in a way `every 1h` is not.
        Schedule::Every(every) => {
            let seconds: u64 = every.as_secs();
            let amount = if seconds % 86_400 == 0 {
                cat2(&decimal(seconds / 86_400), "d")
            } else if seconds % 3_600 == 0 {
                cat2(&decimal(seconds / 3_600), "h")
            } else if seconds % 60 == 0 {
                cat2(&decimal(seconds / 60), "m")
            } else {
                cat2(&decimal(seconds), "s")
            };
            cat2("every ", &amount)
        },
    }
}

/// The schedule in words, or the word for none.
pub open spec fn said_or(schedule: Option<Schedule>, none: Seq<char>) -> Seq<char> {
    match schedule {
        Some(schedule) => said(schedule),
        None => none,
    }
}

pub fn say_or(schedule: Option<Schedule>, none: &str) -> (out: String)
    ensures
        out@ == said_or(schedule, none@),
{
    match schedule {
        Some(schedule) => say(schedule),
        None => none.to_owned(),
    }
}

/// One part of what a run did, where there was any of it.
pub open spec fn part(value: nat, word: Seq<char>) -> Seq<Seq<char>> {
    if value > 0 {
        seq![grouped(value) + " "@ + word]
    } else {
        Seq::empty()
    }
}

pub open spec fn counted_text(summary: Summary) -> Seq<char> {
    if summary.quiet() {
        "no changes"@
    } else {
        text::join(
            part(summary.changed as nat, "changed"@) + part(summary.added as nat, "added"@)
                + part(summary.deleted as nat, "deleted"@),
            ", "@,
        )
    }
}

fn push_part(parts: &mut Vec<String>, value: usize, word: &str)
    ensures
        text::views(final(parts)@) == text::views(old(parts)@) + part(value as nat, word@),
{
    let ghost before = text::views(parts@);
    if value > 0 {
        let one = cat3(&count(value), " ", word);
        parts.push(one);
        assert(text::views(parts@) =~= before + part(value as nat, word@));
    } else {
        assert(before =~= before + part(value as nat, word@));
    }
}

/// Only the non-zero parts, so a run that only changed files reads `2 changed`
/// rather than `2 changed, 0 added, 0 deleted`.
#[must_use]
pub fn counted(summary: &Summary) -> (out: String)
    ensures
        out@ == counted_text(*summary),
{
    if summary.is_empty() {
        return "no changes".to_owned();
    }
    let mut parts: Vec<String> = Vec::new();
    assert(text::views(parts@) =~= Seq::<Seq<char>>::empty());
    push_part(&mut parts, summary.changed, "changed");
    push_part(&mut parts, summary.added, "added");
    push_part(&mut parts, summary.deleted, "deleted");
    assert(text::views(parts@) =~= part(summary.changed as nat, "changed"@) + part(
        summary.added as nat,
        "added"@,
    ) + part(summary.deleted as nat, "deleted"@));
    join_text(&parts, ", ")
}

// ---------------------------------------------------------------------------
// Laws
// ---------------------------------------------------------------------------

/// A fitted value never leaves its column, and keeps the end of what it stands for.
pub proof fn a_fitted_value_stays_in_its_column(s: Seq<char>, width: int)
    requires
        width > 0,
    ensures
        fitted(s, width).len() <= width,
        s.len() > width ==> s.skip(s.len() - (width - 1)) == fitted(s, width).skip(1),
{
    reveal_strlit("~");
    if s.len() > width {
        assert(fitted(s, width).skip(1) =~= s.skip(s.len() - (width - 1)));
    }
}

/// Clipped prose never leaves its column, and keeps the start of what it stands for.
pub proof fn clipped_prose_stays_in_its_column(s: Seq<char>, width: int)
    requires
        width > 0,
    ensures
        clipped(s, width).len() <= width,
        s.len() > width ==> s.take(width - 1) == clipped(s, width).take(width - 1),
{
    reveal_strlit("~");
    if s.len() > width {
        assert(clipped(s, width).take(width - 1) =~= s.take(width - 1));
    }
}

/// A grouped number is the number with commas among its digits.
pub proof fn grouping_adds_only_commas(n: nat)
    ensures
        grouped(n).filter(|c: char| c != ',') == text::decimal_text(n),
        n < 1000 ==> grouped(n) == text::decimal_text(n),
        n >= 1000 ==> grouped(n).len() > 4 && grouped(n)[grouped(n).len() - 4] == ',',
    decreases n,
{
    let keeps = |c: char| c != ',';
    if n < 1000 {
        text::lemma_decimal_digits(n);
        lemma_kept_whole(text::decimal_text(n));
    } else {
        grouping_adds_only_commas(n / 1000);
        let head = grouped(n / 1000);
        let tail = three_digits(n % 1000);
        reveal_strlit(",");
        assert(","@ =~= seq![',']);
        lemma_decimal_in_thousands(n);
        lemma_kept_whole(tail);
        let comma = seq![','];
        assert(comma.drop_last() =~= Seq::<char>::empty());
        assert(comma.filter(keeps) =~= Seq::<char>::empty()) by {
            reveal(Seq::filter);
            assert(comma.drop_last().filter(keeps) =~= Seq::<char>::empty());
        }
        Seq::filter_distributes_over_add(head, comma, keeps);
        Seq::filter_distributes_over_add(head + comma, tail, keeps);
        assert(grouped(n) =~= head + comma + tail);
        assert(grouped(n).filter(keeps) =~= text::decimal_text(n));
        text::lemma_decimal_digits(n / 1000);
        assert(head.len() > 0) by {
            if head.len() == 0 {
                assert(head =~= Seq::<char>::empty());
                reveal(Seq::filter);
                assert(head.filter(keeps).len() == 0);
            }
        }
    }
}

proof fn lemma_kept_whole(s: Seq<char>)
    requires
        forall|i: int| 0 <= i < s.len() ==> text::is_digit(#[trigger] s[i]),
    ensures
        s.filter(|c: char| c != ',') == s,
    decreases s.len(),
{
    reveal(Seq::filter);
    if s.len() > 0 {
        assert(text::is_digit(s[s.len() - 1]));
        assert forall|i: int| 0 <= i < s.drop_last().len() implies text::is_digit(
            #[trigger] s.drop_last()[i],
        ) by {
            assert(s.drop_last()[i] == s[i]);
        }
        lemma_kept_whole(s.drop_last());
        assert(s.drop_last().push(s.last()) =~= s);
    } else {
        assert(s.filter(|c: char| c != ',') =~= s);
    }
}

proof fn lemma_decimal_in_thousands(n: nat)
    requires
        n >= 1000,
    ensures
        text::decimal_text(n) == text::decimal_text(n / 1000) + three_digits(n % 1000),
        forall|i: int|
            0 <= i < 3 ==> text::is_digit(#[trigger] three_digits(n % 1000)[i]),
{
    let a = n / 1000;
    let x = n / 100 % 10;
    let y = n / 10 % 10;
    let z = n % 10;
    let m = n % 1000;
    lemma_places(n);
    lemma_one_more_digit(a, x);
    lemma_one_more_digit(a * 10 + x, y);
    lemma_one_more_digit((a * 10 + x) * 10 + y, z);
    assert(three_digits(m) =~= seq![text::digit(x), text::digit(y), text::digit(z)]);
    assert(text::decimal_text(n) =~= text::decimal_text(a) + three_digits(m));
}

proof fn lemma_places(n: nat)
    requires
        n >= 1000,
    ensures
        n / 1000 > 0,
        n == ((n / 1000 * 10 + n / 100 % 10) * 10 + n / 10 % 10) * 10 + n % 10,
        n % 1000 / 100 == n / 100 % 10,
        n % 1000 / 10 % 10 == n / 10 % 10,
        n % 1000 % 10 == n % 10,
{
}

proof fn lemma_one_more_digit(head: nat, last: nat)
    requires
        head > 0,
        last < 10,
    ensures
        text::decimal_text(head * 10 + last) == text::decimal_text(head).push(text::digit(last)),
{
    let n = head * 10 + last;
    assert(n / 10 == head && n % 10 == last);
}

/// A length of time is told in its two greatest units, and what is over is dropped.
pub proof fn a_length_is_told_in_two_units(days: nat, hours: nat, minutes: nat, over: nat)
    requires
        hours < 24,
        minutes < 60,
        over < 60,
        0 < days * 86_400 + hours * 3_600 + minutes * 60 + over,
    ensures
        ({
            let shown = until_text(
                (days * 86_400 + hours * 3_600 + minutes * 60 + over) as int,
            );
            &&& days > 0 ==> shown == text::decimal_text(days) + "d "@ + text::decimal_text(hours)
                + "h"@
            &&& days == 0 && hours > 0 ==> shown == text::decimal_text(hours) + "h "@
                + text::decimal_text(minutes) + "m"@
            &&& days == 0 && hours == 0 ==> shown == text::decimal_text(minutes) + "m"@
        }),
{
    let whole = (days * 86_400 + hours * 3_600 + minutes * 60 + over) as int;
    assert(whole / 86_400 == days && whole % 86_400 == hours * 3_600 + minutes * 60 + over);
    assert(whole % 86_400 / 3_600 == hours);
    assert(whole % 3_600 == minutes * 60 + over);
}

/// An interval in words is one that can be written back: it reads as itself.
pub proof fn an_interval_in_words_reads_back(seconds: u64)
    requires
        seconds > 0,
    ensures
        schedule::interval_of(every_text(seconds as nat)) == Ok::<schedule::Duration, Seq<char>>(
            schedule::Duration { secs: seconds },
        ),
{
    let n = seconds as nat;
    reveal_strlit("d");
    reveal_strlit("h");
    reveal_strlit("m");
    reveal_strlit("s");
    assert("d"@ =~= seq!['d']);
    assert("h"@ =~= seq!['h']);
    assert("m"@ =~= seq!['m']);
    assert("s"@ =~= seq!['s']);
    if n % 86_400 == 0 {
        schedule::an_interval_counts_its_unit(n / 86_400, 'd');
        assert(n / 86_400 * 24 * 60 * 60 == n);
    } else if n % 3_600 == 0 {
        schedule::an_interval_counts_its_unit(n / 3_600, 'h');
        assert(n / 3_600 * 60 * 60 == n);
    } else if n % 60 == 0 {
        schedule::an_interval_counts_its_unit(n / 60, 'm');
    } else {
        schedule::an_interval_counts_its_unit(n, 's');
    }
}

/// A path beneath the home directory is shown from its tilde, and any other as it is.
pub proof fn a_tilde_stands_for_home(home: Seq<char>, rest: Seq<char>, other: Seq<char>)
    ensures
        abbreviated(home + rest, Some(home)) == seq!['~'] + rest,
        !home.is_prefix_of(other) ==> abbreviated(other, Some(home)) == other,
        abbreviated(other, None) == other,
{
    let whole = home + rest;
    reveal_strlit("~");
    assert("~"@ =~= seq!['~']);
    assert(whole.take(home.len() as int) =~= home);
    assert(whole.skip(home.len() as int) =~= rest);
    if text::has_prefix(other, home) {
        assert(home =~= other.subrange(0, home.len() as int));
    }
}

/// One thing is named by its word, and any other number of them in the plural.
pub proof fn only_one_is_singular(value: nat, stem: Seq<char>, word: Seq<char>)
    requires
        word.len() > 0,
        word.last() != 'y',
    ensures
        plural_word(1, word) == word,
        value != 1 ==> plural_word(value, word) == word + "s"@,
        value != 1 ==> plural_word(value, stem + "y"@) == stem + "ies"@,
{
    reveal_strlit("y");
    let s = stem + "y"@;
    assert(s.skip(s.len() - 1) =~= "y"@);
    assert(s.take(s.len() - 1) =~= stem);
    if text::has_suffix(word, "y"@) {
        assert(word.skip(word.len() - 1)[0] == 'y');
    }
}

} // verus!
