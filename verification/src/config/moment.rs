//! Moments: how long after the epoch, and the zone whose clocks show it.
//!
//! How long after the epoch a moment is stands as a number, so what is decided by elapsed time
//! is arithmetic. What a zone's clocks show is the zone's to say.

use crate::config::schedule::TimeOfDay;
use vstd::prelude::*;

verus! {

#[verifier::external_type_specification]
#[verifier::external_body]
pub struct ExTimeZone(jiff::tz::TimeZone);

#[verifier::external_type_specification]
#[verifier::external_body]
pub struct ExJiffError(jiff::Error);

/// The first nanosecond that a timestamp can hold.
pub const FIRST_NANO: i128 = -377_705_023_201_000_000_000;

/// The last nanosecond that a timestamp can hold.
pub const LAST_NANO: i128 = 253_402_207_200_999_999_999;

/// The nanoseconds in a second.
pub const PER_SECOND: i128 = 1_000_000_000;

/// The longest interval a calendar can add: the seconds in its whole range.
pub const MAX_SPAN_SECS: u64 = 631_107_417_600;

/// A moment on some clock.
#[derive(Debug)]
pub struct Moment {
    /// The nanoseconds since the epoch.
    pub nanos: i128,
    /// The zone whose clocks show it.
    pub zone: jiff::tz::TimeZone,
}

pub open spec fn in_range(nanos: int) -> bool {
    FIRST_NANO <= nanos <= LAST_NANO
}

/// The whole seconds in a number of nanoseconds, with what is left over dropped.
pub open spec fn whole_seconds(nanos: int) -> int {
    if nanos >= 0 {
        nanos / PER_SECOND as int
    } else {
        -(-nanos / PER_SECOND as int)
    }
}

/// [`whole_seconds`] of a moment that a timestamp can hold.
pub fn seconds_of(nanos: i128) -> (out: i64)
    requires
        in_range(nanos as int),
    ensures
        out == whole_seconds(nanos as int),
        -377_705_023_201 <= out <= 253_402_207_200,
{
    if nanos >= 0 {
        (nanos / PER_SECOND) as i64
    } else {
        -((-nanos / PER_SECOND) as i64)
    }
}

/// The nanoseconds in a day of 24 hours.
pub const PER_DAY: i128 = 86_400_000_000_000;

/// A clock's distance from the epoch's, in seconds.
pub open spec fn is_offset(offset: int) -> bool {
    -93_599 <= offset <= 93_599
}

/// The day, counted from the epoch's first, that a clock shows.
pub open spec fn day_at(nanos: int, offset: int) -> int {
    (nanos + offset * PER_SECOND) / PER_DAY as int
}

/// The time of day that a clock shows.
pub open spec fn time_at(nanos: int, offset: int) -> TimeOfDay {
    let minutes = (nanos + offset * PER_SECOND) % PER_DAY as int / 60_000_000_000;
    TimeOfDay { hour: (minutes / 60) as u8, minute: (minutes % 60) as u8 }
}

/// The moment at which a clock shows a time on a day.
pub open spec fn clock_nanos(day: int, at: TimeOfDay, offset: int) -> int {
    (day * 86_400 + at.hour * 3_600 + at.minute * 60 - offset) * PER_SECOND
}

/// Which day of a week that starts on Sunday a day is, counted from the epoch's first, a
/// Thursday.
pub open spec fn weekday_number(day: int) -> int {
    (day + 4) % 7
}

/// The first three letters of a weekday's English name, by its number in a week that starts on
/// Sunday.
pub open spec fn short_day(number: int) -> Seq<char> {
    if number == 0 {
        "Sun"@
    } else if number == 1 {
        "Mon"@
    } else if number == 2 {
        "Tue"@
    } else if number == 3 {
        "Wed"@
    } else if number == 4 {
        "Thu"@
    } else if number == 5 {
        "Fri"@
    } else {
        "Sat"@
    }
}

/// [`day_at`] of a moment that a timestamp can hold.
pub fn local_day(nanos: i128, offset: i32) -> (out: i64)
    requires
        in_range(nanos as int),
        is_offset(offset as int),
    ensures
        out == day_at(nanos as int, offset as int),
        -4_371_588 <= out <= 2_932_898,
{
    let shown: i128 = nanos + offset as i128 * PER_SECOND;
    if shown >= 0 {
        (shown / PER_DAY) as i64
    } else {
        -(((PER_DAY - 1 - shown) / PER_DAY) as i64)
    }
}

impl Moment {
    /// A timestamp can hold it.
    pub open spec fn wf(self) -> bool {
        in_range(self.nanos as int)
    }

    /// The whole seconds since the epoch.
    pub open spec fn second(self) -> int {
        whole_seconds(self.nanos as int)
    }

    /// The whole seconds since the epoch.
    pub fn as_second(&self) -> (out: i64)
        requires
            self.wf(),
        ensures
            out == self.second(),
            -377_705_023_201 <= out <= 253_402_207_200,
    {
        seconds_of(self.nanos)
    }
}

/// The moment it is, on this machine's clock.
pub fn now_here() -> (out: Moment)
    ensures
        out.wf(),
{
    Moment { nanos: now_nanos(), zone: system_zone() }
}

/// The moment it is, on the clock of another moment.
pub fn now_beside(other: &Moment) -> (out: Moment)
    ensures
        out.wf(),
        out.zone == other.zone,
{
    Moment { nanos: now_nanos(), zone: same_zone(&other.zone) }
}

// ---------------------------------------------------------------------------
// The clock and the calendar
// ---------------------------------------------------------------------------

/// The nanosecond since the epoch that `jiff` reads a text as, where it reads it as a timestamp.
pub uninterp spec fn nano_of(text: Seq<char>) -> Option<i128>;

/// Calls `jiff`'s `FromStr` for `Timestamp`, and `Timestamp::as_nanosecond`: which moment a text
/// names depends on the text alone, and is one that a timestamp can hold.
#[verifier::external_body]
pub(crate) fn read_nanos(text: &str) -> (out: Option<i128>)
    ensures
        out == nano_of(text@),
        out matches Some(n) ==> in_range(n as int),
{
    text.parse::<jiff::Timestamp>().ok().map(|stamp| stamp.as_nanosecond())
}

/// Calls `Timestamp::now` and `Timestamp::as_nanosecond`: a moment that a timestamp can hold.
/// Nothing else is claimed of what time it is.
#[verifier::external_body]
pub(crate) fn now_nanos() -> (out: i128)
    ensures
        in_range(out as int),
{
    jiff::Timestamp::now().as_nanosecond()
}

/// Calls `TimeZone::system`. Which zone that is, is the machine's to say.
#[verifier::external_body]
pub(crate) fn system_zone() -> (out: jiff::tz::TimeZone) {
    jiff::tz::TimeZone::system()
}

/// Calls `TimeZone::clone`: the same zone.
#[verifier::external_body]
pub(crate) fn same_zone(zone: &jiff::tz::TimeZone) -> (out: jiff::tz::TimeZone)
    ensures
        out == *zone,
{
    zone.clone()
}

/// Calls `Timestamp::from_nanosecond`, and `Timestamp::checked_add` with a span of seconds:
/// exactly that much later, unless it is past the last moment that a timestamp can hold.
#[verifier::external_body]
pub(crate) fn later_by(nanos: i128, seconds: i64) -> (out: Result<i128, jiff::Error>)
    requires
        in_range(nanos as int),
        0 <= seconds <= MAX_SPAN_SECS,
    ensures
        match out {
            Ok(later) => later == nanos + seconds * PER_SECOND && later <= LAST_NANO,
            Err(_) => nanos + seconds * PER_SECOND > LAST_NANO,
        },
{
    let from = jiff::Timestamp::from_nanosecond(nanos)?;
    from.checked_add(jiff::Span::new().seconds(seconds)).map(|later| later.as_nanosecond())
}

/// How many seconds a zone's clocks are ahead of the epoch's at some moment, by the zone's rules.
pub uninterp spec fn offset_in(zone: jiff::tz::TimeZone, nanos: int) -> int;

/// Calls `Timestamp::from_nanosecond`, `TimeZone::to_offset` and `Offset::seconds`: how far a zone's
/// clocks are ahead of the epoch's at some moment depends on the zone and the moment alone, and is
/// less than 26 hours either way.
#[verifier::external_body]
pub(crate) fn offset_at(nanos: i128, zone: &jiff::tz::TimeZone) -> (out: i32)
    requires
        in_range(nanos as int),
    ensures
        out == offset_in(*zone, nanos as int),
        is_offset(out as int),
{
    zone.to_offset(jiff::Timestamp::from_nanosecond(nanos).unwrap_or_default()).seconds()
}

/// The moment that a zone's rules take a time on a day for, in its clocks. The day is counted from
/// the epoch's first.
pub uninterp spec fn wall_nanos(zone: jiff::tz::TimeZone, day: int, hour: int, minute: int) -> int;

/// Calls `Date::checked_add` on the first day of the epoch, `Date::at`, `DateTime::to_zoned` and
/// `Timestamp::as_nanosecond`: the moment depends on the zone, the day and the time alone. It is
/// one at which a clock that is some offset ahead shows the given time on the given day: across a
/// gap or a fold in the zone's clocks that offset is the one in force before. It fails only where
/// such a moment may lie outside what a timestamp can hold.
#[verifier::external_body]
pub(crate) fn wall_clock(day: i64, at: TimeOfDay, zone: &jiff::tz::TimeZone) -> (out: Result<
    i128,
    jiff::Error,
>)
    requires
        -7_000_000 <= day <= 7_000_000,
        at.wf(),
    ensures
        match out {
            Ok(then) => {
                &&& then == wall_nanos(*zone, day as int, at.hour as int, at.minute as int)
                &&& in_range(then as int)
                &&& exists|offset: int|
                    is_offset(offset) && then == #[trigger] clock_nanos(day as int, at, offset)
            },
            Err(_) => exists|offset: int|
                is_offset(offset) && !in_range(#[trigger] clock_nanos(day as int, at, offset)),
        },
{
    let date = jiff::civil::date(1970, 1, 1).checked_add(jiff::Span::new().days(day))?;
    let then = date.at(at.hour as i8, at.minute as i8, 0, 0).to_zoned(zone.clone())?;
    Ok(then.timestamp().as_nanosecond())
}

/// The forms a moment is written in: a date, a time of day, a weekday, and a date with the time
/// to the minute or the second.
pub open spec fn is_format(format: Seq<char>) -> bool {
    ||| format == "%F"@
    ||| format == "%H:%M"@
    ||| format == "%a"@
    ||| format == "%F %H:%M UTC"@
    ||| format == "%F %H:%M:%S"@
}

/// What `jiff` writes for a moment, on a clock that is some seconds ahead of the epoch's.
pub uninterp spec fn shown_text(nanos: int, offset: int, format: Seq<char>) -> Seq<char>;

/// Calls `Offset::from_seconds`, `TimeZone::fixed`, `Timestamp::to_zoned` and `Zoned::strftime`: the
/// text depends on the moment, the offset and the format alone. A time of day is two digits of hours and two of minutes; a weekday is the first three
/// letters of its English name.
#[verifier::external_body]
pub(crate) fn clock_text(nanos: i128, offset: i32, format: &str) -> (out: String)
    requires
        in_range(nanos as int),
        is_offset(offset as int),
        is_format(format@),
    ensures
        out@ == shown_text(nanos as int, offset as int, format@),
        format@ == "%H:%M"@ ==> out@ == time_at(nanos as int, offset as int).shown(),
        format@ == "%a"@ ==> out@ == short_day(weekday_number(day_at(nanos as int, offset as int))),
{
    let stamp = jiff::Timestamp::from_nanosecond(nanos).unwrap_or_default();
    let offset = jiff::tz::Offset::from_seconds(offset).unwrap_or(jiff::tz::Offset::UTC);
    stamp.to_zoned(jiff::tz::TimeZone::fixed(offset)).strftime(format).to_string()
}

// ---------------------------------------------------------------------------
// Laws
// ---------------------------------------------------------------------------

/// A clock shows a time on a day at the moment that stands for it, whatever its distance from the
/// epoch's clocks; and up to the end of the minute it goes on showing it.
pub proof fn a_clock_shows_what_it_was_set_to(day: int, at: TimeOfDay, offset: int, within: int)
    requires
        at.wf(),
        0 <= within < 60 * PER_SECOND,
    ensures
        day_at(clock_nanos(day, at, offset) + within, offset) == day,
        time_at(clock_nanos(day, at, offset) + within, offset) == at,
{
    let seconds = at.hour * 3_600 + at.minute * 60;
    let inside = seconds * PER_SECOND + within;
    let shown = clock_nanos(day, at, offset) + within + offset * PER_SECOND;
    assert(shown == day * PER_DAY + inside) by (nonlinear_arith)
        requires
            shown == (day * 86_400 + seconds - offset) * 1_000_000_000 + within + offset
                * 1_000_000_000,
            inside == seconds * 1_000_000_000 + within,
            PER_DAY == 86_400_000_000_000,
    ;
    assert(0 <= inside < PER_DAY);
    assert(shown / PER_DAY as int == day && shown % PER_DAY as int == inside) by (nonlinear_arith)
        requires
            shown == day * PER_DAY + inside,
            0 <= inside < PER_DAY,
            PER_DAY == 86_400_000_000_000,
    ;
    let minutes = at.hour * 60 + at.minute;
    assert(inside == minutes * 60_000_000_000 + within);
    assert(inside / 60_000_000_000 == minutes);
}

/// The whole seconds of a moment are less than a second from it, on the epoch's side.
pub proof fn whole_seconds_lie_toward_the_epoch(nanos: int)
    ensures
        nanos >= 0 ==> whole_seconds(nanos) * PER_SECOND <= nanos < (whole_seconds(nanos) + 1)
            * PER_SECOND,
        nanos < 0 ==> (whole_seconds(nanos) - 1) * PER_SECOND < nanos <= whole_seconds(nanos)
            * PER_SECOND,
{
}

/// A day is named by the first three letters of what it is called, and days are named in turn.
pub proof fn days_are_named_in_turn(day: int)
    ensures
        crate::text::ascii_lower_text(short_day(weekday_number(day)))
            == crate::config::schedule::week_names()[(day - 3) % 7].take(3),
        weekday_number(day + 1) == (weekday_number(day) + 1) % 7,
{
    let n = weekday_number(day);
    assert(n == (day - 3) % 7);
    reveal_strlit("Sun");
    reveal_strlit("Mon");
    reveal_strlit("Tue");
    reveal_strlit("Wed");
    reveal_strlit("Thu");
    reveal_strlit("Fri");
    reveal_strlit("Sat");
    reveal_strlit("sunday");
    reveal_strlit("monday");
    reveal_strlit("tuesday");
    reveal_strlit("wednesday");
    reveal_strlit("thursday");
    reveal_strlit("friday");
    reveal_strlit("saturday");
    let short = crate::text::ascii_lower_text(short_day(n));
    assert(short =~= crate::config::schedule::week_names()[n].take(3));
}

} // verus!
