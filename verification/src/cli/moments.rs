//! Moments in the reader's own time: `today`, `yesterday`, `tomorrow`, and dates.
//!
//! All of them are local time, because that is the clock the person reading them lives on. What
//! the clock and the time zone say stands in a value of its own, and what is printed is a
//! function of that value.

use crate::cli::words;
use crate::cli::words::until;
use crate::config::moment;
use crate::config::moment::{
    clock_text, local_day, now_beside, now_nanos, offset_at, read_nanos, seconds_of, system_zone,
    Moment,
};
use crate::text;
use crate::text::{cat2, cat3};
use vstd::prelude::*;

verus! {

/// What is beyond the calendar's arithmetic is far off.
pub const FAR: i32 = 99;

/// A past moment as the reader's clock has it.
#[derive(Debug, PartialEq, Eq)]
pub struct Stamp {
    /// How many days ago it was, where the calendar can say.
    pub days_ago: Option<i32>,
    pub date: String,
    pub clock: String,
}

pub struct StampView {
    pub days_ago: Option<i32>,
    pub date: Seq<char>,
    pub clock: Seq<char>,
}

impl View for Stamp {
    type V = StampView;

    open spec fn view(&self) -> StampView {
        StampView { days_ago: self.days_ago, date: self.date@, clock: self.clock@ }
    }
}

pub open spec fn stamp_view(stamp: Option<Stamp>) -> Option<StampView> {
    match stamp {
        Some(s) => Some(s@),
        None => None,
    }
}

/// A past moment as a clock has it at another: how far the clock is ahead of the epoch's at each
/// of the two decides what it shows.
pub open spec fn stamp_at(nanos: int, offset: int, now: int, now_offset: int) -> StampView {
    StampView {
        days_ago: Some((moment::day_at(now, now_offset) - moment::day_at(nanos, offset)) as i32),
        date: moment::shown_text(nanos, offset, "%F"@),
        clock: moment::time_at(nanos, offset).shown(),
    }
}

/// A stamp is what the clocks of some zone, the machine's, show at some moment of the moment a
/// text names; a text that names none has no stamp.
pub open spec fn is_stamp(raw: Seq<char>, stamp: Option<StampView>) -> bool {
    match moment::nano_of(raw) {
        Some(nanos) => exists|zone: jiff::tz::TimeZone, now: int|
            moment::in_range(now) && stamp == Some(#[trigger] stamp_in(zone, nanos as int, now)),
        None => stamp is None,
    }
}

/// A past moment as a zone's clocks have it at another.
pub open spec fn stamp_in(zone: jiff::tz::TimeZone, nanos: int, now: int) -> StampView {
    stamp_at(nanos, moment::offset_in(zone, nanos), now, moment::offset_in(zone, now))
}

/// A text is what the clocks of some zone make, at some moment, of the moment another text names.
pub open spec fn reads_as(raw: Seq<char>, shown: Seq<char>) -> bool {
    exists|stamp: Option<StampView>|
        is_stamp(raw, stamp) && shown == #[trigger] moment_text(raw, stamp)
}

/// A text is the date that the clocks of some zone show at the moment another text names.
pub open spec fn dates_as(raw: Seq<char>, shown: Seq<char>) -> bool {
    match moment::nano_of(raw) {
        Some(nanos) => exists|zone: jiff::tz::TimeZone|
            shown == moment::shown_text(
                nanos as int,
                #[trigger] moment::offset_in(zone, nanos as int),
                "%F"@,
            ),
        None => shown == raw,
    }
}

/// [`stamp_at`], of moments that a timestamp can hold.
pub fn stamp_seen(nanos: i128, offset: i32, now: i128, now_offset: i32) -> (out: Stamp)
    requires
        moment::in_range(nanos as int),
        moment::is_offset(offset as int),
        moment::in_range(now as int),
        moment::is_offset(now_offset as int),
    ensures
        out@ == stamp_at(nanos as int, offset as int, now as int, now_offset as int),
{
    let days: i64 = local_day(now, now_offset) - local_day(nanos, offset);
    Stamp {
        days_ago: Some(days as i32),
        date: clock_text(nanos, offset, "%F"),
        clock: clock_text(nanos, offset, "%H:%M"),
    }
}

/// What a moment reads as. A text that names no moment stays as it is.
pub open spec fn moment_text(raw: Seq<char>, stamp: Option<StampView>) -> Seq<char> {
    match stamp {
        Some(s) => match s.days_ago {
            Some(days) => if days == 0 {
                "today "@ + s.clock
            } else if days == 1 {
                "yesterday "@ + s.clock
            } else {
                s.date + " "@ + s.clock
            },
            None => s.date + " "@ + s.clock,
        },
        None => raw,
    }
}

/// [`moment`], of what the clock said.
pub fn moment_of(raw: &str, stamp: &Option<Stamp>) -> (out: String)
    ensures
        out@ == moment_text(raw@, stamp_view(*stamp)),
{
    match stamp {
        Some(s) => {
            let days: i32 = match s.days_ago {
                Some(days) => days,
                None => FAR,
            };
            if days == 0 {
                cat2("today ", &s.clock)
            } else if days == 1 {
                cat2("yesterday ", &s.clock)
            } else {
                cat3(&s.date, " ", &s.clock)
            }
        },
        None => raw.to_owned(),
    }
}

/// Recent stamps read as `today` and `yesterday`, older ones as dates.
#[must_use]
pub fn moment(rfc3339: &str) -> (out: String)
    ensures
        reads_as(rfc3339@, out@),
{
    let stamp = stamp(rfc3339);
    moment_of(rfc3339, &stamp)
}

pub open spec fn day_text(raw: Seq<char>, stamp: Option<StampView>) -> Seq<char> {
    match stamp {
        Some(s) => s.date,
        None => raw,
    }
}

/// [`day`], of what the clock said.
pub fn day_of(raw: &str, stamp: &Option<Stamp>) -> (out: String)
    ensures
        out@ == day_text(raw@, stamp_view(*stamp)),
{
    match stamp {
        Some(s) => s.date.clone(),
        None => raw.to_owned(),
    }
}

/// Just the date, for a lag measured in days where the hour is noise.
#[must_use]
pub fn day(rfc3339: &str) -> (out: String)
    ensures
        dates_as(rfc3339@, out@),
{
    let stamp = stamp(rfc3339);
    day_of(rfc3339, &stamp)
}

/// What the clock and the calendar say of a moment, where the text names one.
pub fn stamp(rfc3339: &str) -> (out: Option<Stamp>)
    ensures
        is_stamp(rfc3339@, stamp_view(out)),
{
    match read_nanos(rfc3339) {
        Some(nanos) => {
            let zone = system_zone();
            let now = now_nanos();
            let offset = offset_at(nanos, &zone);
            let now_offset = offset_at(now, &zone);
            let out = stamp_seen(nanos, offset, now, now_offset);
            assert(out@ == stamp_in(zone, nanos as int, now as int));
            Some(out)
        },
        None => None,
    }
}

/// A moment to come as the reader's clock has it.
#[derive(Debug, PartialEq, Eq)]
pub struct Ahead {
    /// How many days off it is, where the calendar can say.
    pub days: Option<i32>,
    pub seconds: i64,
    pub weekday: String,
    pub date: String,
    pub clock: String,
}

pub open spec fn upcoming_label(ahead: Ahead) -> Seq<char> {
    let days = match ahead.days {
        Some(days) => days,
        None => FAR,
    };
    if days == 0 {
        "today "@ + ahead.clock@
    } else if days == 1 {
        "tomorrow "@ + ahead.clock@
    } else if 2 <= days <= 6 {
        ahead.weekday@ + " "@ + ahead.clock@
    } else {
        ahead.date@ + " "@ + ahead.clock@
    }
}

pub open spec fn upcoming_text(ahead: Ahead) -> Seq<char> {
    upcoming_label(ahead) + ", in "@ + words::until_text(ahead.seconds as int)
}

/// [`upcoming`], of what the clock said.
pub fn upcoming_of(ahead: &Ahead) -> (out: String)
    ensures
        out@ == upcoming_text(*ahead),
{
    let days: i32 = match ahead.days {
        Some(days) => days,
        None => FAR,
    };
    let label = if days == 0 {
        cat2("today ", &ahead.clock)
    } else if days == 1 {
        cat2("tomorrow ", &ahead.clock)
    } else if 2 <= days && days <= 6 {
        cat3(&ahead.weekday, " ", &ahead.clock)
    } else {
        cat3(&ahead.date, " ", &ahead.clock)
    };
    cat3(&label, ", in ", &until(ahead.seconds))
}

/// What a clock shows at one moment of another: how far it is ahead of the epoch's at each of the
/// two decides it. The days are those from the date it shows at the first to the date it shows at
/// the second.
pub open spec fn is_ahead(
    ahead: Ahead,
    now: int,
    now_offset: int,
    next: int,
    next_offset: int,
) -> bool {
    let day = moment::day_at(next, next_offset);
    &&& ahead.days == Some((day - moment::day_at(now, now_offset)) as i32)
    &&& ahead.seconds == moment::whole_seconds(next) - moment::whole_seconds(now)
    &&& ahead.weekday@ == moment::short_day(moment::weekday_number(day))
    &&& ahead.date@ == moment::shown_text(next, next_offset, "%F"@)
    &&& ahead.clock@ == moment::time_at(next, next_offset).shown()
}

/// What a zone's clocks show at one moment of another.
pub open spec fn looks_ahead(ahead: Ahead, zone: jiff::tz::TimeZone, now: int, next: int) -> bool {
    is_ahead(ahead, now, moment::offset_in(zone, now), next, moment::offset_in(zone, next))
}

/// [`is_ahead`], of moments that a timestamp can hold.
pub fn ahead_seen(now: i128, now_offset: i32, next: i128, next_offset: i32) -> (out: Ahead)
    requires
        moment::in_range(now as int),
        moment::is_offset(now_offset as int),
        moment::in_range(next as int),
        moment::is_offset(next_offset as int),
    ensures
        is_ahead(out, now as int, now_offset as int, next as int, next_offset as int),
{
    let days: i64 = local_day(next, next_offset) - local_day(now, now_offset);
    Ahead {
        days: Some(days as i32),
        seconds: seconds_of(next) - seconds_of(now),
        weekday: clock_text(next, next_offset, "%a"),
        date: clock_text(next, next_offset, "%F"),
        clock: clock_text(next, next_offset, "%H:%M"),
    }
}

/// One moment as it looks from another, each on its own clock.
pub fn ahead_of(now: &Moment, next: &Moment) -> (out: Ahead)
    requires
        now.wf(),
        next.wf(),
    ensures
        out.seconds == next.second() - now.second(),
        is_ahead(
            out,
            now.nanos as int,
            moment::offset_in(now.zone, now.nanos as int),
            next.nanos as int,
            moment::offset_in(next.zone, next.nanos as int),
        ),
{
    let now_offset = offset_at(now.nanos, &now.zone);
    let next_offset = offset_at(next.nanos, &next.zone);
    ahead_seen(now.nanos, now_offset, next.nanos, next_offset)
}

/// The wall-clock half of the next-run column, on the clock that the moment is shown on.
#[must_use]
pub fn upcoming(next: &Moment) -> (out: String)
    requires
        next.wf(),
    ensures
        exists|now: int, ahead: Ahead|
            moment::in_range(now) && #[trigger] looks_ahead(
                ahead,
                next.zone,
                now,
                next.nanos as int,
            ) && out@ == upcoming_text(ahead),
{
    let now = now_beside(next);
    let ahead = ahead_of(&now, next);
    assert(looks_ahead(ahead, next.zone, now.nanos as int, next.nanos as int));
    upcoming_of(&ahead)
}

/// The second since the epoch that a text names, where it names a moment.
pub open spec fn second_of(text: Seq<char>) -> Option<i64> {
    match moment::nano_of(text) {
        Some(nanos) => Some(moment::whole_seconds(nanos as int) as i64),
        None => None,
    }
}

pub(crate) fn read_second(text: &str) -> (out: Option<i64>)
    ensures
        out == second_of(text@),
        out matches Some(s) ==> -377_705_023_201 <= s <= 253_402_207_200,
{
    match read_nanos(text) {
        Some(nanos) => Some(seconds_of(nanos)),
        None => None,
    }
}

/// The second it is. Nothing is claimed of it but that a timestamp can hold it.
pub(crate) fn now_second() -> (out: i64)
    ensures
        -377_705_023_201 <= out <= 253_402_207_200,
{
    seconds_of(now_nanos())
}

// ---------------------------------------------------------------------------
// Laws
// ---------------------------------------------------------------------------

/// A text that names no moment is printed as it stands, by both.
pub proof fn an_unread_stamp_is_left_alone(raw: Seq<char>)
    ensures
        moment_text(raw, None) == raw,
        day_text(raw, None) == raw,
{
}

/// A past moment is today's where a clock shows its date now, yesterday's where it shows the next,
/// and is told by its date otherwise; the time of day is the clock's at that moment.
pub proof fn a_past_moment_is_told_by_its_day(
    raw: Seq<char>,
    nanos: int,
    offset: int,
    now: int,
    now_offset: int,
)
    requires
        moment::in_range(nanos),
        moment::in_range(now),
        moment::is_offset(offset),
        moment::is_offset(now_offset),
    ensures
        ({
            let shown = moment_text(raw, Some(stamp_at(nanos, offset, now, now_offset)));
            let clock = moment::time_at(nanos, offset).shown();
            let gone = moment::day_at(now, now_offset) - moment::day_at(nanos, offset);
            &&& gone == 0 ==> shown == "today "@ + clock
            &&& gone == 1 ==> shown == "yesterday "@ + clock
            &&& gone != 0 && gone != 1 ==> shown == moment::shown_text(nanos, offset, "%F"@) + " "@
                + clock
        }),
{
}

/// A moment to come is today's, tomorrow's, or this week's by the name of its day; from a week off
/// it is told by its date.
pub proof fn a_moment_to_come_is_told_by_its_day(
    ahead: Ahead,
    now: int,
    now_offset: int,
    next: int,
    next_offset: int,
)
    requires
        is_ahead(ahead, now, now_offset, next, next_offset),
        moment::in_range(now),
        moment::in_range(next),
        moment::is_offset(now_offset),
        moment::is_offset(next_offset),
    ensures
        ({
            let shown = upcoming_label(ahead);
            let clock = moment::time_at(next, next_offset).shown();
            let day = moment::day_at(next, next_offset);
            let off = day - moment::day_at(now, now_offset);
            &&& off == 0 ==> shown == "today "@ + clock
            &&& off == 1 ==> shown == "tomorrow "@ + clock
            &&& 1 < off < 7 ==> shown == moment::short_day((day + 4) % 7) + " "@ + clock
            &&& off < 0 || off >= 7 ==> shown == moment::shown_text(next, next_offset, "%F"@) + " "@
                + clock
        }),
{
}

} // verus!
