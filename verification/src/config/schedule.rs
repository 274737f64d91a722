//! When a profile runs by itself: the times of day, the weekdays, the intervals, and what is
//! next and what is overdue.

use crate::config::moment;
use crate::config::moment::{
    later_by, local_day, offset_at, same_zone, wall_clock, Moment, FIRST_NANO, LAST_NANO,
    MAX_SPAN_SECS, PER_DAY, PER_SECOND,
};
use crate::text;
use crate::text::{cat2, cat3, chars_of, decimal, number, same, same_chars, split_once};
use crate::lines;
use crate::lines::trim;
use vstd::prelude::*;
use vstd::string::*;

verus! {

/// A span of whole seconds.
#[derive(Clone, Copy, Debug, PartialEq, Eq, PartialOrd, Ord, Structural)]
pub struct Duration {
    pub secs: u64,
}

impl Duration {
    pub fn from_secs(secs: u64) -> (out: Duration)
        ensures
            out.secs == secs,
    {
        Duration { secs }
    }

    pub fn as_secs(&self) -> (out: u64)
        ensures
            out == self.secs,
    {
        self.secs
    }
}

#[derive(Clone, Copy, Debug, PartialEq, Eq, PartialOrd, Ord, Structural)]
pub struct TimeOfDay {
    pub hour: u8,
    pub minute: u8,
}

/// A number under a hundred in two digits.
pub open spec fn two_digits(n: nat) -> Seq<char> {
    if n < 10 {
        "0"@ + text::decimal_text(n)
    } else {
        text::decimal_text(n)
    }
}

/// A number in at least two digits.
pub fn padded_two(n: u64) -> (out: String)
    ensures
        out@ == two_digits(n as nat),
{
    if n < 10 {
        cat2("0", &decimal(n))
    } else {
        decimal(n)
    }
}

/// What a text says as `HH:MM`, or what is wrong with it.
pub open spec fn time_of(text: Seq<char>) -> Result<TimeOfDay, Seq<char>> {
    match text::split_first(text, ':') {
        None => Err("'"@ + text + "' is not HH:MM"@),
        Some((hour, minute)) => match (text::parsed_number(hour, 255), text::parsed_number(minute, 255)) {
            (Some(hour), Some(minute)) => if hour > 23 || minute > 59 {
                Err("'"@ + text + "' is not a time of day"@)
            } else {
                Ok(TimeOfDay { hour: hour as u8, minute: minute as u8 })
            },
            _ => Err("'"@ + text + "' is not HH:MM"@),
        },
    }
}

impl TimeOfDay {
    /// # Errors
    ///
    /// If the text is not `HH:MM` inside 00:00 to 23:59.
    pub fn parse(text: &str) -> (out: Result<TimeOfDay, String>)
        ensures
            match out {
                Ok(at) => time_of(text@) == Ok::<TimeOfDay, Seq<char>>(at) && at.wf(),
                Err(e) => time_of(text@) == Err::<TimeOfDay, Seq<char>>(e@),
            },
    {
        let (hour, minute) = match split_once(text, ':') {
            Some(pair) => pair,
            None => return Err(cat3("'", text, "' is not HH:MM")),
        };
        let h = number(&chars_of(&hour), 255);
        let m = number(&chars_of(&minute), 255);
        match (h, m) {
            (Some(h), Some(m)) => {
                if h > 23 || m > 59 {
                    return Err(cat3("'", text, "' is not a time of day"));
                }
                Ok(TimeOfDay { hour: h as u8, minute: m as u8 })
            },
            _ => Err(cat3("'", text, "' is not HH:MM")),
        }
    }

    /// Inside a day.
    pub open spec fn wf(self) -> bool {
        self.hour <= 23 && self.minute <= 59
    }

    /// `HH:MM`.
    pub open spec fn shown(self) -> Seq<char> {
        two_digits(self.hour as nat) + ":"@ + two_digits(self.minute as nat)
    }

    pub fn text(&self) -> (out: String)
        ensures
            out@ == self.shown(),
    {
        cat3(&padded_two(self.hour as u64), ":", &padded_two(self.minute as u64))
    }
}

#[derive(Clone, Copy, Debug, PartialEq, Eq, Structural)]
pub enum Weekday {
    Sunday,
    Monday,
    Tuesday,
    Wednesday,
    Thursday,
    Friday,
    Saturday,
}

/// An ASCII letter in lower case, anything else as it is.
pub fn lower_char(c: char) -> (out: char)
    ensures
        out == text::ascii_lower(c),
{
    if 'A' <= c && c <= 'Z' {
        let code: u8 = c as u8;
        (code + 32) as char
    } else {
        c
    }
}

/// A text with its ASCII letters in lower case.
pub fn lower_ascii(s: &str) -> (out: Vec<char>)
    ensures
        out@ == text::ascii_lower_text(s@),
{
    let cs = chars_of(s);
    let mut out: Vec<char> = Vec::new();
    let mut i: usize = 0;
    while i < cs.len()
        invariant
            i <= cs@.len(),
            out@.len() == i,
            forall|j: int| 0 <= j < i ==> #[trigger] out@[j] == text::ascii_lower(cs@[j]),
        decreases cs@.len() - i,
    {
        out.push(lower_char(cs[i]));
        i += 1;
    }
    assert(out@ =~= text::ascii_lower_text(s@));
    out
}

/// The day a text names in any mixture of capitals and small letters.
pub open spec fn weekday_of(text: Seq<char>) -> Option<Weekday> {
    let lower = text::ascii_lower_text(text);
    if lower == "sunday"@ {
        Some(Weekday::Sunday)
    } else if lower == "monday"@ {
        Some(Weekday::Monday)
    } else if lower == "tuesday"@ {
        Some(Weekday::Tuesday)
    } else if lower == "wednesday"@ {
        Some(Weekday::Wednesday)
    } else if lower == "thursday"@ {
        Some(Weekday::Thursday)
    } else if lower == "friday"@ {
        Some(Weekday::Friday)
    } else if lower == "saturday"@ {
        Some(Weekday::Saturday)
    } else {
        None
    }
}

fn is_word(lower: &[char], word: &str) -> (out: bool)
    ensures
        out == (lower@ == word@),
{
    same_chars(lower, &chars_of(word))
}

impl Weekday {
    /// # Errors
    ///
    /// If the text is not an English weekday name.
    pub fn parse(text: &str) -> (out: Result<Weekday, String>)
        ensures
            match out {
                Ok(day) => weekday_of(text@) == Some(day),
                Err(e) => weekday_of(text@) is None && e@ == "'"@ + text@
                    + "' is not a day of the week"@,
            },
    {
        let lower = lower_ascii(text);
        if is_word(&lower, "sunday") {
            Ok(Weekday::Sunday)
        } else if is_word(&lower, "monday") {
            Ok(Weekday::Monday)
        } else if is_word(&lower, "tuesday") {
            Ok(Weekday::Tuesday)
        } else if is_word(&lower, "wednesday") {
            Ok(Weekday::Wednesday)
        } else if is_word(&lower, "thursday") {
            Ok(Weekday::Thursday)
        } else if is_word(&lower, "friday") {
            Ok(Weekday::Friday)
        } else if is_word(&lower, "saturday") {
            Ok(Weekday::Saturday)
        } else {
            Err(cat3("'", text, "' is not a day of the week"))
        }
    }

    /// The day's number in a week that starts on Sunday.
    pub open spec fn number(self) -> int {
        match self {
            Weekday::Sunday => 0,
            Weekday::Monday => 1,
            Weekday::Tuesday => 2,
            Weekday::Wednesday => 3,
            Weekday::Thursday => 4,
            Weekday::Friday => 5,
            Weekday::Saturday => 6,
        }
    }

    /// launchd's `Weekday` key, where Sunday is 0.
    #[must_use]
    pub fn launchd(self) -> (out: u8)
        ensures
            out == self.number(),
    {
        match self {
            Weekday::Sunday => 0,
            Weekday::Monday => 1,
            Weekday::Tuesday => 2,
            Weekday::Wednesday => 3,
            Weekday::Thursday => 4,
            Weekday::Friday => 5,
            Weekday::Saturday => 6,
        }
    }

    /// The day as a config file writes it.
    pub open spec fn word(self) -> Seq<char> {
        match self {
            Weekday::Sunday => "sunday"@,
            Weekday::Monday => "monday"@,
            Weekday::Tuesday => "tuesday"@,
            Weekday::Wednesday => "wednesday"@,
            Weekday::Thursday => "thursday"@,
            Weekday::Friday => "friday"@,
            Weekday::Saturday => "saturday"@,
        }
    }

    pub fn as_str(self) -> (out: &'static str)
        ensures
            out@ == self.word(),
    {
        match self {
            Weekday::Sunday => "sunday",
            Weekday::Monday => "monday",
            Weekday::Tuesday => "tuesday",
            Weekday::Wednesday => "wednesday",
            Weekday::Thursday => "thursday",
            Weekday::Friday => "friday",
            Weekday::Saturday => "saturday",
        }
    }
}

/// Exactly one, enforced by the type. `Daily` and `Weekly` become
/// `StartCalendarInterval`; `Every` becomes `StartInterval`.
#[derive(Clone, Copy, Debug, PartialEq, Eq, Structural)]
pub enum Schedule {
    Daily { at: TimeOfDay },
    Weekly { day: Weekday, at: TimeOfDay },
    Every(Duration),
}

/// How far past its schedule a profile may drift before it is overdue, in seconds.
pub const GRACE_SECS: u64 = 21_600;

/// How far past its schedule a profile may drift before it is overdue.
///
/// A run does not start at exactly the scheduled second - launchd coalesces, the
/// machine wakes late, a previous run holds the lock - so a grace period is what
/// separates "ran a bit late" from "did not run". Six hours is comfortably longer than
/// any run this design produces and far shorter than the weekly interval it guards.
pub fn grace() -> (out: Duration)
    ensures
        out.secs == GRACE_SECS,
{
    Duration { secs: GRACE_SECS }
}

/// How many seconds a unit stands for.
pub open spec fn unit_seconds(unit: char) -> Option<nat> {
    if unit == 's' {
        Some(1)
    } else if unit == 'm' {
        Some(60)
    } else if unit == 'h' {
        Some(3_600)
    } else if unit == 'd' {
        Some(86_400)
    } else {
        None
    }
}

/// What an interval says, or what is wrong with it. An interval of no length, or of more
/// seconds than can be counted, is none.
pub open spec fn interval_of(text: Seq<char>) -> Result<Duration, Seq<char>> {
    let t = lines::trimmed(text);
    if t.len() == 0 || unit_seconds(t.last()) is None {
        Err("'"@ + text + "' must end in s, m, h or d"@)
    } else {
        match text::parsed_number(t.drop_last(), u64::MAX as nat) {
            None => Err("'"@ + text + "' must start with a whole number"@),
            Some(count) => if count == 0 || count * unit_seconds(t.last())->0 > u64::MAX {
                Err("'"@ + text + "' is not an interval"@)
            } else {
                Ok(Duration { secs: (count * unit_seconds(t.last())->0) as u64 })
            },
        }
    }
}

/// Parses `6h`-style intervals: an integer and one of `s`, `m`, `h`, `d`.
///
/// # Errors
///
/// If the text is not that shape, or the count is zero.
pub fn parse_interval(text: &str) -> (out: Result<Duration, String>)
    ensures
        match out {
            Ok(d) => interval_of(text@) == Ok::<Duration, Seq<char>>(d),
            Err(e) => interval_of(text@) == Err::<Duration, Seq<char>>(e@),
        },
{
    let t = chars_of(&trim(text));
    let n: usize = t.len();
    if n == 0 {
        return Err(cat3("'", text, "' must end in s, m, h or d"));
    }
    let unit = t[n - 1];
    let seconds: u64 = if unit == 's' {
        1
    } else if unit == 'm' {
        60
    } else if unit == 'h' {
        3_600
    } else if unit == 'd' {
        86_400
    } else {
        return Err(cat3("'", text, "' must end in s, m, h or d"));
    };
    let head = chars_of(&crate::text::between(&t, 0, n - 1));
    assert(head@ =~= t@.drop_last());
    match number(&head, u64::MAX) {
        None => Err(cat3("'", text, "' must start with a whole number")),
        Some(count) => {
            match count.checked_mul(seconds) {
                None => Err(cat3("'", text, "' is not an interval")),
                Some(total) => {
                    if count == 0 {
                        return Err(cat3("'", text, "' is not an interval"));
                    }
                    Ok(Duration { secs: total })
                },
            }
        },
    }
}

/// The grammar of `--schedule`: what a text says, or what is wrong with it.
pub open spec fn schedule_of(text: Seq<char>) -> Result<Schedule, Seq<char>> {
    let bad = "'"@ + text
        + "' is not daily:HH:MM, weekly:<weekday>:HH:MM, every:<N>h or every:<N>m"@;
    match text::split_first(text, ':') {
        None => Err(bad),
        Some((kind, rest)) => if kind == "daily"@ {
            match time_of(rest) {
                Ok(at) => Ok(Schedule::Daily { at }),
                Err(e) => Err(e),
            }
        } else if kind == "weekly"@ {
            match text::split_first(rest, ':') {
                None => Err(bad),
                Some((day, at)) => match weekday_of(day) {
                    None => Err("'"@ + day + "' is not a day of the week"@),
                    Some(day) => match time_of(at) {
                        Ok(at) => Ok(Schedule::Weekly { day, at }),
                        Err(e) => Err(e),
                    },
                },
            }
        } else if kind == "every"@ {
            if rest.len() > 0 && (rest.last() == 'h' || rest.last() == 'm') {
                match interval_of(rest) {
                    Ok(every) => Ok(Schedule::Every(every)),
                    Err(e) => Err(e),
                }
            } else {
                Err(bad)
            }
        } else {
            Err(bad)
        },
    }
}

fn bad_schedule(text: &str) -> (out: String)
    ensures
        out@ == "'"@ + text@
            + "' is not daily:HH:MM, weekly:<weekday>:HH:MM, every:<N>h or every:<N>m"@,
{
    cat3("'", text, "' is not daily:HH:MM, weekly:<weekday>:HH:MM, every:<N>h or every:<N>m")
}

impl std::str::FromStr for Schedule {
    type Err = String;

    /// `daily:HH:MM`, `weekly:<weekday>:HH:MM`, `every:<N>h` or `every:<N>m`.
    fn from_str(text: &str) -> Result<Self, Self::Err> {
        Schedule::parse(text)
    }
}

/// How many seconds late a run is that last succeeded at `last`, where it is late at all.
pub open spec fn overdue_spec(schedule: Schedule, last: Option<i64>, now: i64) -> Option<Duration> {
    match last {
        None => Some(Duration { secs: schedule.interval_secs() }),
        Some(last) => {
            let elapsed = if now >= last {
                now - last
            } else {
                0
            };
            let due = schedule.interval_secs() + GRACE_SECS;
            if elapsed > due {
                Some(Duration { secs: (elapsed - due) as u64 })
            } else {
                None
            }
        },
    }
}

/// How many days after a day the next one of a weekday is, where that day itself counts.
pub open spec fn days_until(wanted: Weekday, today: int) -> int {
    (wanted.number() - moment::weekday_number(today)) % 7
}

/// [`days_until`], of a day within the calendar.
fn ahead_of_day(wanted: Weekday, today: i64) -> (out: i64)
    requires
        -7_000_000 < today < 6_999_980,
    ensures
        out == days_until(wanted, today as int),
        0 <= out <= 6,
{
    let number: i64 = wanted.launchd() as i64;
    let week: i64 = (today + 4 + 7_000_000) % 7;
    assert(week == moment::weekday_number(today as int));
    if number >= week {
        number - week
    } else {
        number - week + 7
    }
}

/// Not within three weeks of either end of the calendar.
pub open spec fn inside_the_calendar(nanos: int) -> bool {
    FIRST_NANO + 21 * PER_DAY <= nanos <= LAST_NANO - 21 * PER_DAY
}

/// The moment that a zone's rules take a time on a day for.
pub open spec fn wall_time(zone: jiff::tz::TimeZone, day: int, at: TimeOfDay) -> int {
    moment::wall_nanos(zone, day, at.hour as int, at.minute as int)
}

/// Whether a moment is a time on the first of some days at which that is after another.
pub open spec fn first_wall_time(
    zone: jiff::tz::TimeZone,
    days: Seq<int>,
    at: TimeOfDay,
    from: int,
    next: int,
) -> bool {
    exists|i: int| #[trigger]
        is_first_after(zone, days, at, from, i) && next == wall_time(zone, days[i], at)
}

/// Whether a day is the first of some at which a time on it is after a moment.
pub open spec fn is_first_after(
    zone: jiff::tz::TimeZone,
    days: Seq<int>,
    at: TimeOfDay,
    from: int,
    i: int,
) -> bool {
    &&& none_before(zone, days, at, from, i)
    &&& wall_time(zone, days[i], at) > from
}

/// Whether a day is one of some, and a time on each of those before it is not after a moment.
pub open spec fn none_before(
    zone: jiff::tz::TimeZone,
    days: Seq<int>,
    at: TimeOfDay,
    from: int,
    i: int,
) -> bool {
    &&& 0 <= i < days.len()
    &&& forall|j: int| 0 <= j < i ==> wall_time(zone, #[trigger] days[j], at) <= from
}

/// The first of some moments that is after another.
pub fn first_after(from: i128, candidates: &[i128]) -> (out: Option<usize>)
    ensures
        match out {
            Some(i) => i < candidates@.len() && candidates@[i as int] > from && forall|j: int|
                0 <= j < i ==> (#[trigger] candidates@[j]) <= from,
            None => forall|j: int|
                0 <= j < candidates@.len() ==> (#[trigger] candidates@[j]) <= from,
        },
{
    let mut i: usize = 0;
    while i < candidates.len()
        invariant
            i <= candidates@.len(),
            forall|j: int| 0 <= j < i ==> (#[trigger] candidates@[j]) <= from,
        decreases candidates@.len() - i,
    {
        if candidates[i] > from {
            return Some(i);
        }
        i += 1;
    }
    None
}

impl Schedule {
    /// Reads the `--schedule` grammar.
    ///
    /// # Errors
    ///
    /// If the text is not `daily:HH:MM`, `weekly:<weekday>:HH:MM`, `every:<N>h` or `every:<N>m`.
    pub fn parse(text: &str) -> (out: Result<Schedule, String>)
        ensures
            match out {
                Ok(s) => schedule_of(text@) == Ok::<Schedule, Seq<char>>(s),
                Err(e) => schedule_of(text@) == Err::<Schedule, Seq<char>>(e@),
            },
    {
        let (kind, rest) = match split_once(text, ':') {
            Some(pair) => pair,
            None => return Err(bad_schedule(text)),
        };
        if same(&kind, "daily") {
            match TimeOfDay::parse(&rest) {
                Ok(at) => Ok(Schedule::Daily { at }),
                Err(e) => Err(e),
            }
        } else if same(&kind, "weekly") {
            let (day, at) = match split_once(&rest, ':') {
                Some(pair) => pair,
                None => return Err(bad_schedule(text)),
            };
            let day = match Weekday::parse(&day) {
                Ok(day) => day,
                Err(e) => return Err(e),
            };
            match TimeOfDay::parse(&at) {
                Ok(at) => Ok(Schedule::Weekly { day, at }),
                Err(e) => Err(e),
            }
        } else if same(&kind, "every") {
            let cs = chars_of(&rest);
            if cs.len() == 0 || !(cs[cs.len() - 1] == 'h' || cs[cs.len() - 1] == 'm') {
                return Err(bad_schedule(text));
            }
            match parse_interval(&rest) {
                Ok(every) => Ok(Schedule::Every(every)),
                Err(e) => Err(e),
            }
        } else {
            Err(bad_schedule(text))
        }
    }

    /// How many seconds this schedule leaves between runs.
    pub open spec fn interval_secs(self) -> u64 {
        match self {
            Schedule::Daily { .. } => 86_400,
            Schedule::Weekly { .. } => 604_800,
            Schedule::Every(every) => every.secs,
        }
    }

    /// How long this schedule leaves between runs.
    ///
    /// Nominal, not exact: a weekly schedule's real interval is 167 or 169 hours
    /// across a DST boundary. That imprecision is irrelevant here because it is only
    /// ever compared against a value plus [`grace`], and it is what lets the overdue
    /// check be pure arithmetic rather than a second calendar walk.
    #[must_use]
    pub fn interval(self) -> (out: Duration)
        ensures
            out.secs == self.interval_secs(),
    {
        match self {
            Schedule::Daily { .. } => Duration { secs: 86_400 },
            Schedule::Weekly { .. } => Duration { secs: 604_800 },
            Schedule::Every(every) => every,
        }
    }

    /// How long past due this profile is, or `None` if it is not, with both moments in
    /// seconds since the epoch.
    ///
    /// **This is what makes the no-daemon design safe rather than merely cheap.**
    /// `man launchd.plist` promises catch-up across *sleep* and says nothing about
    /// power-off, so a Mac shut down over a weekend would silently skip its weekly
    /// backup and nothing would ever notice. Every invocation of every agent runs this.
    ///
    /// A profile that has never run successfully is overdue from the moment it is
    /// configured, which is right: "no backup has ever worked" is the loudest thing
    /// this tool can have to say.
    #[must_use]
    pub fn overdue_at(self, last_success: Option<i64>, now: i64) -> (out: Option<Duration>)
        requires
            self.interval_secs() + GRACE_SECS <= u64::MAX,
            last_success matches Some(last) ==> now - last <= i64::MAX,
        ensures
            out == overdue_spec(self, last_success, now),
    {
        let last = match last_success {
            Some(last) => last,
            None => return Some(self.interval()),
        };
        let elapsed: u64 = if now >= last {
            (now - last) as u64
        } else {
            0
        };
        let due: u64 = self.interval().secs + GRACE_SECS;
        if elapsed > due {
            Some(Duration { secs: elapsed - due })
        } else {
            None
        }
    }

    /// How long past due this profile is, or `None` if it is not.
    #[must_use]
    pub fn overdue_by(self, last_success: Option<&Moment>, now: &Moment) -> (out: Option<Duration>)
        requires
            self.interval_secs() + GRACE_SECS <= u64::MAX,
            now.wf(),
            last_success matches Some(last) ==> last.wf(),
        ensures
            out == overdue_spec(
                self,
                match last_success {
                    Some(last) => Some(last.second() as i64),
                    None => None,
                },
                now.second() as i64,
            ),
    {
        let at = now.as_second();
        match last_success {
            Some(last) => {
                let last = last.as_second();
                self.overdue_at(Some(last), at)
            },
            None => self.overdue_at(None, at),
        }
    }

    /// The times of day and the interval are ones that a clock and a calendar have.
    pub open spec fn wf(self) -> bool {
        match self {
            Schedule::Daily { at } => at.wf(),
            Schedule::Weekly { at, .. } => at.wf(),
            Schedule::Every(every) => every.secs <= MAX_SPAN_SECS,
        }
    }

    /// The time of day a wall-clock schedule fires at.
    pub open spec fn at(self) -> TimeOfDay {
        match self {
            Schedule::Daily { at } => at,
            Schedule::Weekly { at, .. } => at,
            Schedule::Every(_) => TimeOfDay { hour: 0, minute: 0 },
        }
    }

    /// Whether a wall-clock schedule fires on a day, counted from the epoch's first.
    pub open spec fn falls_on(self, day: int) -> bool {
        match self {
            Schedule::Daily { .. } => true,
            Schedule::Weekly { day: wanted, .. } => moment::weekday_number(day) == wanted.number(),
            Schedule::Every(_) => false,
        }
    }

    /// The days a wall-clock schedule may fire next on, from today on. Today's time may have
    /// passed, and where clocks are set back across midnight a later day's may have too; none
    /// are set so far that every one of these has.
    pub open spec fn days_tried(self, today: int) -> Seq<int> {
        match self {
            Schedule::Daily { .. } => seq![today, today + 1, today + 2, today + 3, today + 4],
            Schedule::Weekly { day, .. } => seq![
                today + days_until(day, today),
                today + days_until(day, today) + 7,
            ],
            Schedule::Every(_) => seq![],
        }
    }

    /// [`Schedule::days_tried`], in order.
    pub fn days_to_try(self, today: i64) -> (out: Vec<i64>)
        requires
            -7_000_000 < today < 6_999_980,
        ensures
            out@.len() == self.days_tried(today as int).len(),
            forall|i: int|
                0 <= i < out@.len() ==> (#[trigger] out@[i]) == self.days_tried(today as int)[i],
            forall|i: int| 0 <= i < out@.len() ==> today <= (#[trigger] out@[i]) <= today + 13,
    {
        match self {
            Schedule::Daily { .. } => vec![today, today + 1, today + 2, today + 3, today + 4],
            Schedule::Weekly { day, .. } => {
                let first: i64 = today + ahead_of_day(day, today);
                vec![first, first + 7]
            },
            Schedule::Every(_) => Vec::new(),
        }
    }

    /// What a schedule fires at next after a moment, in a zone. A wall-clock schedule fires at its
    /// time on the first of the days it may fall on at which that is after the moment. Today is
    /// the day that the zone's clocks show at the moment.
    pub open spec fn fires(self, zone: jiff::tz::TimeZone, from: int, next: int) -> bool {
        if let Schedule::Every(every) = self {
            next == from + every.secs * PER_SECOND
        } else {
            first_wall_time(
                zone,
                self.days_tried(moment::day_at(from, moment::offset_in(zone, from))),
                self.at(),
                from,
                next,
            )
        }
    }

    /// Whether the calendar ends before a schedule fires next after a moment: the interval leads
    /// past its end, or the time on the first day on which it has not passed may lie outside it.
    pub open spec fn runs_out(self, zone: jiff::tz::TimeZone, from: int) -> bool {
        if let Schedule::Every(every) = self {
            from + every.secs * PER_SECOND > LAST_NANO
        } else {
            let days = self.days_tried(moment::day_at(from, moment::offset_in(zone, from)));
            exists|i: int| #[trigger] none_before(zone, days, self.at(), from, i) && exists|ahead: int|
                moment::is_offset(ahead) && !moment::in_range(
                    #[trigger] moment::clock_nanos(days[i], self.at(), ahead),
                )
        }
    }

    /// When this schedule next fires strictly after `from`.
    ///
    /// By the wall clock of `from`'s zone rather than by added seconds, because "Sunday 12:00" is
    /// a wall-clock promise: across the two nights a year the offset changes, the interval to the
    /// next run is 23 or 25 hours, not 24. `Every` is the opposite by definition - an
    /// elapsed duration, which is what launchd's `StartInterval` counts.
    ///
    /// # Errors
    ///
    /// If the arithmetic leaves the range `jiff` can represent.
    pub fn next_after(self, from: &Moment) -> (out: Result<Moment, jiff::Error>)
        requires
            from.wf(),
            self.wf(),
        ensures
            match out {
                Ok(next) => {
                    &&& next.wf()
                    &&& next.zone == from.zone
                    &&& self.fires(from.zone, from.nanos as int, next.nanos as int)
                    &&& next.nanos > from.nanos || (self matches Schedule::Every(every) && every.secs
                        == 0)
                },
                Err(_) => {
                    &&& self.runs_out(from.zone, from.nanos as int)
                    &&& self !is Every ==> !inside_the_calendar(from.nanos as int)
                },
            },
    {
        if let Schedule::Every(every) = self {
            let seconds: i64 = every.secs as i64;
            return match later_by(from.nanos, seconds) {
                Ok(nanos) => {
                    assert(every.secs > 0 ==> nanos > from.nanos);
                    Ok(Moment { nanos, zone: same_zone(&from.zone) })
                },
                Err(e) => Err(e),
            };
        }
        let at = match self {
            Schedule::Daily { at } => at,
            Schedule::Weekly { at, .. } => at,
            Schedule::Every(_) => TimeOfDay { hour: 0, minute: 0 },
        };
        let offset = offset_at(from.nanos, &from.zone);
        let today = local_day(from.nanos, offset);
        let days = self.days_to_try(today);
        let ghost tried = self.days_tried(today as int);
        let mut candidates: Vec<i128> = Vec::new();
        loop
            invariant
                self !is Every,
                self.wf(),
                from.wf(),
                at == self.at(),
                at.wf(),
                moment::is_offset(offset as int),
                offset == moment::offset_in(from.zone, from.nanos as int),
                today == moment::day_at(from.nanos as int, offset as int),
                -4_371_588 <= today <= 2_932_898,
                tried == self.days_tried(today as int),
                days@.len() == tried.len(),
                forall|j: int| 0 <= j < days@.len() ==> (#[trigger] days@[j]) == tried[j],
                forall|j: int| 0 <= j < days@.len() ==> today <= (#[trigger] days@[j]) <= today + 13,
                candidates@.len() < days@.len(),
                forall|j: int|
                    0 <= j < candidates@.len() ==> (#[trigger] candidates@[j]) == wall_time(
                        from.zone,
                        tried[j],
                        at,
                    ),
                forall|j: int| 0 <= j < candidates@.len() ==> (#[trigger] candidates@[j])
                    <= from.nanos,
            decreases days@.len() - candidates@.len(),
        {
            let i: usize = candidates.len();
            assert(none_before(from.zone, tried, at, from.nanos as int, i as int)) by {
                assert forall|j: int| 0 <= j < i implies wall_time(
                    from.zone,
                    #[trigger] tried[j],
                    at,
                ) <= from.nanos by {
                    assert(candidates@[j] == wall_time(from.zone, tried[j], at));
                }
            }
            let then = match wall_clock(days[i], at, &from.zone) {
                Ok(then) => then,
                Err(e) => {
                    proof {
                        if inside_the_calendar(from.nanos as int) {
                            lemma_a_near_day_is_in_range(
                                from.nanos as int,
                                offset as int,
                                days@[i as int] as int,
                                at,
                            );
                        }
                    }
                    return Err(e);
                },
            };
            candidates.push(then);
            if let Some(k) = first_after(from.nanos, &candidates) {
                assert(k == i) by {
                    if k < i {
                        assert(candidates@[k as int] <= from.nanos);
                    }
                }
                assert(is_first_after(from.zone, tried, at, from.nanos as int, i as int));
                return Ok(Moment { nanos: candidates[k], zone: same_zone(&from.zone) });
            }
            proof {
                assert(candidates@[i as int] <= from.nanos);
                if i + 1 == days@.len() {
                    lemma_a_far_day_is_after(
                        from.nanos as int,
                        offset as int,
                        days@[i as int] as int,
                        at,
                    );
                }
            }
        }
    }
}

/// A time on a day four days or more behind the one a clock shows is after what it shows, however
/// the clock is set meanwhile.
proof fn lemma_a_far_day_is_after(from: int, offset: int, day: int, at: TimeOfDay)
    requires
        moment::is_offset(offset),
        at.wf(),
        moment::day_at(from, offset) + 4 <= day,
    ensures
        forall|ahead: int|
            moment::is_offset(ahead) ==> #[trigger] moment::clock_nanos(day, at, ahead) > from,
{
    let shown = from + offset * PER_SECOND;
    let today = moment::day_at(from, offset);
    assert(today * PER_DAY <= shown < (today + 1) * PER_DAY);
}

/// A time on a day within a fortnight of the one a clock shows is within three weeks of what it
/// shows.
proof fn lemma_a_near_day_is_in_range(from: int, offset: int, day: int, at: TimeOfDay)
    requires
        moment::is_offset(offset),
        at.wf(),
        moment::day_at(from, offset) <= day <= moment::day_at(from, offset) + 13,
        inside_the_calendar(from),
    ensures
        forall|ahead: int|
            moment::is_offset(ahead) ==> moment::in_range(#[trigger] moment::clock_nanos(day, at, ahead)),
{
    assert forall|ahead: int| moment::is_offset(ahead) implies moment::in_range(
        #[trigger] moment::clock_nanos(day, at, ahead),
    ) by {
        let shown = from + offset * PER_SECOND;
        let today = moment::day_at(from, offset);
        assert(today * PER_DAY <= shown < (today + 1) * PER_DAY);
    }
}

/// A run inside the interval and the grace period is never overdue; one past both is overdue
/// by exactly what it is past them.
pub proof fn overdue_is_what_is_past_the_grace(schedule: Schedule, last: i64, now: i64)
    ensures
        now - last <= schedule.interval_secs() + GRACE_SECS ==> overdue_spec(
            schedule,
            Some(last),
            now,
        ) is None,
        now - last > schedule.interval_secs() + GRACE_SECS && now - last <= u64::MAX ==> overdue_spec(
            schedule,
            Some(last),
            now,
        ) == Some(
            Duration { secs: (now - last - schedule.interval_secs() - GRACE_SECS) as u64 },
        ),
        overdue_spec(schedule, None, now) is Some,
{
}

/// The days of a week, from Sunday on.
pub open spec fn week() -> Seq<Weekday> {
    seq![
        Weekday::Sunday,
        Weekday::Monday,
        Weekday::Tuesday,
        Weekday::Wednesday,
        Weekday::Thursday,
        Weekday::Friday,
        Weekday::Saturday,
    ]
}

/// The English names of the days of a week, from Sunday on.
pub open spec fn week_names() -> Seq<Seq<char>> {
    seq![
        "sunday"@,
        "monday"@,
        "tuesday"@,
        "wednesday"@,
        "thursday"@,
        "friday"@,
        "saturday"@,
    ]
}

/// A day's number is its place in a week that starts on Sunday, its name is the name at that
/// place, and a weekly schedule falls on the days of the calendar that are that day: the day
/// twenty thousand six hundred and sixty-seven after the epoch's first was a Sunday.
pub proof fn the_week_is_in_order(i: int, at: TimeOfDay, date: int)
    requires
        0 <= i < 7,
    ensures
        week()[i].number() == i,
        week()[i].word() == week_names()[i],
        weekday_of(week_names()[i]) == Some(week()[i]),
        (Schedule::Weekly { day: week()[i], at }).falls_on(date) <==> (date - 20_667 - i) % 7 == 0,
        forall|d: Weekday| #[trigger] week().contains(d),
{
    days_round_trip(week()[i]);
    assert forall|d: Weekday| #[trigger] week().contains(d) by {
        let k = match d {
            Weekday::Sunday => 0int,
            Weekday::Monday => 1,
            Weekday::Tuesday => 2,
            Weekday::Wednesday => 3,
            Weekday::Thursday => 4,
            Weekday::Friday => 5,
            Weekday::Saturday => 6,
        };
        assert(week()[k] == d);
    }
    assert((date - 20_667) % 7 == (date + 4) % 7);
}

/// The days a wall-clock schedule looks at are days it falls on, in order, and none that it falls
/// on stands between today and the first of them, or between two of them.
pub proof fn no_day_is_passed_over(schedule: Schedule, today: int, day: int)
    requires
        schedule !is Every,
    ensures
        ({
            let days = schedule.days_tried(today);
            &&& days.len() > 1
            &&& forall|i: int| 0 <= i < days.len() ==> schedule.falls_on(#[trigger] days[i])
            &&& forall|i: int, j: int| 0 <= i < j < days.len() ==> days[i] < days[j]
            &&& today <= days[0] <= today + 6
            &&& days.last() > today
            &&& schedule.falls_on(day) && today <= day <= days.last() ==> days.contains(day)
        }),
{
    let days = schedule.days_tried(today);
    match schedule {
        Schedule::Daily { .. } => {
            if today <= day <= days.last() {
                assert(days[day - today] == day);
            }
        },
        Schedule::Weekly { day: wanted, .. } => {
            lemma_weekdays(wanted, today, day);
            let first = today + days_until(wanted, today);
            assert(days =~= seq![first, first + 7]);
            if day == first {
                assert(days[0] == day);
            } else if day == first + 7 {
                assert(days[1] == day);
            }
        },
        Schedule::Every(_) => {},
    }
}

/// A weekday comes round every seven days.
proof fn lemma_weekdays(wanted: Weekday, today: int, day: int)
    ensures
        ({
            let first = today + days_until(wanted, today);
            &&& today <= first <= today + 6
            &&& moment::weekday_number(first) == wanted.number()
            &&& moment::weekday_number(first + 7) == wanted.number()
            &&& moment::weekday_number(day) == wanted.number() && today <= day <= first + 7 ==> day
                == first || day == first + 7
        }),
{
    let w = wanted.number();
    let t = today + 4;
    let ahead = (w - t % 7) % 7;
    assert(days_until(wanted, today) == ahead);
    assert(0 <= w <= 6 && 0 <= ahead <= 6);
    assert((t + ahead) % 7 == w) by {
        let r = t % 7;
        assert(ahead == if w >= r {
            w - r
        } else {
            w - r + 7
        });
    }
    if (day + 4) % 7 == w && today <= day <= today + ahead + 7 {
        let apart = day - today - ahead;
        assert(-6 <= apart <= 7);
        assert(apart % 7 == 0);
    }
}

/// Whether a zone's clocks show a time on a day at some moment, to the nanosecond.
pub open spec fn shows(zone: jiff::tz::TimeZone, nanos: int, day: int, at: TimeOfDay) -> bool {
    nanos == moment::clock_nanos(day, at, moment::offset_in(zone, nanos))
}

/// Whether the dates that a zone's clocks show never go back.
pub open spec fn dates_go_on(zone: jiff::tz::TimeZone) -> bool {
    forall|a: int, b: int|
        moment::in_range(a) && a <= b && moment::in_range(b) ==> #[trigger] moment::day_at(a, moment::offset_in(zone, a))
            <= #[trigger] moment::day_at(b, moment::offset_in(zone, b))
}

/// Whether no clock change skips or repeats a time of day in a zone: on every day its clocks show
/// it at one moment, the one its rules take it for.
pub open spec fn shown_once(zone: jiff::tz::TimeZone, at: TimeOfDay) -> bool {
    forall|day: int, nanos: int|
        moment::in_range(nanos) ==> (#[trigger] shows(zone, nanos, day, at) <==> nanos == wall_time(
            zone,
            day,
            at,
        ))
}

/// Where no clock change skips or repeats the scheduled time, the next run is strictly after the
/// moment it is asked of, and it is the earliest such moment at which the zone's clocks show that
/// time on a day the schedule falls on.
pub proof fn the_next_run_is_the_first_to_come(
    schedule: Schedule,
    zone: jiff::tz::TimeZone,
    from: int,
    next: int,
)
    requires
        schedule !is Every,
        schedule.wf(),
        schedule.fires(zone, from, next),
        moment::in_range(from),
        moment::in_range(next),
        shown_once(zone, schedule.at()),
        dates_go_on(zone),
    ensures
        next > from,
        exists|day: int|
            schedule.falls_on(day) && #[trigger] shows(zone, next, day, schedule.at()),
        forall|other: int, day: int|
            other > from && moment::in_range(other) && schedule.falls_on(day) && #[trigger] shows(
                zone,
                other,
                day,
                schedule.at(),
            ) ==> next <= other,
{
    let at = schedule.at();
    let today = moment::day_at(from, moment::offset_in(zone, from));
    let days = schedule.days_tried(today);
    let i = choose|i: int| #[trigger]
        is_first_after(zone, days, at, from, i) && next == wall_time(zone, days[i], at);
    no_day_is_passed_over(schedule, today, days[i]);
    assert(shows(zone, next, days[i], at));
    lemma_shown_day(zone, next, days[i], at);
    assert forall|other: int, day: int|
        other > from && moment::in_range(other) && schedule.falls_on(day) && #[trigger] shows(
            zone,
            other,
            day,
            at,
        ) implies next <= other by {
        assert(other == wall_time(zone, day, at));
        lemma_shown_day(zone, other, day, at);
        let shown = moment::day_at(other, moment::offset_in(zone, other));
        assert(today <= shown);
        if other < next {
            assert(shown <= moment::day_at(next, moment::offset_in(zone, next)));
            no_day_is_passed_over(schedule, today, day);
            let j = choose|j: int| 0 <= j < days.len() && days[j] == day;
            if j < i {
                assert(wall_time(zone, days[j], at) <= from);
            } else if j > i {
                assert(days[i] < days[j]);
            }
        }
    }
}

/// The day that a clock shows at a moment is the one it shows a time on then.
proof fn lemma_shown_day(zone: jiff::tz::TimeZone, nanos: int, day: int, at: TimeOfDay)
    requires
        at.wf(),
        shows(zone, nanos, day, at),
    ensures
        moment::day_at(nanos, moment::offset_in(zone, nanos)) == day,
{
    let offset = moment::offset_in(zone, nanos);
    assert(nanos + offset * PER_SECOND == day * PER_DAY + (at.hour * 3_600 + at.minute * 60)
        * PER_SECOND);
}

/// A number in two digits or more is digits alone, and reads back as itself.
pub proof fn lemma_two_digits(n: nat)
    requires
        n <= 255,
    ensures
        forall|i: int| 0 <= i < two_digits(n).len() ==> text::is_digit(#[trigger] two_digits(n)[i]),
        two_digits(n).len() > 0,
        text::parsed_number(two_digits(n), 255) == Some(n),
{
    reveal_strlit("0");
    text::lemma_decimal_digits(n);
    if n < 10 {
        let s = two_digits(n);
        assert(s =~= seq!['0', text::digit(n)]);
        reveal_with_fuel(text::decimal_value, 3);
        assert(s.drop_last() =~= seq!['0']);
        assert(s.drop_last().drop_last() =~= Seq::<char>::empty());
        assert(text::all_digits(s));
        assert(text::decimal_value(s) == n);
    } else {
        text::decimals_round_trip(n, 255);
    }
}

/// A time of day reads back from the form it is written in.
pub proof fn times_round_trip(at: TimeOfDay)
    requires
        at.wf(),
    ensures
        time_of(at.shown()) == Ok::<TimeOfDay, Seq<char>>(at),
{
    reveal_strlit(":");
    let hour = two_digits(at.hour as nat);
    let minute = two_digits(at.minute as nat);
    lemma_two_digits(at.hour as nat);
    lemma_two_digits(at.minute as nat);
    let s = at.shown();
    let n = hour.len() as int;
    assert forall|i: int| 0 <= i < n implies s[i] != ':' by {
        assert(text::is_digit(hour[i]));
    }
    text::lemma_position(s, ':', n);
    assert(s.take(n) =~= hour);
    assert(s.skip(n + 1) =~= minute);
}

/// A day reads back from the word it is written as.
pub proof fn days_round_trip(day: Weekday)
    ensures
        weekday_of(day.word()) == Some(day),
{
    reveal_strlit("sunday");
    reveal_strlit("monday");
    reveal_strlit("tuesday");
    reveal_strlit("wednesday");
    reveal_strlit("thursday");
    reveal_strlit("friday");
    reveal_strlit("saturday");
    let word = day.word();
    assert(text::ascii_lower_text(word) =~= word);
    assert("monday"@[0] != "sunday"@[0]);
    assert("friday"@[0] != "sunday"@[0]);
    assert("friday"@[0] != "monday"@[0]);
    assert("tuesday"@[1] != "thursday"@[1]);
    assert("saturday"@[1] != "sunday"@[1]);
    assert(word.len() >= 6);
}

/// An interval is a whole number of its unit: sixty seconds make a minute, sixty minutes an hour
/// and twenty-four hours a day. None of no length, or of more seconds than can be counted, is one.
pub proof fn an_interval_counts_its_unit(n: nat, unit: char)
    requires
        n <= u64::MAX,
    ensures
        ({
            let read = interval_of(text::decimal_text(n) + seq![unit]);
            let length: nat = if unit == 's' {
                n
            } else if unit == 'm' {
                n * 60
            } else if unit == 'h' {
                n * 60 * 60
            } else {
                n * 24 * 60 * 60
            };
            let known = unit == 's' || unit == 'm' || unit == 'h' || unit == 'd';
            &&& read is Ok == (known && 0 < length <= u64::MAX)
            &&& read matches Ok(d) ==> d.secs == length
        }) || lines::is_white(unit),
{
    if !lines::is_white(unit) {
        let digits = text::decimal_text(n);
        let t = digits + seq![unit];
        text::lemma_decimal_digits(n);
        assert(t[0] == digits[0]);
        assert(text::is_digit(digits[0]));
        lines::lemma_untrimmed(t);
        assert(t.drop_last() =~= digits);
        text::decimals_round_trip(n, u64::MAX as nat);
        assert(t.last() == unit);
        if unit == 's' {
            assert(unit_seconds(unit) == Some(1nat));
            assert(n * 1 == n);
        } else if unit == 'm' {
            assert(unit_seconds(unit) == Some(60nat));
        } else if unit == 'h' {
            assert(unit_seconds(unit) == Some(3_600nat));
            assert(n * 3_600 == n * 60 * 60);
        } else if unit == 'd' {
            assert(unit_seconds(unit) == Some(86_400nat));
            assert(n * 86_400 == n * 24 * 60 * 60);
        } else {
            assert(unit_seconds(unit) is None);
        }
    }
}

/// A `--schedule` of a time every day is read as that.
pub proof fn a_daily_argument_is_read(at: TimeOfDay)
    requires
        at.wf(),
    ensures
        schedule_of("daily:"@ + at.shown()) == Ok::<Schedule, Seq<char>>(Schedule::Daily { at }),
{
    reveal_strlit("daily:");
    reveal_strlit("daily");
    times_round_trip(at);
    let daily = "daily:"@ + at.shown();
    text::lemma_position(daily, ':', 5);
    assert(daily.take(5) =~= "daily"@);
    assert(daily.skip(6) =~= at.shown());
}

/// A `--schedule` of a time on one day of the week is read as that.
pub proof fn a_weekly_argument_is_read(day: Weekday, at: TimeOfDay)
    requires
        at.wf(),
    ensures
        schedule_of("weekly:"@ + day.word() + ":"@ + at.shown()) == Ok::<Schedule, Seq<char>>(
            Schedule::Weekly { day, at },
        ),
{
    times_round_trip(at);
    days_round_trip(day);
    lemma_word_is_plain(day);
    lemma_weekly_parts(day.word(), at.shown());
}

proof fn lemma_weekly_parts(word: Seq<char>, shown: Seq<char>)
    requires
        forall|i: int| 0 <= i < word.len() ==> #[trigger] word[i] != ':',
    ensures
        text::split_first("weekly:"@ + word + ":"@ + shown, ':') == Some(
            ("weekly"@, word + ":"@ + shown),
        ),
        text::split_first(word + ":"@ + shown, ':') == Some((word, shown)),
        "weekly"@ != "daily"@,
{
    reveal_strlit("weekly:");
    reveal_strlit("weekly");
    reveal_strlit("daily");
    reveal_strlit(":");
    let weekly = "weekly:"@ + word + ":"@ + shown;
    text::lemma_position(weekly, ':', 6);
    assert(weekly.take(6) =~= "weekly"@);
    let rest = word + ":"@ + shown;
    assert(weekly.skip(7) =~= rest);
    assert forall|i: int| 0 <= i < word.len() implies rest[i] != ':' by {
        assert(rest[i] == word[i]);
    }
    text::lemma_position(rest, ':', word.len() as int);
    assert(rest.take(word.len() as int) =~= word);
    assert(rest.skip(word.len() as int + 1) =~= shown);
    assert("daily"@.len() != "weekly"@.len());
}

/// A `--schedule` of an interval in hours or minutes is read as the interval.
pub proof fn an_interval_argument_is_read(count: Seq<char>, unit: char)
    requires
        unit == 'h' || unit == 'm',
    ensures
        match interval_of(count + seq![unit]) {
            Ok(every) => schedule_of("every:"@ + count + seq![unit]) == Ok::<Schedule, Seq<char>>(
                Schedule::Every(every),
            ),
            Err(_) => schedule_of("every:"@ + count + seq![unit]) is Err,
        },
{
    reveal_strlit("every:");
    reveal_strlit("every");
    reveal_strlit("weekly");
    reveal_strlit("daily");
    let every = "every:"@ + count + seq![unit];
    text::lemma_position(every, ':', 5);
    assert(every.take(5) =~= "every"@);
    assert(every.skip(6) =~= count + seq![unit]);
    assert("daily"@[0] != "every"@[0]);
    assert("weekly"@.len() != "every"@.len());
}

proof fn lemma_word_is_plain(day: Weekday)
    ensures
        forall|i: int| 0 <= i < day.word().len() ==> #[trigger] day.word()[i] != ':',
{
    reveal_strlit("sunday");
    reveal_strlit("monday");
    reveal_strlit("tuesday");
    reveal_strlit("wednesday");
    reveal_strlit("thursday");
    reveal_strlit("friday");
    reveal_strlit("saturday");
}

/// A run is due a day after the last where the schedule is daily, seven days after it where it is
/// weekly, and its own interval after it otherwise; six hours past that it is late.
pub proof fn a_run_is_late_six_hours_past_due(schedule: Schedule, last: i64, now: i64)
    requires
        0 <= last <= now,
    ensures
        ({
            let day = 24 * 60 * 60;
            let gone = now - last;
            match schedule {
                Schedule::Daily { .. } => overdue_spec(schedule, Some(last), now) is Some == (gone
                    > day + 6 * 60 * 60),
                Schedule::Weekly { .. } => overdue_spec(schedule, Some(last), now) is Some == (gone
                    > 7 * day + 6 * 60 * 60),
                Schedule::Every(every) => overdue_spec(schedule, Some(last), now) is Some == (gone
                    > every.secs + 6 * 60 * 60),
            }
        }),
{
}

} // verus!
