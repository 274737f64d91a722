//! What a clock shows of a moment, and which moment a schedule takes next.

use jiff::tz::{Offset, TimeZone};
use tycho::cli::moments::{ahead_of, ahead_seen, day, moment, stamp, stamp_seen, upcoming_of};
use tycho::cli::run::{next_run_at, next_run_of};
use tycho::config::moment::{local_day, Moment, LAST_NANO};
use tycho::config::schedule::{first_after, Duration, Schedule, TimeOfDay, Weekday};

const SECOND: i128 = 1_000_000_000;
const DAY: i128 = 86_400 * SECOND;

fn ahead_by(hours: i8) -> TimeZone {
    TimeZone::fixed(Offset::constant(hours))
}

fn utc(nanos: i128) -> Moment {
    Moment { nanos, zone: TimeZone::UTC }
}

#[test]
fn a_day_is_counted_on_the_clock_that_shows_it() {
    assert_eq!(local_day(0, 0), 0);
    assert_eq!(local_day(0, -1), -1);
    assert_eq!(local_day(-1, 0), -1);
    assert_eq!(local_day(DAY - 1, 0), 0);
    assert_eq!(local_day(DAY - SECOND, 1), 1);
    assert_eq!(local_day(-DAY, 0), -1);
    assert_eq!(local_day(-DAY - 1, 0), -2);
    assert_eq!(local_day(20_668 * DAY, -4 * 3_600), 20_667);
}

#[test]
fn the_first_moment_after_another_is_taken() {
    assert_eq!(first_after(5, &[3, 5, 9, 7]), Some(2));
    assert_eq!(first_after(9, &[3, 5, 9]), None);
    assert_eq!(first_after(0, &[]), None);
}

#[test]
fn a_schedule_looks_at_the_days_it_falls_on() {
    let at = TimeOfDay { hour: 12, minute: 0 };
    assert_eq!(
        Schedule::Daily { at }.days_to_try(20_668),
        [20_668, 20_669, 20_670, 20_671, 20_672]
    );
    // The third of August 2026 was a Monday.
    assert_eq!(Schedule::Weekly { day: Weekday::Monday, at }.days_to_try(20_668), [20_668, 20_675]);
    assert_eq!(Schedule::Weekly { day: Weekday::Sunday, at }.days_to_try(20_668), [20_674, 20_681]);
    assert_eq!(Schedule::Weekly { day: Weekday::Tuesday, at }.days_to_try(20_668), [20_669, 20_676]);
    assert_eq!(Schedule::Every(Duration::from_secs(60)).days_to_try(20_668), Vec::<i64>::new());
}

#[test]
fn the_next_run_is_strictly_after_the_moment_asked_of() {
    let zone = TimeZone::get("America/Sao_Paulo").expect("a zone whose clocks changed at midnight");
    // The night of the seventeenth of February 2018, on which that zone's clocks went back.
    let start: i128 = 1_518_897_600 * SECOND;
    for minute in 0..600 {
        let from = Moment { nanos: start + minute * 60 * SECOND, zone: zone.clone() };
        for (hour, minute) in [(0, 0), (23, 0), (23, 30), (12, 0)] {
            let at = TimeOfDay { hour, minute };
            let daily = Schedule::Daily { at }.next_after(&from).expect("next");
            assert!(daily.nanos > from.nanos);
            assert!(daily.nanos - from.nanos <= 2 * DAY);
            let weekly = Schedule::Weekly { day: Weekday::Saturday, at }.next_after(&from).expect("next");
            assert!(weekly.nanos > from.nanos);
        }
    }
}

#[test]
fn the_next_run_is_a_time_on_the_clock() {
    let noon = Schedule::Daily { at: TimeOfDay { hour: 12, minute: 0 } };
    let east = |nanos: i128| Moment { nanos, zone: ahead_by(5) };
    // Noon there is seven hours after midnight here.
    assert_eq!(noon.next_after(&east(0)).expect("next").nanos, 7 * 3_600 * SECOND);
    assert_eq!(
        noon.next_after(&east(7 * 3_600 * SECOND)).expect("next").nanos,
        DAY + 7 * 3_600 * SECOND
    );
    // The epoch's first day was a Thursday.
    let friday = Schedule::Weekly { day: Weekday::Friday, at: TimeOfDay { hour: 0, minute: 30 } };
    assert_eq!(friday.next_after(&utc(0)).expect("next").nanos, DAY + 1_800 * SECOND);
    assert!(noon.next_after(&utc(LAST_NANO)).is_err());
}

#[test]
fn a_stamp_is_what_the_clock_shows() {
    let seen = stamp_seen(DAY - SECOND, 0, 3 * DAY, 0);
    assert_eq!(seen.days_ago, Some(3));
    assert_eq!((seen.date.as_str(), seen.clock.as_str()), ("1970-01-01", "23:59"));
    let later = stamp_seen(DAY - SECOND, 3_600, 3 * DAY, -3_600);
    assert_eq!(later.days_ago, Some(1));
    assert_eq!((later.date.as_str(), later.clock.as_str()), ("1970-01-02", "00:59"));
    assert!(stamp("not a moment").is_none());
    assert_eq!(moment("not a moment"), "not a moment");
    assert_eq!(day("not a moment"), "not a moment");
    assert!(day("2001-09-09T01:46:40Z").starts_with("2001-09-"));
    assert!(moment("2001-09-09T01:46:40Z").starts_with("2001-09-"));
}

#[test]
fn a_moment_to_come_is_what_the_clock_shows() {
    let next = 2 * DAY + 12 * 3_600 * SECOND;
    let ahead = ahead_seen(0, 0, next, 0);
    assert_eq!(ahead.days, Some(2));
    assert_eq!(ahead.seconds, 216_000);
    assert_eq!(
        (ahead.weekday.as_str(), ahead.date.as_str(), ahead.clock.as_str()),
        ("Sat", "1970-01-03", "12:00")
    );
    assert_eq!(upcoming_of(&ahead), "Sat 12:00, in 2d 12h");
    let west = ahead_of(
        &Moment { nanos: 0, zone: ahead_by(-3) },
        &Moment { nanos: next, zone: ahead_by(-3) },
    );
    assert_eq!(west.days, Some(3));
    assert_eq!(upcoming_of(&west), "Sat 09:00, in 2d 12h");
}

#[test]
fn a_next_run_reads_as_it_looks_from_now() {
    let every = Schedule::Every(Duration::from_secs(6 * 3_600));
    assert_eq!(next_run_at(Some(every), &utc(0)).as_deref(), Some("today 06:00, in 6h 0m"));
    let daily = Schedule::Daily { at: TimeOfDay { hour: 0, minute: 0 } };
    assert_eq!(next_run_at(Some(daily), &utc(SECOND)).as_deref(), Some("tomorrow 00:00, in 23h 59m"));
    assert_eq!(next_run_at(None, &utc(0)), None);
    assert_eq!(next_run_at(Some(every), &utc(LAST_NANO)), None);
    assert_eq!(next_run_of(&utc(0), Ok(utc(DAY))).as_deref(), Some("tomorrow 00:00, in 1d 0h"));
    assert_eq!(next_run_of(&utc(0), every.next_after(&utc(LAST_NANO))), None);
}

/// Clocks go back from 00:01 to 23:01, so midnight passes twice.
#[test]
fn a_time_that_has_passed_on_the_next_date_is_taken_on_the_one_after() {
    let zone = TimeZone::posix("XXX3YYY,J50/0:01,J300/0:01").expect("a zone");
    let wall = |text: &str| {
        let civil = text.parse::<jiff::civil::DateTime>().expect("a civil datetime");
        zone.to_ambiguous_zoned(civil).later().expect("in range").timestamp().as_nanosecond()
    };
    // The second of two half past elevens.
    let from = Moment { nanos: wall("2026-10-26T23:30:00"), zone: zone.clone() };
    let midnight = TimeOfDay { hour: 0, minute: 0 };
    let next = Schedule::Daily { at: midnight }.next_after(&from).expect("next");
    assert_eq!(next.nanos, wall("2026-10-28T00:00:00"));
    let noon = TimeOfDay { hour: 12, minute: 0 };
    let next = Schedule::Daily { at: noon }.next_after(&from).expect("next");
    assert_eq!(next.nanos, wall("2026-10-27T12:00:00"));
}

#[test]
fn the_next_run_is_by_the_clock_of_the_moment_asked_of() {
    let noon = Schedule::Daily { at: TimeOfDay { hour: 12, minute: 0 } };
    for hours in [-8, 0, 9] {
        let from = Moment { nanos: 20_668 * DAY, zone: ahead_by(hours) };
        let next = noon.next_after(&from).expect("next");
        let shown = jiff::Timestamp::from_nanosecond(next.nanos)
            .expect("in range")
            .to_zoned(ahead_by(hours));
        assert_eq!((shown.hour(), shown.minute(), shown.second()), (12, 0, 0));
        assert!(next.nanos > from.nanos && next.nanos - from.nanos <= DAY);
    }
}
