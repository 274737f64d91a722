use jiff::tz::TimeZone;
use jiff::{Span, Zoned};
use tycho::config::local::{self, LocalRuleError, LocalRules, RawLocal, Spanned};
use tycho::config::moment::{Moment, LAST_NANO};
use tycho::config::schedule::{
    grace, parse_interval, Duration, Schedule, TimeOfDay, Weekday,
};
use tycho::primitives::path::AbsPath;

fn zoned(text: &str) -> Zoned {
    let tz = TimeZone::get("America/Toronto").expect("a zone with DST");
    text.parse::<jiff::civil::DateTime>()
        .expect("a civil datetime")
        .to_zoned(tz)
        .expect("no gap")
}

fn moment(zoned: &Zoned) -> Moment {
    Moment { nanos: zoned.timestamp().as_nanosecond(), zone: zoned.time_zone().clone() }
}

fn at(text: &str) -> Moment {
    moment(&zoned(text))
}

fn clock(moment: &Moment) -> Zoned {
    jiff::Timestamp::from_nanosecond(moment.nanos).expect("in range").to_zoned(moment.zone.clone())
}

fn noon() -> TimeOfDay {
    TimeOfDay {
        hour: 12,
        minute: 0,
    }
}

#[test]
fn daily_takes_today_if_it_has_not_passed_and_tomorrow_otherwise() {
    let daily = Schedule::Daily { at: noon() };
    let next = daily.next_after(&at("2026-08-03T09:00:00")).expect("next");
    assert_eq!(clock(&next).strftime("%F %H:%M").to_string(), "2026-08-03 12:00");

    let next = daily.next_after(&at("2026-08-03T12:00:00")).expect("next");
    assert_eq!(
        clock(&next).strftime("%F %H:%M").to_string(),
        "2026-08-04 12:00",
        "the boundary is strictly after, or a run would re-fire on itself"
    );
}

#[test]
fn weekly_finds_the_named_day() {
    let weekly = Schedule::Weekly {
        day: Weekday::Sunday,
        at: noon(),
    };
    let next = weekly.next_after(&at("2026-08-03T09:00:00")).expect("next");
    assert_eq!(
        clock(&next).strftime("%a %F %H:%M").to_string(),
        "Sun 2026-08-09 12:00"
    );
}

/// Today is the named day and the time has gone, so the answer is a week out
/// rather than a few hours ago.
#[test]
fn weekly_on_its_own_day_after_the_hour_goes_a_full_week_out() {
    let weekly = Schedule::Weekly {
        day: Weekday::Sunday,
        at: noon(),
    };
    let next = weekly.next_after(&at("2026-08-09T14:00:00")).expect("next");
    assert_eq!(clock(&next).strftime("%F %H:%M").to_string(), "2026-08-16 12:00");
}

/// The whole reason this is zoned arithmetic. Toronto springs forward at 02:00 on
/// 2027-03-14, so the gap between two consecutive 12:00 runs is 23 hours - and a
/// schedule that added 86,400 seconds would drift the run to 13:00 and stay there.
#[test]
fn a_wall_clock_schedule_holds_its_hour_across_a_dst_boundary() {
    let daily = Schedule::Daily { at: noon() };
    let before = at("2027-03-13T12:00:01");
    let next = daily.next_after(&before).expect("next");

    assert_eq!(clock(&next).strftime("%F %H:%M").to_string(), "2027-03-14 12:00");
    let elapsed = &clock(&next) - &clock(&before);
    assert_eq!(elapsed.get_hours(), 22, "23 hours, less the one second");
}

/// `Every` is the opposite promise: an elapsed duration, which does not hold its
/// wall-clock hour and is not meant to.
#[test]
fn an_interval_counts_elapsed_time_not_wall_clock() {
    let every = Schedule::Every(parse_interval("24h").expect("24h"));
    let before = at("2027-03-13T12:00:00");
    let next = every.next_after(&before).expect("next");

    assert_eq!(clock(&next).strftime("%F %H:%M").to_string(), "2027-03-14 13:00");
}

/// An interval is exactly that much later, and there is none past the calendar's end.
#[test]
fn an_interval_is_added_to_the_nanosecond() {
    let every = Schedule::Every(Duration::from_secs(90));
    let mut from = at("2026-08-03T09:00:00");
    from.nanos += 7;
    let next = every.next_after(&from).expect("next");
    assert_eq!(next.nanos - from.nanos, 90_000_000_000);
    from.nanos = LAST_NANO - 90_000_000_000;
    assert_eq!(every.next_after(&from).expect("the last").nanos, LAST_NANO);
    from.nanos += 1;
    assert!(every.next_after(&from).is_err());
}

/// What is left over of a second is dropped, before the epoch as after it.
#[test]
fn a_moment_counts_whole_seconds() {
    let mut moment = at("2026-08-03T09:00:00");
    for (nanos, second) in [(5_999_999_999, 5), (0, 0), (-1, 0), (-5_999_999_999, -5)] {
        moment.nanos = nanos;
        assert_eq!(moment.as_second(), second);
        assert_eq!(clock(&moment).timestamp().as_second(), second);
    }
}

#[test]
fn config_daily_parses_the_time_of_day() {
    assert_eq!(
        "daily:12:30".parse::<Schedule>().expect("parses"),
        Schedule::Daily {
            at: TimeOfDay {
                hour: 12,
                minute: 30
            }
        }
    );
}

#[test]
fn config_weekly_parses_the_day_and_time() {
    assert_eq!(
        "weekly:sunday:09:00".parse::<Schedule>().expect("parses"),
        Schedule::Weekly {
            day: Weekday::Sunday,
            at: TimeOfDay { hour: 9, minute: 0 }
        }
    );
}

#[test]
fn config_every_accepts_hours_and_minutes_only() {
    assert_eq!(
        "every:6h".parse::<Schedule>().expect("parses"),
        Schedule::Every(Duration::from_secs(6 * 3_600))
    );
    assert_eq!(
        "every:30m".parse::<Schedule>().expect("parses"),
        Schedule::Every(Duration::from_secs(30 * 60))
    );
}

#[test]
fn config_every_rejects_units_outside_the_documented_grammar() {
    assert!("every:6s".parse::<Schedule>().is_err());
    assert!("every:2d".parse::<Schedule>().is_err());
}

#[test]
fn config_an_unrecognised_shape_names_every_accepted_form() {
    let error = "hourly:12:00".parse::<Schedule>().expect_err("rejected");
    assert!(error.contains("daily:HH:MM"), "{error}");
    assert!(error.contains("every:<N>m"), "{error}");

    assert!("nonsense".parse::<Schedule>().is_err());
    assert!("weekly:sunday".parse::<Schedule>().is_err());
}

fn now() -> Moment {
    at("2026-11-08T14:30:00")
}

fn ago(span: Span) -> Moment {
    moment(&clock(&now()).checked_sub(span).expect("in range"))
}

fn weekly() -> Schedule {
    Schedule::Weekly {
        day: Weekday::Sunday,
        at: noon(),
    }
}

#[test]
fn a_run_inside_the_interval_is_not_overdue() {
    let last = ago(Span::new().days(3));
    assert_eq!(weekly().overdue_by(Some(&last), &now()), None);
}

/// A run does not start at exactly the scheduled second: launchd coalesces, the
/// machine wakes late, a previous run holds the lock. Grace is what separates
/// "ran a bit late" from "did not run".
#[test]
fn a_run_inside_the_grace_period_is_not_overdue() {
    let last = ago(Span::new().days(7).hours(5));
    assert_eq!(weekly().overdue_by(Some(&last), &now()), None);
}

/// The case the whole check exists for: a Mac shut down over a weekend, which
/// `man launchd.plist` promises nothing about.
#[test]
fn a_run_past_the_grace_period_is_overdue_and_says_by_how_much() {
    let last = ago(Span::new().days(9));
    let over = weekly()
        .overdue_by(Some(&last), &now())
        .expect("two days past the grace period");
    assert!(over.as_secs() > 86_400, "{over:?}");
}

/// "No backup has ever worked" is the loudest thing this tool can have to say, so
/// it is overdue from the moment it is configured.
#[test]
fn a_profile_that_has_never_run_is_overdue_immediately() {
    assert_eq!(weekly().overdue_by(None, &now()), Some(weekly().interval()));
}

#[test]
fn each_schedule_shape_carries_its_own_interval() {
    assert_eq!(weekly().interval().as_secs(), 7 * 86_400);
    assert_eq!(
        Schedule::Daily {
            at: TimeOfDay { hour: 1, minute: 0 }
        }
        .interval()
        .as_secs(),
        86_400
    );
    assert_eq!(
        Schedule::Every(Duration::from_secs(900))
            .interval()
            .as_secs(),
        900
    );
}

/// An hourly catch-up must not be called overdue after ninety minutes, or the
/// notification fires several times a day and stops meaning anything.
#[test]
fn a_short_interval_still_gets_the_full_grace_period() {
    let hourly = Schedule::Every(Duration::from_secs(3_600));
    let last = ago(Span::new().hours(2));
    assert_eq!(hourly.overdue_by(Some(&last), &now()), None);
    assert_eq!(grace().as_secs(), 6 * 3_600);
}

const HOME: &str = "/h";

fn base() -> AbsPath {
    AbsPath::parse_with("~/A/proj", Some(HOME), |_: &str| None).expect("a valid path")
}

/// What a rule file holds, and where each value starts.
fn read(text: &str) -> Result<RawLocal, String> {
    let document = toml::de::DeTable::parse(text).map_err(|e| e.to_string())?;
    let at = |key: &str| document.get_ref().get(key);
    let list = |key: &str| -> Vec<Spanned> {
        at(key)
            .and_then(|item| item.get_ref().as_array())
            .map(|array| {
                array
                    .iter()
                    .map(|value| Spanned {
                        text: value.get_ref().as_str().unwrap_or_default().to_owned(),
                        start: value.span().start,
                    })
                    .collect()
            })
            .unwrap_or_default()
    };
    Ok(RawLocal {
        version: at("version")
            .and_then(|item| item.get_ref().as_integer())
            .and_then(|n| n.as_str().parse().ok()),
        ignore: list("ignore"),
        reinclude: list("reinclude"),
        globs: list("globs"),
        watch: at("watch").map(|item| item.span().start),
    })
}

fn parse(text: &str, base: &AbsPath) -> Result<LocalRules, LocalRuleError> {
    local::parse(text, read(text), base)
}

fn err(text: &str) -> LocalRuleError {
    parse(text, &base()).expect_err("this file is not valid")
}

fn beneath(name: &str) -> String {
    format!("{}/{name}", base().text())
}

#[test]
fn entries_resolve_against_the_declaring_directory() {
    let rules = parse(
        "version = 1\nignore = [\"datasets\", \"out/\"]\nreinclude = [\"out/keep.db\"]\n",
        &base(),
    )
    .expect("a valid file");
    assert_eq!(rules.ignore[0].path.text(), beneath("datasets"));
    assert_eq!(rules.ignore[0].line, 2);
    // The trailing slash is a gitignore habit, not a different rule.
    assert_eq!(rules.ignore[1].path.text(), beneath("out"));
    assert_eq!(rules.reinclude[0].line, 3);
    assert_eq!(rules.len(), 3);
}

#[test]
fn every_way_out_of_the_directory_is_an_error() {
    for (entry, hint) in [
        ("/etc/passwd", "relative"),
        ("~/elsewhere", "relative"),
        ("$HOME/x", "relative"),
        ("C:/x", "drive"),
        ("a\\b", "`\\`"),
        ("../sibling", "escapes"),
        ("a/../../b", "escapes"),
        ("", "declaring directory"),
        (".", "declaring directory"),
        ("a//b", "empty"),
        ("./a", "`.` component"),
    ] {
        let text = format!("version = 1\nignore = [{entry:?}]\n");
        let error = parse(&text, &base()).expect_err(entry).text();
        assert!(error.contains("line 2"), "{entry}: {error}");
        assert!(error.to_lowercase().contains(hint), "{entry}: {error}");
    }
}

#[test]
fn watch_cannot_appear() {
    let error = err("version = 1\n\nwatch = [\"anything\"]\n");
    assert!(
        matches!(error, LocalRuleError::WatchKey { line: 3 }),
        "{}",
        error.text()
    );
}

#[test]
fn the_version_is_required_and_pinned() {
    assert!(matches!(
        err("ignore = [\"a\"]\n"),
        LocalRuleError::MissingVersion
    ));
    assert!(matches!(
        err("version = 2\n"),
        LocalRuleError::WrongVersion { found: 2 }
    ));
}

#[test]
fn unknown_keys_are_carried_not_dropped() {
    let rules = parse("version = 1\nignor = [\"typo\"]\n", &base()).expect("still parses");
    assert_eq!(rules.unknown, vec!["ignor".to_owned()]);
    assert!(rules.is_empty());
}

#[test]
fn a_glob_is_checked_for_containment_too() {
    let error = err("version = 1\nglobs = [\"../*.ckpt\"]\n");
    assert!(error.text().contains("escapes"), "{}", error.text());
    let rules = parse(
        "version = 1\nglobs = [\"*.ckpt\", \"out/*.tmp\"]\n",
        &base(),
    )
    .expect("valid");
    assert_eq!(rules.globs[0].text, "*.ckpt");
    assert_eq!(rules.globs[1].line, 2);
}

#[test]
fn malformed_toml_is_an_error_not_a_permissive_default() {
    assert!(matches!(
        err("version = "),
        LocalRuleError::Malformed { .. }
    ));
}

/// A key that means nothing is not looked at before the version is known to be right.
#[test]
fn a_table_that_cannot_be_read_is_found_behind_the_version() {
    let odd = "other = 9223372036854775808\n";
    assert!(matches!(
        err(&format!("version = 2\n{odd}")),
        LocalRuleError::WrongVersion { found: 2 }
    ));
    assert!(matches!(err(odd), LocalRuleError::MissingVersion));
    assert!(matches!(
        err(&format!("version = 1\nwatch = []\n{odd}")),
        LocalRuleError::WatchKey { line: 2 }
    ));
    assert!(matches!(
        err(&format!("version = 1\nignore = [\"../x\"]\n{odd}")),
        LocalRuleError::Malformed { .. }
    ));
}

#[test]
fn the_keys_that_mean_nothing_are_left_in_order() {
    let keys = ["version", "a", "globs", "b", "watch"].map(str::to_owned).to_vec();
    assert_eq!(local::keys_left(&keys), ["a", "b"]);
    let rules = parse("version = 1\nb = 1\nignore = []\na = 2\n", &base()).expect("parses");
    assert_eq!(rules.unknown.len(), 2);
    assert!(rules.unknown.contains(&"a".to_owned()) && rules.unknown.contains(&"b".to_owned()));
}
