use tycho::config::schedule::{Duration, Schedule, TimeOfDay, Weekday};

#[test]
fn schedule_daily_parses_the_time_of_day() {
    assert_eq!(
        "daily:12:30".parse::<Schedule>().expect("parses"),
        Schedule::Daily {
            at: TimeOfDay {
                hour: 12,
                minute: 30
            }
        }
    );
}

#[test]
fn schedule_weekly_parses_the_day_and_time() {
    assert_eq!(
        "weekly:sunday:09:00".parse::<Schedule>().expect("parses"),
        Schedule::Weekly {
            day: Weekday::Sunday,
            at: TimeOfDay { hour: 9, minute: 0 }
        }
    );
}

#[test]
fn schedule_every_accepts_hours_and_minutes_only() {
    assert_eq!(
        "every:6h".parse::<Schedule>().expect("parses"),
        Schedule::Every(Duration::from_secs(6 * 3_600))
    );
    assert_eq!(
        "every:30m".parse::<Schedule>().expect("parses"),
        Schedule::Every(Duration::from_secs(30 * 60))
    );
}

#[test]
fn schedule_every_rejects_units_outside_the_documented_grammar() {
    assert!("every:6s".parse::<Schedule>().is_err());
    assert!("every:2d".parse::<Schedule>().is_err());
}

#[test]
fn schedule_an_unrecognised_shape_names_every_accepted_form() {
    let error = "hourly:12:00".parse::<Schedule>().expect_err("rejected");
    assert!(error.contains("daily:HH:MM"), "{error}");
    assert!(error.contains("every:<N>m"), "{error}");

    assert!("nonsense".parse::<Schedule>().is_err());
    assert!("weekly:sunday".parse::<Schedule>().is_err());
}

#[test]
fn a_time_and_a_day_read_back_as_they_are_written() {
    for (hour, minute, text) in [(0, 0, "00:00"), (7, 5, "07:05"), (23, 59, "23:59")] {
        let at = TimeOfDay { hour, minute };
        assert_eq!(at.text(), text);
        assert_eq!(TimeOfDay::parse(text), Ok(at));
    }
    for day in [Weekday::Sunday, Weekday::Tuesday, Weekday::Thursday, Weekday::Saturday] {
        assert_eq!(Weekday::parse(day.as_str()), Ok(day));
    }
    assert_eq!(Weekday::parse("WEDNESDAY"), Ok(Weekday::Wednesday));
}
