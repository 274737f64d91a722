use tycho::config::raw::{RawConfig, RawSettings, VersionProbe};
use tycho::config::check::DiagnosticKind;
use tycho::config::parse_with;
use tycho::config::schedule::{Duration, Schedule, TimeOfDay, Weekday};
use tycho::config_edit::{
    every_spec, preview_profile, starter, EditError, Editing, List, NewProfile, NewRemote,
};
use tycho::primitives::path::Vars;

const HOME: &str = "/home/me";

const REMOTE: &str = "/Volumes/Drive/Backups";

fn home(rest: &str) -> String {
    format!("{HOME}{rest}")
}

fn with_comments() -> String {
    format!(
        r#"# the whole file's heading
version = 1

[[profile]]
name = "demo"

# why these roots and not others
watch = [
  # the important one
  "{HOME}/A",
  "{HOME}/B", # trailing note
]
"#
    )
}

fn open(text: &str) -> Editing {
    Editing::open("tycho.toml", Ok(text.to_owned())).expect("parse")
}

/// The reason the file is edited in place. A command that lost these would make the
/// file worse every time it was used.
#[test]
fn adding_a_root_keeps_every_comment() {
    let mut editing = open(&with_comments());
    assert_eq!(editing.add(0, List::Watch, &home("/C")), Ok(true));

    let text = editing.text();
    for comment in [
        "# the whole file's heading",
        "# why these roots and not others",
        "# the important one",
        "# trailing note",
    ] {
        assert!(text.contains(comment), "{comment} was lost:\n{text}");
    }
    assert!(text.contains(&home("/C")), "{text}");
}

/// And the file it produces has to still parse, or the next command cannot read
/// what this one wrote.
#[test]
fn the_edited_file_is_still_valid_toml_and_still_a_config() {
    let mut editing = open(&with_comments());
    editing.add(0, List::Watch, &home("/C")).expect("add");
    editing.add(0, List::Ignore, "*.tmp").expect("add");

    let table = editing.text().parse::<toml::Table>().expect("still valid TOML");
    let profile = table["profile"][0].as_table().expect("the profile survived");
    assert_eq!(profile["watch"].as_array().map(Vec::len), Some(3));
    assert_eq!(profile["ignore"][0].as_str(), Some("*.tmp"));

    let again = open(&editing.text());
    assert_eq!(again.entries(0, List::Watch).len(), 3);
    assert_eq!(again.entries(0, List::Ignore), ["*.tmp"]);
}

#[test]
fn adding_something_already_there_changes_nothing() {
    let mut editing = open(&with_comments());
    let before = editing.text();
    assert_eq!(editing.add(0, List::Watch, &home("/A")), Ok(false));
    assert_eq!(editing.text(), before);
}

#[test]
fn removing_a_root_leaves_the_rest_alone() {
    let mut editing = open(&with_comments());
    editing.remove(0, List::Watch, &home("/B")).expect("remove");

    let text = editing.text();
    assert!(!text.contains(&home("/B")), "{text}");
    assert!(text.contains(&home("/A")), "{text}");
    assert!(text.contains("# why these roots and not others"), "{text}");
    assert!(text.contains("# the important one"), "{text}");
}

#[test]
fn removing_something_absent_says_so_rather_than_succeeding_quietly() {
    let mut editing = open(&with_comments());
    let error = editing
        .remove(0, List::Watch, &home("/never"))
        .expect_err("not in the list");
    assert!(error.text().contains(&home("/never")), "{}", error.text());
}

/// A hand-written config may have no `reinclude` key at all, and adding one must
/// not be an error.
#[test]
fn a_missing_list_is_created() {
    let mut editing = open(&with_comments());
    assert_eq!(editing.add(0, List::Reinclude, &home("/A/keep")), Ok(true));
    assert_eq!(
        editing.entries(0, List::Reinclude),
        [home("/A/keep")],
        "{}",
        editing.text()
    );
}

#[test]
fn one_profile_needs_no_name_and_two_do() {
    let one = open(&with_comments());
    assert_eq!(one.which(None), Ok(0));

    let two = format!(
        "{}\n[[profile]]\nname = \"work\"\nwatch = []\n",
        with_comments()
    );
    let editing = open(&two);
    assert_eq!(editing.profiles(), ["demo", "work"]);
    assert_eq!(editing.which(Some("work")), Ok(1));
    assert_eq!(
        editing.which(None),
        Err(EditError::Ambiguous("demo, work".to_owned())),
        "ambiguous must not guess"
    );
    assert_eq!(
        editing.which(Some("ghost")),
        Err(EditError::NoProfile("ghost".to_owned()))
    );
    assert_eq!(open("version = 1\n").which(None), Err(EditError::NoProfiles));
}

/// The starter names no particular machine.
#[test]
fn the_starter_bakes_in_no_home_directory() {
    let text = starter();
    assert!(!text.contains("/Users/"), "{text}");
    assert!(!text.contains("/home/"), "{text}");
    assert!(!text.contains("C:\\"), "{text}");
    assert!(
        text.contains("~/Documents"),
        "the examples still show a path"
    );
}

/// The starter defines nothing and says exactly that.
#[test]
fn the_starter_file_parses_and_reports_only_that_it_has_no_profiles() {
    let text = starter();
    let table = text.parse::<toml::Table>().expect("valid TOML");
    assert_eq!(table.keys().collect::<Vec<_>>(), ["version"]);
    let version = table["version"].as_integer().and_then(|n| u32::try_from(n).ok());

    let parsed = parse_with(
        Ok(VersionProbe { version }),
        Ok(RawConfig {
            version,
            settings: RawSettings {
                log_level: None,
                unknown: Vec::new(),
            },
            profile: Vec::new(),
            unknown: Vec::new(),
        }),
        Some(HOME),
        &Vars {
            home: None,
            user: None,
            drives: false,
        },
    )
    .expect("valid TOML");
    let kinds: Vec<_> = parsed
        .diagnostics
        .iter()
        .map(|item| item.kind.clone())
        .collect();
    assert_eq!(
        kinds,
        vec![DiagnosticKind::NoProfiles],
        "{:#?}",
        parsed.diagnostics
    );
}

/// The command the starter's own hint tells a new user to run has to work against
/// the file the starter just wrote, from zero profiles.
#[test]
fn a_profile_can_be_added_to_the_starter_file() {
    let mut editing = open(&starter());
    assert!(editing.profiles().is_empty(), "the starter defines none");
    editing
        .add_profile(&NewProfile {
            name: "me".to_owned(),
            watch: vec![home("/Documents")],
            remotes: vec![new_remote("drive", REMOTE)],
            schedule: None,
            local_only: false,
        })
        .expect("add to a file with no profile array at all");
    assert_eq!(editing.profiles(), ["me"]);
}

fn new_remote(name: &str, path: &str) -> NewRemote {
    NewRemote {
        name: name.to_owned(),
        path: path.to_owned(),
        optional: false,
        trust_ownership: false,
        behind_tolerance: None,
    }
}

#[test]
fn a_new_profile_appends_a_table_that_still_parses() {
    let mut editing = open(&with_comments());
    editing
        .add_profile(&NewProfile {
            name: "work".to_owned(),
            watch: vec![home("/Work")],
            remotes: vec![new_remote("drive", REMOTE)],
            schedule: Some(Schedule::Daily {
                at: TimeOfDay {
                    hour: 12,
                    minute: 0,
                },
            }),
            local_only: false,
        })
        .expect("add profile");

    assert_eq!(editing.profiles(), ["demo", "work"]);
    let table = editing.text().parse::<toml::Table>().expect("still valid TOML");
    let work = &table["profile"][1];
    assert_eq!(work["name"].as_str(), Some("work"), "the new profile survived");
    assert_eq!(work["watch"].as_array().map(Vec::len), Some(1));
    assert_eq!(work["remotes"].as_array().map(Vec::len), Some(1));
    assert_eq!(work["remotes"][0]["name"].as_str(), Some("drive"));
    assert_eq!(work["schedule"]["daily"]["at"].as_str(), Some("12:00"));
}

#[test]
fn removing_a_profile_leaves_the_others_untouched() {
    let two = format!(
        "{}\n[[profile]]\nname = \"work\"\nwatch = []\n",
        with_comments()
    );
    let mut editing = open(&two);
    editing.remove_profile(0).expect("remove");
    assert_eq!(editing.profiles(), ["work"]);
    assert_eq!(
        editing.remove_profile(1),
        Err(EditError::NoProfile("1".to_owned()))
    );
}

#[test]
fn a_remote_round_trips_through_add_and_list() {
    let mut editing = open(&with_comments());
    editing
        .add_remote(
            0,
            &NewRemote {
                name: "drive".to_owned(),
                path: REMOTE.to_owned(),
                optional: true,
                trust_ownership: true,
                behind_tolerance: Some(2),
            },
        )
        .expect("add remote");

    let remotes = editing.remotes(0);
    assert_eq!(remotes.len(), 1);
    assert_eq!(remotes[0].name, "drive");
    assert_eq!(remotes[0].path, REMOTE);
    assert!(remotes[0].optional);
    assert!(remotes[0].trust_ownership);
    assert_eq!(remotes[0].behind_tolerance, Some(2));

    editing.remove_remote(0, "drive").expect("remove remote");
    assert!(editing.remotes(0).is_empty());
}

#[test]
fn removing_an_absent_remote_says_so() {
    let mut editing = open(&with_comments());
    let error = editing
        .remove_remote(0, "ghost")
        .expect_err("not configured");
    assert!(error.text().contains("ghost"), "{}", error.text());
}

#[test]
fn a_schedule_can_be_set_and_cleared() {
    let mut editing = open(&with_comments());
    assert!(!editing.has_schedule(0));

    editing
        .set_schedule(0, Schedule::Every(Duration::from_secs(21_600)))
        .expect("set schedule");
    assert!(editing.has_schedule(0));
    assert!(
        editing.text().contains("every = \"6h\""),
        "{}",
        editing.text()
    );

    editing.clear_schedule(0).expect("clear schedule");
    assert!(!editing.has_schedule(0));
}

#[test]
fn a_weekly_schedule_writes_the_lowercase_day() {
    let mut editing = open(&with_comments());
    editing
        .set_schedule(
            0,
            Schedule::Weekly {
                day: Weekday::Sunday,
                at: TimeOfDay {
                    hour: 12,
                    minute: 0,
                },
            },
        )
        .expect("set schedule");
    assert!(
        editing.text().contains(r#"day = "sunday""#),
        "{}",
        editing.text()
    );
}

#[test]
fn local_only_is_written_and_removed_rather_than_ever_written_false() {
    let mut editing = open(&with_comments());
    editing.set_local_only(0, true).expect("set");
    assert!(editing.is_local_only(0));
    assert!(
        editing.text().contains("local_only = true"),
        "{}",
        editing.text()
    );

    editing.set_local_only(0, false).expect("clear");
    assert!(!editing.is_local_only(0));
    assert!(!editing.text().contains("local_only"), "{}", editing.text());
}

#[test]
fn a_dry_run_preview_matches_what_add_profile_would_write() {
    let new = NewProfile {
        name: "work".to_owned(),
        watch: vec![home("/Work")],
        remotes: vec![],
        schedule: None,
        local_only: true,
    };
    let preview = preview_profile(&new);
    assert!(preview.contains("[[profile]]"), "{preview}");
    assert!(preview.contains("name = \"work\""), "{preview}");
    assert!(preview.contains("local_only = true"), "{preview}");
    assert!(preview.contains("watch = [\n  \"/home/me/Work\",\n]"), "{preview}");
}

#[test]
fn an_interval_is_written_in_the_largest_of_two_units() {
    assert_eq!(every_spec(Duration::from_secs(21_600)), "6h");
    assert_eq!(every_spec(Duration::from_secs(5_400)), "90m");
    assert_eq!(every_spec(Duration::from_secs(10)), "1m");
    assert_eq!(every_spec(Duration::from_secs(0)), "1m");
}

#[test]
fn a_file_that_cannot_be_opened_says_why() {
    let unread = Editing::open("/c.toml", Err("denied".to_owned())).expect_err("unread");
    assert_eq!(unread.text(), "reading /c.toml: denied");
    let malformed = Editing::open("/c.toml", Ok("version = ".to_owned())).expect_err("no TOML");
    assert!(
        malformed.text().starts_with("/c.toml is not readable as TOML: "),
        "{}",
        malformed.text()
    );
    let editing = open("version = 1\n");
    assert_eq!(
        editing.save(Err("full".to_owned())).expect_err("unsaved").text(),
        "writing tycho.toml: full"
    );
    assert_eq!(editing.save(Ok(())), Ok(()));
}

#[test]
fn an_edit_needs_a_profile_and_a_list() {
    let mut none = open("version = 1\n");
    assert_eq!(none.add(0, List::Watch, "x"), Err(EditError::NoProfiles));
    let mut odd = open("[[profile]]\nname = \"a\"\nwatch = \"x\"\nstore_path = \"~/s\"\n");
    assert_eq!(
        odd.add(0, List::Watch, "y"),
        Err(EditError::NotPresent {
            value: "watch".to_owned(),
            list: "an array".to_owned()
        })
    );
    assert_eq!(
        odd.add(3, List::Watch, "y"),
        Err(EditError::NoProfile("3".to_owned()))
    );
    assert_eq!(odd.store_path(0).as_deref(), Some("~/s"));
    assert_eq!(odd.store_path(3), None);
    let mut scalar = open("profile = 3\n");
    assert_eq!(
        scalar.add_profile(&NewProfile {
            name: "a".to_owned(),
            watch: vec![],
            remotes: vec![],
            schedule: None,
            local_only: true,
        }),
        Err(EditError::NoProfiles)
    );
}

/// The schedule that is written is the one that is read.
#[test]
fn a_written_schedule_is_read_out_of_the_file_again() {
    let at = TimeOfDay { hour: 7, minute: 5 };
    let wanted = [
        Schedule::Daily { at },
        Schedule::Weekly { day: Weekday::Thursday, at },
        Schedule::Every(Duration { secs: 5400 }),
        Schedule::Every(Duration { secs: 7200 }),
    ];
    for schedule in wanted {
        let mut editing = Editing::open(
            "/c.toml",
            Ok("version = 1\n\n[[profile]]\nname = \"demo\"\n".to_owned()),
        )
        .ok()
        .expect("opens");
        editing.set_schedule(0, schedule).expect("writes");
        let table: toml::Table = toml::from_str(&editing.text()).expect("parses");
        let written = &table["profile"][0]["schedule"];
        let text = |value: &toml::Value| value.as_str().expect("a text").to_owned();
        let read = match schedule {
            Schedule::Daily { .. } => format!("daily:{}", text(&written["daily"]["at"])),
            Schedule::Weekly { .. } => format!(
                "weekly:{}:{}",
                text(&written["weekly"]["day"]),
                text(&written["weekly"]["at"])
            ),
            Schedule::Every(_) => format!("every:{}", text(&written["every"])),
        };
        assert_eq!(Schedule::parse(&read), Ok(schedule));
    }
}

#[test]
fn a_malformed_file_says_what_toml_says() {
    let text = "= broken";
    let said = text.parse::<toml_edit::DocumentMut>().err().expect("broken").to_string();
    let error = Editing::open("/c.toml", Ok(text.to_owned())).err().expect("broken");
    assert_eq!(error, EditError::Malformed { path: "/c.toml".to_owned(), source: said.clone() });
    assert_eq!(error.text(), format!("/c.toml is not readable as TOML: {said}"));
}

#[test]
fn an_entry_is_added_on_a_line_of_its_own_and_removed_with_its_comment() {
    let before = "[[profile]]\nname = \"a\"\nwatch = [\n  # why\n  \"x\",\n  \"z\",\n]\n";
    let mut editing = open(before);
    assert_eq!(editing.add(0, List::Watch, "y"), Ok(true));
    assert_eq!(
        editing.text(),
        "[[profile]]\nname = \"a\"\nwatch = [\n  # why\n  \"x\",\n  \"z\",\n  \"y\",\n]\n"
    );
    assert_eq!(editing.add(0, List::Ignore, "*.tmp"), Ok(true));
    assert!(editing.text().ends_with("ignore = [\n  \"*.tmp\",]\n"), "{}", editing.text());
    let mut editing = open(before);
    editing.remove(0, List::Watch, "x").expect("removed");
    assert_eq!(editing.text(), "[[profile]]\nname = \"a\"\nwatch = [\n  \"z\",\n]\n");
}

#[test]
fn a_remote_and_a_schedule_are_written_as_inline_tables() {
    let mut editing = open("[[profile]]\nname = \"a\" # kept\nremotes = [\n]\n");
    let remote = NewRemote {
        name: "t7".to_owned(),
        path: "/v".to_owned(),
        optional: true,
        trust_ownership: false,
        behind_tolerance: Some(3),
    };
    editing.add_remote(0, &remote).expect("added");
    editing
        .set_schedule(0, Schedule::Every(Duration::from_secs(7_200)))
        .expect("set");
    assert_eq!(
        editing.text(),
        "[[profile]]\nname = \"a\" # kept\nremotes = [\n  { name = \"t7\", path = \"/v\", optional = true, behind_tolerance = 3 },\n]\nschedule = { every = \"2h\" }\n"
    );
    editing.set_local_only(0, true).expect("set");
    editing.remove_remote(0, "t7").expect("removed");
    editing.clear_schedule(0).expect("cleared");
    let text = editing.text();
    assert!(text.contains("# kept") && text.contains("local_only = true"), "{text}");
    assert!(!text.contains("t7") && !text.contains("schedule"), "{text}");
}
