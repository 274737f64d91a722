use tycho::config::schedule::{Duration, Schedule, TimeOfDay, Weekday};
use tycho::config::LogLevel;
use tycho::platform::launchd::{backup_plist, catchup_plist, escape, Agent, Ended, Job};
use tycho::platform::log::{path_for, Level, Log, ROTATE_AT};
use tycho::platform::notify::{
    applescript_literal, available, notified, notify, toast_script, xml_escape, NotifyError,
    Urgency,
};
use tycho::platform::{config_path, Host};
use tycho::primitives::path::{AbsPath, Vars};
use tycho::process::{Output, RunError};

fn program() -> AbsPath {
    AbsPath::from_absolute(b"/Users/someone/.cargo/bin/tycho").expect("absolute")
}

fn logs() -> AbsPath {
    AbsPath::from_absolute(b"/Users/someone/Library/Logs/tycho").expect("absolute")
}

fn job<'a>(
    agent: &'a Agent,
    arguments: &[&str],
    program: &'a AbsPath,
    log_dir: &'a AbsPath,
) -> Job<'a> {
    Job {
        agent,
        program,
        arguments: arguments.iter().map(|text| (*text).to_owned()).collect(),
        log_dir,
        log_stem: "demo".to_owned(),
    }
}

fn sunday_noon() -> Schedule {
    Schedule::Weekly {
        day: Weekday::Sunday,
        at: TimeOfDay {
            hour: 12,
            minute: 0,
        },
    }
}

/// The infix is the whole of the collision safety. `ProfileName` reserves
/// `catchup`; this proves the label construction does not undo that for a name it
/// does allow.
#[test]
fn the_profile_infix_keeps_the_two_families_disjoint() {
    let profile = Agent::Backup("catchup-work".to_owned()).label();
    assert_eq!(profile, "com.coreenginex.tycho.profile.catchup-work");
    assert_ne!(profile, Agent::Catchup.label());
    assert!(!profile.starts_with(&Agent::Catchup.label()));
}

/// Sunday is 0, confirmed against `man launchd.plist`.
#[test]
fn sunday_is_weekday_zero() {
    let agent = Agent::Backup("demo".to_owned());
    let (program, logs) = (program(), logs());
    let plist = backup_plist(&job(&agent, &["run", "demo"], &program, &logs), sunday_noon());
    assert!(
        plist.contains("<key>Weekday</key><integer>0</integer>"),
        "{plist}"
    );
    assert_eq!(Weekday::launchd(Weekday::Sunday), 0);
}

/// Both were deliberate, and both would otherwise be silently "fixed" by a later
/// edit: a backup on every login is not what a weekly schedule means, and a
/// catch-up at login probes File Providers that have not mounted yet.
#[test]
fn run_at_load_is_false_on_backup_and_absent_on_catchup() {
    let backup = Agent::Backup("demo".to_owned());
    let (program, logs) = (program(), logs());
    let plist = backup_plist(&job(&backup, &["run", "demo"], &program, &logs), sunday_noon());
    assert!(plist.contains("<key>RunAtLoad</key><false/>"), "{plist}");

    let catchup = Agent::Catchup;
    let plist = catchup_plist(&job(&catchup, &["push", "--all"], &program, &logs));
    assert!(!plist.contains("RunAtLoad"), "{plist}");
    assert!(plist.contains("<key>StartOnMount</key><true/>"), "{plist}");
}

/// launchd sends output to `/dev/null` when the path is absent, which is a
/// silent-failure surface in a tool whose thesis is that failure is loud.
#[test]
fn both_output_paths_are_set() {
    let agent = Agent::Backup("demo".to_owned());
    let (program, logs) = (program(), logs());
    let plist = backup_plist(&job(&agent, &["run", "demo"], &program, &logs), sunday_noon());
    assert!(
        plist.contains("/Library/Logs/tycho/demo.out.log"),
        "{plist}"
    );
    assert!(
        plist.contains("/Library/Logs/tycho/demo.err.log"),
        "{plist}"
    );
}

#[test]
fn an_interval_schedule_becomes_start_interval() {
    let agent = Agent::Backup("demo".to_owned());
    let (program, logs) = (program(), logs());
    let plist = backup_plist(
        &job(&agent, &["run", "demo"], &program, &logs),
        Schedule::Every(Duration::from_secs(3600)),
    );
    assert!(
        plist.contains("<key>StartInterval</key><integer>3600</integer>"),
        "{plist}"
    );
    assert!(!plist.contains("StartCalendarInterval"), "{plist}");
}

#[test]
fn xml_metacharacters_are_escaped() {
    assert_eq!(
        escape("a & b < c > d \" e ' f"),
        "a &amp; b &lt; c &gt; d &quot; e &apos; f"
    );
}

/// A path with an ampersand in it is a real path somebody has. A plist that
/// truncated at one would schedule a backup of the wrong tree at exit 0.
#[test]
fn a_hostile_argument_survives_into_the_plist() {
    let agent = Agent::Backup("demo".to_owned());
    let (program, logs) = (program(), logs());
    let plist = backup_plist(
        &job(&agent, &["run", "R&D <archive>"], &program, &logs),
        sunday_noon(),
    );
    assert!(
        plist.contains("<string>R&amp;D &lt;archive&gt;</string>"),
        "{plist}"
    );
    assert!(!plist.contains("R&D"), "the raw ampersand must not survive");
}

#[test]
fn a_wait_status_is_decoded_as_the_shell_does() {
    assert_eq!(Ended::from_wait_status(256), Ended::Exit(1));
    assert_eq!(Ended::from_wait_status(0), Ended::Exit(0));
    assert_eq!(Ended::from_wait_status(9), Ended::Signal(9));
    assert_eq!(Ended::Exit(1).text(), "exit 1");
    assert_eq!(Ended::Signal(9).text(), "killed 9");
}

fn log(threshold: Level) -> Log {
    Log::at(b"/tmp/demo.log".to_vec(), threshold)
}

#[test]
fn a_line_carries_a_stamp_and_a_level() {
    let text = log(Level::Info)
        .write_now(Level::Warn, "a remote is behind")
        .expect("above the threshold");
    assert!(text.contains("warn "), "{text}");
    assert!(text.contains("a remote is behind"), "{text}");
    assert!(text.starts_with("20"), "the stamp comes first: {text}");
    assert_eq!(
        log(Level::Info).write(Level::Warn, "m", "2026-10-19 12:00:00").as_deref(),
        Some("2026-10-19 12:00:00 warn  m\n")
    );
}

#[test]
fn a_level_below_the_threshold_is_not_written() {
    let log = log(Level::Warn);
    assert_eq!(log.write_now(Level::Debug, "chatter"), None);
    let text = log
        .write_now(Level::Error, "the thing that matters")
        .expect("an error is written");
    assert!(text.contains("the thing that matters"), "{text}");
}

#[test]
fn the_file_rotates_once_past_its_size() {
    let log = log(Level::Info);
    assert!(Log::rotates(ROTATE_AT));
    assert!(!Log::rotates(ROTATE_AT - 1));
    assert_eq!(log.rotated(), b"/tmp/demo.log.1", "one generation kept");
    let text = log
        .write_now(Level::Info, "the line that rotates it")
        .expect("written");
    assert!(text.contains("the line that rotates it"));
    assert!(text.len() < 200);
}

#[test]
fn the_log_is_named_for_its_profile() {
    let vars = Vars {
        home: None,
        user: None,
        drives: false,
    };
    assert_eq!(
        path_for("demo", Host::MacOs, Some("/Users/me"), &vars).expect("a home"),
        b"/Users/me/Library/Logs/tycho/demo.log"
    );
    let open = Log::open(
        "demo",
        Level::from_config(LogLevel::Debug),
        Host::MacOs,
        Some("/Users/me"),
        &vars,
    )
    .expect("a home");
    assert_eq!(open.path(), b"/Users/me/Library/Logs/tycho/demo.log");
    assert!(Log::open("demo", Level::Info, Host::MacOs, None, &vars).is_err());
    assert!(config_path(None, &vars).is_err());
}

/// Both parsers, in the order the text meets them.
#[test]
fn a_hostile_body_survives_xml_and_then_powershell() {
    let script = toast_script("Tycho: backup failed", "remote 't7' & <drive> failed");
    // XML first: nothing that could close an element is left as itself.
    assert!(script.contains("&amp;"), "{script}");
    assert!(script.contains("&lt;drive&gt;"), "{script}");
    // Then PowerShell: the apostrophes XML turned into `&apos;` are gone, and the
    // literal's own quotes are the only bare ones left.
    assert!(!script.contains("'t7'"), "{script}");
    assert_eq!(
        script.matches("&apos;").count(),
        2,
        "both quotes became entities: {script}"
    );
}

#[test]
fn a_control_character_cannot_reach_the_document() {
    assert_eq!(xml_escape("a\u{1}b"), "a b");
    assert_eq!(
        xml_escape("keeps\tthe\nallowed\rones"),
        "keeps\tthe\nallowed\rones"
    );
}

/// A body carrying a quote would otherwise end the AppleScript literal early and
/// turn the remainder into script. Remote names and paths reach this text.
#[test]
fn the_escape_rule_is_what_applescript_actually_accepts() {
    assert_eq!(applescript_literal(r#"say "hi""#), r#"say \"hi\""#);
    assert_eq!(applescript_literal(r"C:\path"), r"C:\\path");
}

#[test]
fn each_urgency_says_something_different() {
    let titles = [Urgency::Failure, Urgency::Warning, Urgency::Info];
    let mut seen: Vec<&str> = titles.iter().map(|u| u.title()).collect();
    seen.sort_unstable();
    seen.dedup();
    assert_eq!(seen.len(), 3, "a banner is read as words, not as a level");
}

#[test]
fn a_notification_goes_through_the_scripting_host() {
    let call = notify(Host::MacOs, Urgency::Info, "a \"b\"").expect("macOS has one");
    assert_eq!(call.program, "osascript");
    assert_eq!(
        call.args,
        ["-e", "display notification \"a \\\"b\\\"\" with title \"Tycho\""]
    );
    let call = notify(Host::Windows, Urgency::Info, "b").expect("Windows has one");
    assert_eq!(call.program, "powershell");
    assert_eq!(call.args[3], toast_script("Tycho", "b"));
    assert_eq!(
        notify(Host::Other, Urgency::Info, "b"),
        Err(NotifyError::Unsupported)
    );
    assert!(available(Host::Other).is_none());
    assert_eq!(available(Host::MacOs).map(|c| c.args), Some(vec!["-e".to_owned(), "return 1".to_owned()]));
}

#[test]
fn a_refused_notification_says_who_refused_it() {
    let refused = Output {
        success: false,
        stdout: Vec::new(),
        stderr: b" nope \n".to_vec(),
    };
    let error = notified(Host::MacOs, Ok(refused)).expect_err("refused");
    assert_eq!(error.text(), "osascript rejected the notification: nope");
    let unrun = RunError {
        message: "gone".to_owned(),
    };
    assert_eq!(
        notified(Host::Windows, Err(unrun)).expect_err("not run").text(),
        "gone"
    );
    assert_eq!(notified(Host::Other, Err(RunError { message: String::new() })), Err(NotifyError::Unsupported));
}

/// The whole of the toast is one PowerShell script, and an interpreter that ran it to its end
/// has accepted it.
#[test]
fn a_toast_is_accepted_by_windows() {
    let body = "tycho self-test: this banner came from the test suite";
    let call = notify(Host::Windows, Urgency::Info, body).expect("Windows has one");
    assert!(call.args[3].contains(body), "{}", call.args[3]);
    let ran = Output { success: true, stdout: Vec::new(), stderr: Vec::new() };
    assert!(notified(Host::Windows, Ok(ran)).is_ok(), "Windows accepted the toast");
}

/// So that the test above means something: a document Windows will not parse
/// comes back as an error rather than as silence.
#[test]
fn a_document_windows_rejects_is_reported() {
    let refused = Output {
        success: false,
        stdout: Vec::new(),
        stderr: b"Exception calling \"LoadXml\"\n".to_vec(),
    };
    assert_eq!(
        notified(Host::Windows, Ok(refused)),
        Err(NotifyError::Rejected(
            "powershell".to_owned(),
            "Exception calling \"LoadXml\"".to_owned()
        )),
        "a malformed toast must not pass for a sent one"
    );
}
