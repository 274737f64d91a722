//! Windows Task Scheduler: definitions written, read back and registered.

use tycho::config::schedule::{Duration, Schedule, TimeOfDay, Weekday};
use tycho::platform::schtasks::{
    backup_definition, catchup_definition, decode, definition_path, deregister, deregister_call,
    encode, escape, is_countable, probe_definition, register, register_call, scheduled_in,
    scheduled_in_any, state, state_call, task_name, TaskError,
};
use tycho::platform::{Agent, Ended, Job, Loaded};
use tycho::primitives::path::{AbsPath, Vars};
use tycho::process::{Output, RunError};

fn at(path: &str) -> AbsPath {
    AbsPath::from_absolute(path.as_bytes()).expect("absolute")
}

fn ended(success: bool, stdout: &str, stderr: &str) -> Output {
    Output {
        success,
        stdout: stdout.as_bytes().to_vec(),
        stderr: stderr.as_bytes().to_vec(),
    }
}

fn demo() -> Agent {
    Agent::Backup("demo".to_owned())
}

fn written(schedule: Schedule) -> String {
    let (agent, program, logs) = (demo(), at("/Program Files/tycho & co"), at("/logs"));
    let job = Job {
        agent: &agent,
        program: &program,
        arguments: vec!["run".to_owned(), "<demo>".to_owned()],
        log_dir: &logs,
        log_stem: "demo".to_owned(),
    };
    backup_definition(&job, schedule)
}

fn every(secs: u64) -> Schedule {
    Schedule::Every(Duration { secs })
}

/// Drift between the config and what is installed can only be seen where a definition reads back.
#[test]
fn a_definition_reads_back_as_its_schedule() {
    let noon = TimeOfDay { hour: 12, minute: 0 };
    let days = [
        Weekday::Sunday,
        Weekday::Monday,
        Weekday::Tuesday,
        Weekday::Wednesday,
        Weekday::Thursday,
        Weekday::Friday,
        Weekday::Saturday,
    ];
    for day in days {
        let schedule = Schedule::Weekly { day, at: TimeOfDay { hour: 7, minute: 5 } };
        assert_eq!(scheduled_in(&written(schedule)), Some(schedule));
    }
    let daily = Schedule::Daily { at: noon };
    assert_eq!(scheduled_in(&written(daily)), Some(daily));
    assert_eq!(scheduled_in(&written(every(21_600))), Some(every(21_600)));
    assert!(is_countable(&written(every(21_600))));
}

/// Task Scheduler counts in minutes, one at least.
#[test]
fn an_interval_is_written_in_whole_minutes() {
    assert_eq!(scheduled_in_any(&written(every(90))), Some(every(60)));
    assert_eq!(scheduled_in_any(&written(every(5))), Some(every(60)));
    assert!(written(every(90)).contains("<Interval>PT1M</Interval>"));
}

#[test]
fn the_shared_agents_carry_no_schedule_to_drift_from() {
    let (agent, program, logs) = (Agent::Catchup, at("/bin/tycho"), at("/logs"));
    let job = Job {
        agent: &agent,
        program: &program,
        arguments: Vec::new(),
        log_dir: &logs,
        log_stem: "catchup".to_owned(),
    };
    assert_eq!(scheduled_in_any(&catchup_definition(&job)), None);
    assert_eq!(scheduled_in_any(&probe_definition(&job)), None);
    assert_eq!(scheduled_in_any(""), None);
}

#[test]
fn markup_in_a_path_stays_text() {
    assert_eq!(escape("a & b <c> \"d\" 'e'"), "a &amp; b &lt;c&gt; &quot;d&quot; &apos;e&apos;");
    let text = written(every(3600));
    assert!(text.contains("tycho &amp; co"));
    assert!(text.contains("&lt;demo&gt;"));
    assert!(!text.contains("<demo>"));
}

#[test]
fn a_definition_is_sixteen_bit_text_with_a_mark() {
    let bytes = encode("a\u{e9}\u{1f600}");
    assert_eq!(bytes, [0xff, 0xfe, 0x61, 0, 0xe9, 0, 0x3d, 0xd8, 0x00, 0xde]);
    assert_eq!(decode(&bytes), "a\u{e9}\u{1f600}");
    assert_eq!(decode(&[0x61, 0, 0x62, 0, 0x63]), "ab");
    assert_eq!(decode(&[0x3d, 0xd8, 0x61, 0]), "\u{fffd}a");
    assert_eq!(decode(&[0x00, 0xde]), "\u{fffd}");
}

#[test]
fn a_task_is_asked_about_by_its_name() {
    assert_eq!(task_name(&demo()), "\\Tycho\\com.coreenginex.tycho.profile.demo");
    let call = state_call(&demo());
    assert_eq!(call.args, ["/Query", "/TN", "\\Tycho\\com.coreenginex.tycho.profile.demo", "/FO", "LIST", "/V"]);
    assert_eq!(
        register_call(&demo(), &at("/d.xml")).args,
        ["/Create", "/TN", "\\Tycho\\com.coreenginex.tycho.profile.demo", "/XML", "/d.xml", "/F"]
    );
    assert_eq!(deregister_call(&demo()).args, ["/Delete", "/TN", "\\Tycho\\com.coreenginex.tycho.profile.demo", "/F"]);
    let vars = Vars { home: Some("/h".to_owned()), user: None, drives: false };
    let path = definition_path(&demo(), Some("/h"), &vars).expect("a path");
    assert!(path.ends_with(b".xml"));
}

#[test]
fn a_tasks_last_result_is_read_whatever_the_case_of_its_key() {
    let with = |text: &str| state(&ended(true, text, ""));
    let exited = |code: i32| Loaded::Yes { pid: None, last: Ended::Exit(code) };
    assert_eq!(with("TaskName: x\nlast result:   3\n"), exited(3));
    assert_eq!(with("Last Result: 0\n"), exited(0));
    assert_eq!(with("Last Result: 267011\n"), Loaded::Yes { pid: None, last: Ended::NeverRun });
    assert_eq!(with("Last Result: 99999999999\n"), exited(-1));
    assert_eq!(with("nothing\n"), Loaded::Yes { pid: None, last: Ended::NeverRun });
    assert_eq!(state(&ended(false, "", "no such task")), Loaded::No);
}

#[test]
fn a_refusal_says_what_was_refused() {
    assert!(register(&demo(), Ok(ended(true, "", ""))).is_ok());
    let refused = register(&demo(), Ok(ended(false, "", " denied \n"))).expect_err("refused");
    assert_eq!(
        refused,
        TaskError::Refused {
            action: "/Create".to_owned(),
            label: "\\Tycho\\com.coreenginex.tycho.profile.demo".to_owned(),
            detail: "denied".to_owned(),
        }
    );
    let unrun = || RunError { message: "no schtasks".to_owned() };
    assert_eq!(register(&demo(), Err(unrun())), Err(TaskError::Run(unrun())));
}

/// A task that is not there is as good as removed.
#[test]
fn removing_what_is_not_there_is_no_error() {
    let failed = || Ok(ended(false, "", "cannot find\n"));
    assert!(deregister(&demo(), failed(), Ok(Loaded::No)).is_ok());
    let there = Loaded::Yes { pid: None, last: Ended::NeverRun };
    assert!(deregister(&demo(), failed(), Ok(there)).is_err());
    assert!(deregister(&demo(), Ok(ended(true, "", "")), Ok(there)).is_ok());
}
