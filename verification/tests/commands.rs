use tycho::cli::moments::Stamp;
use tycho::cli::profile::{add_profile, list, remove_profile, store_deleted, wanted_profile};
use tycho::cli::remote::{
    add_remote, check_ownership, finish, nearest_existing, open, open_editing, remove_remote,
};
use tycho::cli::render::health::{Installed, ServiceRow};
use tycho::cli::render::status::ProfileStatus;
use tycho::cli::report::Severity as Level;
use tycho::cli::rules::{
    chain_dirs, expand, explain_dispatch, left_unchanged, load_chain, local_allowed, local_echo, local_edit, no_path, overlap, overlap_accepted, overlap_said, owning_profile, print_decision, rules_file, Ruled,
};
use tycho::cli::run::{
    announce, banner, config, config_location, dry, init, init_kept, init_wrote, inspected, load,
    locations, log, newest, next_run, nothing_logged, one_push, one_run, places, push_wanted,
    reading, reading_of, report, restore, row, row_of, run, run_error, select, selected, snapshot,
    snapshot_of, state_unread, status_exit, status_profiles, summarise, tail_args, worse, worst,
    Cause, Known, ReadFault, RunError, Weighed,
};
use tycho::cli::schedule::{find, off, read, replace, show};
use tycho::cli::service::{
    allowed, install_failed, installed_once, remaining, removed, status, unseen, wanted, wanted_of,
};
use tycho::cli::{
    Exit, ProfileAddArgs, ProfileRmArgs, RemoteAddArgs, RemoteRmArgs, RuleAction, ServiceAction,
};
use tycho::config::check::{Diagnostic as Finding, DiagnosticKind, Severity};
use tycho::config::local::{self, LocalRuleError, LocalRules, RawLocal, Spanned};
use tycho::config::rules::{RuleTree, Verdict};
use tycho::config::schedule::{Duration, Schedule, TimeOfDay, Weekday};
use tycho::config::{Config, LogLevel, Parsed, Profile, Remote, WatchEntry};
use tycho::config_edit::{Editing, List, NewProfile};
use tycho::platform::launchd::{Agent, Ended, Loaded};
use tycho::platform::notify::Urgency;
use tycho::platform::Host;
use tycho::primitives::names::{ProfileName, RemoteName};
use tycho::primitives::oid::Oid;
use tycho::primitives::path::{AbsPath, Vars};
use tycho::restore::{Conflict, Done, Rebuilt};
use tycho::store::{Completed, RemoteResult, RemoteSeen, RemoteState, RunRecord, Span, Summary};

const HOME: &str = "/home/me";

fn vars() -> Vars {
    Vars { home: Some(HOME.to_owned()), user: Some("me".to_owned()), drives: false }
}

fn at(text: &str) -> AbsPath {
    AbsPath::from_absolute(text.as_bytes()).expect("a path")
}

fn profile(name: &str, roots: &[&str]) -> Profile {
    Profile {
        name: ProfileName::parse(name).expect("a name"),
        watch: roots.iter().map(|root| WatchEntry::Bare(at(root))).collect(),
        ignore_paths: Vec::new(),
        ignore_globs: Vec::new(),
        reinclude: Vec::new(),
        remotes: Vec::new(),
        schedule: None,
        use_default_ignores: false,
        store_path: None,
        local_only: true,
    }
}

fn remote(name: &str, optional: bool) -> Remote {
    Remote {
        name: RemoteName::parse(name).expect("a name"),
        path: at("/Volumes/Drive"),
        optional,
        behind_tolerance: 4,
        trust_ownership: false,
    }
}

fn holding(profiles: Vec<Profile>) -> Config {
    Config { log_level: LogLevel::Info, profiles }
}

fn parsed(profiles: Vec<Profile>, findings: &[Severity]) -> Parsed {
    Parsed {
        config: holding(profiles),
        diagnostics: findings
            .iter()
            .map(|severity| Finding {
                severity: *severity,
                profile: None,
                kind: DiagnosticKind::NoProfiles,
            })
            .collect(),
    }
}

fn seen(state: RemoteState, red: bool, yellow: bool) -> RemoteSeen {
    RemoteSeen { state, word: "word".to_owned(), red, yellow, tolerance: 4 }
}

fn result(name: &str, state: RemoteState) -> RemoteResult {
    let red = matches!(state, RemoteState::Failed { .. });
    let yellow = matches!(state, RemoteState::Behind { .. });
    RemoteResult { name: name.to_owned(), seen: seen(state, red, yellow) }
}

fn failed() -> RemoteState {
    RemoteState::Failed { at: "2026-10-19T12:00:00Z".to_owned(), reason: "locked".to_owned() }
}

fn behind() -> RemoteState {
    RemoteState::Behind { runs: 2, last_seen: "2026-10-12T12:00:00Z".to_owned() }
}

fn synced() -> RemoteState {
    RemoteState::Synced { at: "2026-10-19T12:00:00Z".to_owned() }
}

fn edited(text: &str) -> Editing {
    Editing::open("tycho.toml", Ok(text.to_owned())).expect("parses")
}

// --- run ---------------------------------------------------------------------

#[test]
fn the_worst_of_several_outcomes_is_what_is_reported() {
    assert_eq!(worse(Exit::Success, Exit::Warning), Exit::Warning);
    assert_eq!(worse(Exit::Failure, Exit::Warning), Exit::Failure);
    assert_eq!(worst(&[Exit::Success, Exit::Failure, Exit::Warning]), Exit::Failure);
    assert_eq!(worst(&[]), Exit::Success);
}

#[test]
fn the_config_is_where_it_was_said_to_be_or_at_home() {
    assert_eq!(config_location(Some(b"x.toml"), None, &vars()), Ok(b"x.toml".to_vec()));
    assert_eq!(
        config_location(None, Some(HOME), &vars()),
        Ok(b"/home/me/.config/tycho/tycho.toml".to_vec())
    );
    assert_eq!(
        config_location(None, None, &vars()),
        Err("'~' cannot be expanded: no home directory".to_owned())
    );
}

#[test]
fn a_missing_config_names_the_command_that_writes_one() {
    let missing = ReadFault { missing: true, message: "os error 2".to_owned() };
    let said = load("/c/tycho.toml", Err(missing)).expect_err("missing");
    assert_eq!(said.title(), "no config file at /c/tycho.toml");
    assert_eq!(said.recoveries()[0].cmd, "tycho config init");
    assert_eq!(said.recoveries()[1].cmd, "tycho config path");
    let denied = ReadFault { missing: false, message: "denied".to_owned() };
    assert_eq!(load("/c", Err(denied)).expect_err("denied").title(), "denied");
    assert_eq!(load("/c", Ok("text".to_owned())), Ok("text".to_owned()));
}

#[test]
fn a_profile_is_picked_by_name_or_by_being_the_only_one() {
    let one = holding(vec![profile("demo", &[])]);
    let two = holding(vec![profile("demo", &[]), profile("second", &[])]);
    let none = holding(Vec::new());
    assert_eq!(select(&one, None).expect("the only one").name.as_str(), "demo");
    assert_eq!(select(&two, Some("second")).expect("named").name.as_str(), "second");
    assert_eq!(select(&two, Some("x")).expect_err("none").title(), "no profile named 'x'");
    assert_eq!(select(&none, None).expect_err("none").title(), "the config defines no profiles");
    let many = select(&two, None).expect_err("which");
    assert_eq!(many.title(), "more than one profile matches; say which one");
    assert_eq!(many.notes(), ["configured profiles: demo, second"]);
    assert_eq!(selected(&two, None, true).expect("all").len(), 2);
    assert_eq!(selected(&two, Some("demo"), false).expect("one").len(), 1);
    assert!(selected(&none, None, true).is_err());
}

#[test]
fn a_config_with_errors_backs_nothing_up() {
    assert!(run(&parsed(Vec::new(), &[Severity::Warning]), false).is_none());
    let (page, said) = run(&parsed(Vec::new(), &[Severity::Error]), false).expect("refused");
    assert!(page.contains("the config defines no profiles"), "{page}");
    assert_eq!(said.title(), "the config has errors, so nothing was backed up");
}

#[test]
fn a_profiles_files_stand_in_the_data_directory() {
    let demo = profile("demo", &[]);
    let found = places(&demo, Host::MacOs, Some(HOME), &vars()).expect("places");
    assert_eq!(found.store.text(), "/home/me/Library/Application Support/tycho/store/demo.git");
    assert_eq!(found.state.text(), "/home/me/Library/Application Support/tycho/state.json");
    let files = locations(&demo, found, Ok(())).expect("locations");
    assert_eq!(files.lock.text(), "/home/me/Library/Application Support/tycho/demo.lock");
    let found = places(&demo, Host::MacOs, Some(HOME), &vars()).expect("places");
    let said = locations(&demo, found, Err("read-only".to_owned())).expect_err("not made");
    assert_eq!(said.title(), "read-only");
    assert!(places(&demo, Host::MacOs, None, &vars()).is_err());
}

#[test]
fn a_failed_run_says_what_helps() {
    let demo = profile("demo", &[]);
    let error = |cause| RunError { cause, message: "it stopped".to_owned() };
    let shrank = run_error(&error(Cause::RootShrank), &demo);
    assert_eq!(shrank.recoveries()[0].cmd, "tycho run --profile demo --allow-shrink");
    let held = run_error(&error(Cause::InProgress), &demo);
    assert_eq!(held.notes().len(), 1);
    let plain = run_error(&error(Cause::Other), &demo);
    assert_eq!((plain.title(), plain.notes().len()), ("it stopped", 0));
}

fn completed(found: usize, captured: usize, remotes: Vec<RemoteResult>) -> Completed {
    Completed {
        commit: Oid::parse("1a2b3c4d5e6f708192a3b4c5d6e7f80912345678").expect("an oid"),
        summary: Summary { repos_found: found, repos_captured: captured, ..Summary::default() },
        warnings: vec!["careful".to_owned()],
        remotes,
    }
}

#[test]
fn an_incomplete_backup_is_never_a_quiet_green_run() {
    let demo = profile("demo", &[]);
    let done = one_run(&demo, &completed(3, 1, Vec::new()), false);
    assert_eq!(done.exit, Exit::Warning);
    assert_eq!(done.said.len(), 2);
    assert_eq!(done.said[1].title(), "2 of 3 repositories were not captured");
    assert_eq!(done.banner, Some((Urgency::Warning, "demo finished with warnings".to_owned())));
    let done = one_run(&demo, &completed(1, 1, vec![result("t7", behind())]), false);
    assert_eq!(done.exit, Exit::Success);
    assert_eq!(done.said[1].title(), "behind 2 of 4");
    assert_eq!(done.banner, None);
    let done = one_run(&demo, &completed(1, 1, vec![result("t7", failed())]), false);
    assert_eq!(done.exit, Exit::Failure);
    assert_eq!(done.banner, Some((Urgency::Failure, "demo could not reach t7".to_owned())));
    assert_eq!(
        announce(&demo, Exit::Failure, &[]),
        Some((Urgency::Failure, "demo did not complete".to_owned()))
    );
}

#[test]
fn only_a_failed_remote_fails() {
    let (said, exit) = report(&[result("a", synced()), result("b", RemoteState::Unseen)]);
    assert_eq!((said.len(), exit), (0, Exit::Success));
    let (said, exit) = report(&[result("a", failed()), result("b", behind())]);
    assert_eq!((said.len(), exit), (2, Exit::Failure));
    assert_eq!(said[0].severity(), Level::Error);
    assert_eq!(said[1].severity(), Level::Warning);
}

#[test]
fn a_dry_run_only_warns() {
    let plan = tycho::plan::Plan { roots: Vec::new(), excluded: Vec::new() };
    let shown = dry(&plan, &["careful".to_owned()], &[], true, None, false);
    assert_eq!(shown.exit, Exit::Success);
    assert_eq!(shown.said[0].title(), "careful");
    let unread = inspected("a/b", Err("gone".to_owned())).expect_err("unread");
    assert_eq!(unread.title(), "a/b: gone");
}

fn a_status() -> ProfileStatus {
    ProfileStatus {
        name: "demo".to_owned(),
        overdue: None,
        next_run: None,
        backups: 0,
        since: None,
        newest: None,
        store_bytes: 0,
        remotes: Vec::new(),
    }
}

#[test]
fn a_push_with_nowhere_to_go_is_no_failure() {
    let mut demo = profile("demo", &[]);
    let said = push_wanted(&demo).expect("nowhere");
    assert_eq!(said.title(), "demo has no remotes to push to");
    let quiet = one_push(&demo, Ok(None), a_status(), false);
    assert_eq!((quiet.page.as_str(), quiet.exit), ("", Exit::Success));
    let pushed = one_push(&demo, Ok(Some(vec![result("t7", failed())])), a_status(), false);
    assert_eq!(pushed.exit, Exit::Failure);
    assert!(pushed.page.contains("demo"), "{}", pushed.page);
    let error = RunError { cause: Cause::InProgress, message: "held".to_owned() };
    let stopped = one_push(&demo, Err(error), a_status(), false);
    assert_eq!((stopped.said[0].title(), stopped.exit), ("held", Exit::Failure));
    demo.remotes.push(remote("t7", true));
    assert!(push_wanted(&demo).is_none());
}

#[test]
fn status_fails_only_when_it_is_asked_to() {
    let red = || Weighed { overdue: false, remotes: vec![seen(failed(), true, false)] };
    let late = || Weighed { overdue: true, remotes: Vec::new() };
    let yellow = || Weighed { overdue: false, remotes: vec![seen(behind(), false, true)] };
    assert_eq!(status_exit(&[red()], false, true), Exit::Success);
    assert_eq!(status_exit(&[yellow(), red()], true, false), Exit::Failure);
    assert_eq!(status_exit(&[late()], true, false), Exit::Failure);
    assert_eq!(status_exit(&[yellow()], true, false), Exit::Success);
    assert_eq!(status_exit(&[yellow()], true, true), Exit::Warning);
}

#[test]
fn status_is_about_the_profile_that_was_named() {
    let two = holding(vec![profile("demo", &[]), profile("second", &[])]);
    assert_eq!(status_profiles(&two, None).expect("all").len(), 2);
    assert_eq!(status_profiles(&two, Some("demo")).expect("one").len(), 1);
    assert_eq!(status_profiles(&two, Some("x")).expect_err("none").title(), "no profile named 'x'");
    assert!(status_profiles(&holding(Vec::new()), None).is_err());
    assert_eq!(
        banner(&parsed(Vec::new(), &[Severity::Error])),
        Some("config unreadable, showing the last run instead")
    );
    assert_eq!(banner(&parsed(Vec::new(), &[])), None);
    assert_eq!(state_unread("bad json").notes().len(), 1);
}

#[test]
fn a_row_says_when_and_whether_it_was_verified() {
    let demo = profile("demo", &[]);
    let fine = row_of(&remote("t7", true), &demo, &seen(synced(), false, false), "today 12:00");
    assert_eq!((fine.detail.as_str(), fine.note.as_str()), ("pushed today 12:00", "verified"));
    let late = row_of(&remote("t7", true), &demo, &seen(behind(), false, true), "2026-10-12");
    assert_eq!(late.detail, "last seen 2026-10-12");
    assert_eq!(late.note, "optional, on next mount");
    let never = RemoteState::Behind { runs: 1, last_seen: String::new() };
    let never = row_of(&remote("t7", false), &demo, &seen(never, false, true), "");
    assert_eq!((never.detail.as_str(), never.note.as_str()), ("never seen", "required"));
    let unseen = row_of(&remote("t7", false), &demo, &seen(RemoteState::Unseen, false, false), "");
    assert_eq!((unseen.detail.as_str(), unseen.note.as_str()), ("never pushed", ""));
    let bad = row_of(&remote("t7", false), &demo, &seen(failed(), true, false), "today 12:00");
    assert_eq!(bad.hint, Some("tycho log demo".to_owned()));
    assert_eq!(bad.detail, "locked");
    let state = RemoteState::Synced { at: "not a moment".to_owned() };
    assert_eq!(row(&remote("t7", true), &demo, &seen(state, false, false)).detail, "pushed not a moment");
    let state = seen(synced(), false, false);
    assert!(row(&remote("t7", true), &demo, &state).detail.starts_with("pushed "));
}

fn known(span: Option<Span>) -> Known {
    Known {
        overdue: Some(Duration::from_secs(60)),
        next_run: Some("tomorrow".to_owned()),
        last: Some(RunRecord { when: String::new(), failed: false, store_bytes: 7 }),
        span,
        rows: Vec::new(),
    }
}

#[test]
fn a_snapshot_takes_its_ends_from_the_store() {
    let demo = profile("demo", &[]);
    let span = || Span { backups: 3, oldest: "long ago".to_owned(), newest: "lately".to_owned() };
    let taken = snapshot_of(&demo, known(Some(span())), "2026-01-01", "today 12:00");
    assert_eq!((taken.backups, taken.store_bytes), (3, 7));
    assert_eq!(taken.since, Some("2026-01-01".to_owned()));
    let taken = snapshot(&demo, known(Some(span())));
    assert_eq!(taken.since, Some("long ago".to_owned()));
    assert_eq!(taken.newest, Some("lately".to_owned()));
    let taken = snapshot(&demo, known(None));
    assert_eq!((taken.backups, taken.since), (0, None));
    assert_eq!(next_run(None), None);
    let daily = Schedule::Daily { at: TimeOfDay { hour: 12, minute: 0 } };
    assert!(next_run(Some(daily)).expect("placed").contains(", in "));
    let stamp = Stamp { days_ago: Some(0), date: String::new(), clock: String::new() };
    assert_eq!(stamp.days_ago, Some(0));
}

#[test]
fn a_restore_opens_with_what_it_reads() {
    let span = || Span { backups: 1, oldest: "a".to_owned(), newest: "b".to_owned() };
    assert_eq!(
        reading_of(&span(), "2026-01-01", "2026-10-19"),
        "reading   1 backup, 2026-01-01 to 2026-10-19\n"
    );
    assert_eq!(reading(Ok(Some(span()))), Ok("reading   1 backup, a to b\n".to_owned()));
    let empty = reading(Ok(None)).expect_err("empty");
    assert_eq!(empty.title(), "this store holds no backups yet");
    assert_eq!(reading(Err("bad".to_owned())).expect_err("bad").title(), "bad");
    assert_eq!(newest(Ok(None)).expect_err("empty").title(), "this store holds no backups yet");
    assert_eq!(newest(Err("bad".to_owned())).expect_err("bad").title(), "bad");
}

#[test]
fn a_restore_that_lost_a_path_failed() {
    let mut done = Done::default();
    assert_eq!(restore(&done), Exit::Success);
    done.repos.push(Rebuilt {
        key: "k".to_owned(),
        at: "/a".to_owned(),
        head: None,
        stashes: 0,
        overlay: 1,
        conflicts: vec![Conflict { path: "p".to_owned(), reason: "r".to_owned() }],
    });
    assert_eq!(restore(&done), Exit::Warning);
    done.missing.push("p".to_owned());
    assert_eq!(restore(&done), Exit::Failure);
}

#[test]
fn a_profile_is_read_back_in_one_line() {
    let mut demo = profile("demo", &["/a", "/b"]);
    demo.ignore_globs.push("*.o".to_owned());
    assert_eq!(
        summarise(&demo),
        "demo              2 roots, 1 ignore, 0 reincludes, 0 remotes, no schedule"
    );
    demo.schedule = Some(Schedule::Weekly {
        day: Weekday::Sunday,
        at: TimeOfDay { hour: 9, minute: 5 },
    });
    assert!(summarise(&demo).ends_with("0 remotes, sunday 09:05"));
    demo.schedule = Some(Schedule::Every(Duration::from_secs(3_600)));
    assert!(summarise(&demo).ends_with("every 3600s"));
    let (page, exit) = config(&parsed(vec![demo], &[]), false);
    assert!(page.contains("2 roots"), "{page}");
    assert_eq!(exit, Exit::Success);
    assert_eq!(config(&parsed(Vec::new(), &[Severity::Warning]), false).1, Exit::Warning);
    assert_eq!(config(&parsed(Vec::new(), &[Severity::Error]), false).1, Exit::Failure);
}

#[test]
fn a_config_is_not_overwritten_without_force() {
    assert_eq!(init("/c", false, false), Ok(false));
    assert_eq!(init("/c", true, true), Ok(true));
    let refused = init("/c", true, false).expect_err("refused");
    assert_eq!(refused.title(), "a config file already exists");
    assert_eq!(refused.recoveries()[0].cmd, "tycho config init --force");
    assert_eq!(init_kept("/c.bak"), "kept           /c.bak\n");
    assert_eq!(init_wrote("/c"), "wrote          /c\n\nedit it, then `tycho config check`\n");
}

#[test]
fn the_log_is_tailed() {
    assert_eq!(tail_args(50, false, "/l"), vec!["-n", "50", "/l"]);
    assert_eq!(tail_args(5, true, "/l"), vec!["-n", "5", "-f", "/l"]);
    assert_eq!(log(0), Exit::Success);
    assert_eq!(log(1), Exit::Failure);
    assert_eq!(nothing_logged(&profile("demo", &[]), "/l").title(), "nothing logged yet for demo");
}

// --- profile -----------------------------------------------------------------

fn add_args(name: &str) -> ProfileAddArgs {
    ProfileAddArgs {
        name: name.to_owned(),
        watch: Vec::new(),
        remote: Vec::new(),
        optional: Vec::new(),
        trust_ownership: Vec::new(),
        schedule: None,
        local_only: false,
        dry_run: true,
    }
}

fn refused_as(args: &ProfileAddArgs) -> Exit {
    wanted_profile(args).expect_err("refused").emit(false).1
}

/// Both validation checks below run before any file is touched, so they need no
/// config file at all.
#[test]
fn add_needs_exactly_one_of_remote_or_local_only() {
    let mut neither = add_args("demo");
    assert_eq!(refused_as(&neither), Exit::Failure);

    neither.local_only = true;
    neither.remote = vec!["drive=/Volumes/Drive".to_owned()];
    assert_eq!(refused_as(&neither), Exit::Failure, "both given");
}

const LOCAL: &str = "local_only = true\nschedule = { every = \"6h\" }\n";

fn config_with_one_profile() -> String {
    format!("version = 1\n\n[[profile]]\nname = \"demo\"\nwatch = ['/watched-demo']\n{LOCAL}")
}

#[test]
fn an_optional_name_must_match_a_declared_remote() {
    let mut args = add_args("fresh");
    args.remote = vec!["drive=/nowhere/gone".to_owned()];
    args.optional = vec!["ghost".to_owned()];
    assert_eq!(refused_as(&args), Exit::Failure);

    args.optional = vec!["drive".to_owned()];
    // The remote path does not exist, so ownership cannot be checked: that is the
    // warning, not a refusal.
    let new = wanted_profile(&args).expect("wanted");
    let mut editing = edited(&config_with_one_profile());
    let added = add_profile(&mut editing, &new, &[None], args.dry_run);
    assert_ne!(added.floor.expect("not refused"), Exit::Failure);
}

#[test]
fn a_trust_ownership_name_must_match_a_declared_remote_too() {
    let mut args = add_args("demo");
    args.remote = vec!["drive=/Volumes/Drive".to_owned()];
    args.trust_ownership = vec!["nope".to_owned()];
    assert_eq!(refused_as(&args), Exit::Failure);
}

fn rm(name: &str) -> ProfileRmArgs {
    ProfileRmArgs { name: name.to_owned(), keep_store: false, delete_store: false }
}

/// The last profile in the file can never be removed, since a
/// config with none fails `config check`.
#[test]
fn removing_the_last_profile_is_refused() {
    let editing = edited(&config_with_one_profile());
    let refused = remove_profile(&editing, &rm("demo"), None).expect_err("refused");
    assert_eq!(refused.emit(false).1, Exit::Failure);
}

fn config_with_two() -> String {
    format!(
        "{}\n[[profile]]\nname = \"second\"\nwatch = ['/watched-second']\n{LOCAL}",
        config_with_one_profile()
    )
}

#[test]
fn removing_one_of_several_profiles_succeeds() {
    let mut editing = edited(&config_with_two());
    let (index, delete) = remove_profile(&editing, &rm("demo"), None).expect("removable");
    assert!(!delete);
    editing.remove_profile(index).expect("removed");
    let clean = parsed(Vec::new(), &[]);
    let done =
        finish(&editing, Ok(()), Some(&clean), "removed", "demo", Exit::Success, false, false);
    assert_eq!(done.exit, Exit::Success);
    let text = editing.text();
    assert!(!text.contains("name = \"demo\""), "{text}");
    assert!(text.contains("name = \"second\""), "{text}");
}

#[test]
fn a_store_goes_only_with_the_word_for_it() {
    let editing = edited(&config_with_two());
    let refused = remove_profile(&editing, &rm("demo"), Some("/s/demo.git")).expect_err("asked");
    assert_eq!(refused.title(), "'demo' has a local store at /s/demo.git");
    let keep = ProfileRmArgs { name: "demo".to_owned(), keep_store: true, delete_store: false };
    assert_eq!(remove_profile(&editing, &keep, Some("/s/demo.git")), Ok((0, false)));
    let delete = ProfileRmArgs { name: "demo".to_owned(), keep_store: false, delete_store: true };
    assert_eq!(remove_profile(&editing, &delete, Some("/s/demo.git")), Ok((0, true)));
    assert_eq!(remove_profile(&editing, &delete, None), Ok((0, false)));
    assert!(remove_profile(&editing, &rm("ghost"), None).is_err());
    assert_eq!(store_deleted("/s", Ok(())), Ok("deleted        /s\n".to_owned()));
    let stuck = store_deleted("/s", Err("busy".to_owned())).expect_err("stuck");
    assert_eq!(stuck.title(), "removing the store at /s: busy");
}

#[test]
fn everything_wrong_with_an_add_has_its_own_words() {
    let said = |args: &ProfileAddArgs| wanted_profile(args).expect_err("refused");
    assert_eq!(said(&add_args("Bad")).title(), "'Bad' is not a valid profile name");
    let mut args = add_args("demo");
    args.remote = vec!["drive".to_owned()];
    assert_eq!(said(&args).title(), "'drive' is not NAME=PATH");
    args.remote = vec!["Drive=/a".to_owned()];
    assert_eq!(said(&args).title(), "'Drive' is not a valid remote name");
    args.remote = vec!["a=/x".to_owned(), "a=/y".to_owned()];
    assert_eq!(said(&args).title(), "'a' is given more than once in --remote");
    args.remote = vec!["a=/x=y".to_owned()];
    args.schedule = Some("hourly".to_owned());
    assert_eq!(said(&args).title(), "'hourly' is not a schedule");
    args.schedule = Some("daily:12:00".to_owned());
    args.trust_ownership = vec!["a".to_owned()];
    args.watch = vec!["~/A".to_owned()];
    let new = wanted_profile(&args).expect("wanted");
    assert_eq!(new.remotes[0].path, "/x=y");
    assert!(new.remotes[0].trust_ownership && !new.remotes[0].optional);
    assert_eq!(new.watch, vec!["~/A"]);
    assert!(new.schedule.is_some());
}

#[test]
fn an_added_profile_is_in_the_file_and_a_dry_run_is_not() {
    let mut args = add_args("fresh");
    args.local_only = true;
    let new = wanted_profile(&args).expect("wanted");
    let mut editing = edited(&config_with_one_profile());
    assert_eq!(add_profile(&mut editing, &new, &[], true).floor, Some(Exit::Success));
    assert_eq!(editing.profiles(), vec!["demo"]);
    assert_eq!(add_profile(&mut editing, &new, &[], false).floor, Some(Exit::Success));
    assert_eq!(editing.profiles(), vec!["demo", "fresh"]);
    let again = add_profile(&mut editing, &new, &[], false);
    assert_eq!(again.floor, None);
    assert_eq!(again.said[0].title(), "'fresh' already exists");
}

#[test]
fn the_first_refused_volume_stops_an_add() {
    let mut args = add_args("fresh");
    args.remote = vec!["a=/a".to_owned(), "b=/b".to_owned(), "c=/c".to_owned()];
    let new: NewProfile = wanted_profile(&args).expect("wanted");
    let mut editing = edited(&config_with_one_profile());
    let added =
        add_profile(&mut editing, &new, &[None, Some(Ok(false)), Some(Ok(false))], false);
    assert_eq!(added.floor, None);
    assert_eq!(added.said.len(), 2);
    assert_eq!(added.said[1].title(), "'b' is on a volume that records no ownership");
    assert_eq!(editing.profiles(), vec!["demo"]);
}

#[test]
fn profiles_are_listed_with_what_they_hold() {
    let page = list(&edited(&config_with_one_profile()), false);
    let rows: Vec<&str> = page.lines().collect();
    assert_eq!(rows[0], "name            watch         remotes       schedule");
    assert_eq!(rows[2], "  demo          1 root        local only    set");
    assert_eq!(list(&edited("version = 1\n"), false), "no profiles\n");
}

// --- remote ------------------------------------------------------------------

fn config_with_one_remote() -> String {
    "version = 1\n\n[[profile]]\nname = \"demo\"\nwatch = ['/watched-demo']\nremotes = [\n  { name = \"drive\", path = '/drive' },\n]\nschedule = { every = \"6h\" }\n".to_owned()
}

/// Removing a profile's only remote is refused
/// unless `--local-only` says the profile should become local-only.
#[test]
fn removing_the_last_remote_is_refused_without_local_only() {
    let mut editing = edited(&config_with_one_remote());
    let args = RemoteRmArgs { name: "drive".to_owned(), local_only: false };
    let refused = remove_remote(&mut editing, 0, &args).expect_err("refused");
    assert_eq!(refused.emit(false).1, Exit::Failure);
}

#[test]
fn removing_the_last_remote_with_local_only_marks_the_profile_local_only() {
    let mut editing = edited(&config_with_one_remote());
    let args = RemoteRmArgs { name: "drive".to_owned(), local_only: true };
    remove_remote(&mut editing, 0, &args).expect("removed");
    let clean = parsed(Vec::new(), &[]);
    let done =
        finish(&editing, Ok(()), Some(&clean), "removed", "drive", Exit::Success, false, false);
    assert_eq!(done.exit, Exit::Success);
    let text = editing.text();
    assert!(text.contains("local_only = true"), "{text}");
    assert!(!text.contains("name = \"drive\""), "{text}");
}

fn new_remote(name: &str, trust_ownership: bool) -> RemoteAddArgs {
    RemoteAddArgs {
        name: name.to_owned(),
        path: "/t7".to_owned(),
        optional: true,
        trust_ownership,
        behind_tolerance: None,
    }
}

#[test]
fn removing_a_remote_that_is_not_the_last_one_needs_no_flag() {
    let mut editing = edited(&config_with_one_remote());
    // A second remote first, so removing "drive" is no longer the last-remote case.
    let added = add_remote(&mut editing, 0, &new_remote("t7", false), &Some(Ok(true)));
    assert_ne!(added.floor.expect("not refused"), Exit::Failure);

    let args = RemoteRmArgs { name: "drive".to_owned(), local_only: false };
    assert!(remove_remote(&mut editing, 0, &args).is_ok());
    let names: Vec<String> = editing.remotes(0).into_iter().map(|entry| entry.name).collect();
    assert_eq!(names, vec!["t7"]);
}

#[test]
fn removing_an_unconfigured_remote_is_refused() {
    let mut editing = edited(&config_with_one_remote());
    let args = RemoteRmArgs { name: "ghost".to_owned(), local_only: false };
    let refused = remove_remote(&mut editing, 0, &args).expect_err("refused");
    assert_eq!(refused.emit(false).1, Exit::Failure);
}

#[test]
fn a_volume_that_records_no_ownership_is_refused_unless_trusted() {
    let mut editing = edited(&config_with_one_remote());
    let refused = add_remote(&mut editing, 0, &new_remote("t7", false), &Some(Ok(false)));
    assert_eq!(refused.floor, None);
    assert_eq!(refused.said[0].recoveries()[0].cmd, "tycho remote add t7 /t7 --trust-ownership");
    let trusted = add_remote(&mut editing, 0, &new_remote("t7", true), &Some(Ok(false)));
    assert_eq!(trusted.floor, Some(Exit::Success));
    let again = add_remote(&mut editing, 0, &new_remote("t7", true), &None);
    assert_eq!(again.said[0].title(), "'t7' is already a remote on this profile");
    let bad = add_remote(&mut editing, 0, &new_remote("T7", true), &None);
    assert_eq!(bad.said[0].title(), "'T7' is not a valid remote name");
    let absent = check_ownership("t7", "/t7", false, &None).expect("not refused");
    assert_eq!(
        absent.expect("a warning").title(),
        "'t7' cannot be checked for ownership yet"
    );
    let broken = check_ownership("t7", "/t7", false, &Some(Err("no".to_owned())));
    assert_eq!(
        broken.expect_err("refused").title(),
        "could not check ownership for 't7': no"
    );
}

#[test]
fn the_nearest_directory_on_disk_speaks_for_the_volume() {
    assert_eq!(nearest_existing(&[false, false, true, true]), Some(2));
    assert_eq!(nearest_existing(&[false]), None);
}

#[test]
fn an_edit_is_read_back() {
    let editing = edited(&config_with_one_profile());
    let broken = parsed(Vec::new(), &[Severity::Error]);
    let done =
        finish(&editing, Ok(()), Some(&broken), "added", "x", Exit::Warning, false, false);
    assert_eq!(done.exit, Exit::Failure);
    assert_eq!(done.echo, "added          x\n");
    assert!(done.findings.starts_with('\n'), "{}", done.findings);
    let clean = parsed(Vec::new(), &[]);
    let done = finish(&editing, Ok(()), Some(&clean), "added", "x", Exit::Warning, false, false);
    assert_eq!(done.exit, Exit::Warning);
    let done = finish(&editing, Ok(()), None, "added", "x", Exit::Success, true, false);
    assert_eq!((done.exit, done.said[0].notes().len()), (Exit::Failure, 1));
    let full = Err("disk full".to_owned());
    let done = finish(&editing, full, Some(&clean), "added", "x", Exit::Success, false, false);
    assert_eq!(done.said[0].title(), "writing tycho.toml: disk full");
    assert_eq!(done.echo, "");
}

#[test]
fn a_config_is_opened_for_an_edit() {
    assert_eq!(open_editing("/c", None).expect_err("none").title(), "no config file at /c");
    let denied = open_editing("/c", Some(Err("denied".to_owned())));
    assert_eq!(denied.expect_err("denied").title(), "reading /c: denied");
    let bad = open_editing("/c", Some(Ok("= =".to_owned()))).expect_err("bad");
    assert!(bad.title().starts_with("/c is not readable as TOML: "), "{}", bad.title());
    let editing = open_editing("/c", Some(Ok(config_with_two()))).expect("opens");
    assert_eq!(open(&editing, Some("second")), Ok(1));
    assert!(open(&editing, None).is_err());
    let listed = tycho::cli::remote::list(&edited(&config_with_one_remote()), 0);
    assert_eq!(
        listed.lines().nth(2),
        Some("  drive     /drive                          -                 4 (default)")
    );
}

// --- schedule ----------------------------------------------------------------

#[test]
fn a_schedule_is_shown_set_and_cleared() {
    let mut demo = profile("demo", &[]);
    assert_eq!(show(&demo), "demo            no schedule, runs only when invoked by hand\n");
    demo.schedule = Some(Schedule::Every(Duration::from_secs(21_600)));
    assert_eq!(show(&demo), "demo            every 6h\n");
    assert_eq!(read("hourly").expect_err("none").recoveries().len(), 3);
    let daily = read("daily:09:00").expect("a schedule");
    let mut editing = edited("version = 1\n\n[[profile]]\nname = \"demo\"\n");
    assert_eq!(replace(&mut editing, 0, daily), Ok("daily 09:00".to_owned()));
    assert!(editing.has_schedule(0));
    assert!(off(&mut editing, 0).is_ok());
    assert!(!editing.has_schedule(0));
    assert!(replace(&mut editing, 9, daily).is_err());
    assert!(off(&mut editing, 9).is_err());
    let two = holding(vec![profile("demo", &[]), profile("second", &[])]);
    assert_eq!(find(&two, None).expect_err("which").title(), "name a profile with -p: demo, second");
    assert_eq!(find(&two, Some("x")).expect_err("none").title(), "no profile named 'x'");
    assert_eq!(find(&two, Some("demo")).expect("named").name.as_str(), "demo");
    assert!(find(&holding(Vec::new()), None).is_err());
}

// --- rules -------------------------------------------------------------------

#[test]
fn a_rule_is_added_once_and_removed() {
    let mut editing = edited(&config_with_one_profile());
    let add = RuleAction::Add { value: "~/B".to_owned(), local: false };
    let dispatch = tycho::cli::rules::dispatch;
    assert_eq!(dispatch(&mut editing, 0, List::Watch, &add), Ok(Ruled::Changed("added")));
    assert_eq!(
        dispatch(&mut editing, 0, List::Watch, &add),
        Ok(Ruled::Printed("already there  ~/B\n".to_owned()))
    );
    assert_eq!(
        dispatch(&mut editing, 0, List::Watch, &RuleAction::List),
        Ok(Ruled::Printed("/watched-demo\n~/B\n".to_owned()))
    );
    let rm = RuleAction::Rm { value: "~/B".to_owned(), local: false };
    assert_eq!(dispatch(&mut editing, 0, List::Watch, &rm), Ok(Ruled::Changed("removed")));
    let gone = dispatch(&mut editing, 0, List::Watch, &rm).expect_err("gone");
    assert_eq!(gone.title(), "'~/B' is not in watch");
    let inside = RuleAction::Add { value: "~/B".to_owned(), local: true };
    assert_eq!(dispatch(&mut editing, 0, List::Ignore, &inside), Ok(Ruled::Local));
    let refused = dispatch(&mut editing, 0, List::Watch, &inside).expect_err("watch");
    assert_eq!(refused.title(), "a local file cannot declare `watch`");
    assert_eq!(left_unchanged("~/B"), "left unchanged  ~/B\n");
}

#[test]
fn an_overlap_with_another_profile_is_asked_about() {
    let profiles =
        vec![profile("demo", &["/a"]), profile("second", &["/b", "/a/x"]), profile("third", &["/a"])];
    assert_eq!(overlap(&profiles, 0, &at("/a")), Some((1, 1)));
    assert_eq!(overlap(&profiles, 0, &at("/c")), None);
    assert_eq!(overlap(&profiles, 1, &at("/b/y")), None);
    assert!(overlap_accepted(false, None));
    assert!(!overlap_accepted(true, None));
    assert!(overlap_accepted(true, Some(" YES\n")));
    assert!(overlap_accepted(true, Some("y")));
    assert!(!overlap_accepted(true, Some("no")));
    assert!(overlap_said("~/a", &at("/a"), "third").starts_with(
        "warning: ~/a overlaps /a, watched by profile 'third'\n"
    ));
}

#[test]
fn a_target_is_a_path_or_beneath_the_working_directory() {
    let cwd = Ok(b"/work".to_vec());
    assert_eq!(expand("~/x", &cwd, Some(HOME), &vars()), Ok(at("/home/me/x")));
    assert_eq!(expand("x/y", &cwd, Some(HOME), &vars()), Ok(at("/work/x/y")));
    assert!(expand("../y", &cwd, Some(HOME), &vars()).is_err());
    assert_eq!(expand("x", &Err("gone".to_owned()), Some(HOME), &vars()), Err("gone".to_owned()));
}

#[test]
fn the_profile_that_watches_a_path_owns_it() {
    let profiles = vec![profile("demo", &["/a"]), profile("second", &["/a/b"])];
    assert_eq!(owning_profile(&profiles, &at("/a/c"), None).expect("one").name.as_str(), "demo");
    let two = owning_profile(&profiles, &at("/a/b/c"), None).expect_err("two");
    assert_eq!(two.title(), "more than one profile watches /a/b/c: demo, second");
    let named = owning_profile(&profiles, &at("/a/b/c"), Some("second")).expect("named");
    assert_eq!(named.name.as_str(), "second");
    let none = owning_profile(&profiles, &at("/z"), None).expect_err("none");
    assert_eq!(none.title(), "no watched root contains /z");
    let other = owning_profile(&profiles, &at("/a/c"), Some("second")).expect_err("other");
    assert_eq!(other.title(), "profile 'second' does not watch /a/c");
}

fn ignoring(entry: &str, base: &AbsPath) -> LocalRules {
    let raw = RawLocal {
        version: Some(1),
        watch: None,
        ignore: vec![Spanned { text: entry.to_owned(), start: 0 }],
        reinclude: Vec::new(),
        globs: Vec::new(),
    };
    local::parse("", Ok(raw), base).expect("rules")
}

#[test]
fn a_chain_is_read_as_the_walk_would_read_it() {
    let demo = profile("demo", &["/a"]);
    let target = at("/a/b/c/d");
    let dirs = chain_dirs(&demo, &target);
    assert_eq!(dirs.iter().map(AbsPath::text).collect::<Vec<_>>(), vec!["/a", "/a/b", "/a/b/c"]);
    assert_eq!(rules_file(&dirs[0]), at("/a/.tycho/rules.toml"));

    let (tree, anchor) = load_chain(&demo, &target, &[None, None, None]).expect("loads");
    assert_eq!(anchor, at("/a/b/c"));
    assert!(tree.captures(&target));
    assert_eq!(local_edit(&target, &anchor), Ok("d".to_owned()));

    // `/a` ignores `/a/b`, so what is beneath is not captured and its file is not read.
    let rules = ignoring("b", &at("/a"));
    let bad = Err(LocalRuleError::MissingVersion);
    let (tree, anchor) =
        load_chain(&demo, &target, &[Some(Ok(rules)), Some(bad), None]).expect("loads");
    assert_eq!(anchor, at("/a"));
    assert!(!tree.captures(&target));
    assert_eq!(local_edit(&target, &anchor), Ok("b/c/d".to_owned()));

    let bad = Err(LocalRuleError::WatchKey { line: 3 });
    let refused = load_chain(&demo, &target, &[Some(bad), None, None]).expect_err("bad");
    assert!(refused.render(false).contains("/a/.tycho/rules.toml:3"), "{}", refused.render(false));
    let root = load_chain(&demo, &at("/a"), &[]).expect_err("nothing above");
    assert_eq!(
        root.title(),
        "no captured directory sits between the watched root and /a"
    );
    assert!(load_chain(&demo, &at("/z"), &[]).is_err());
    assert!(local_edit(&at("/z"), &at("/a")).is_err());
    assert!(local_edit(&at("/a"), &at("/a")).is_err());
    assert!(local_allowed(List::Watch).is_err());
    assert!(local_allowed(List::Ignore).is_ok());
}

#[test]
fn a_decision_names_its_rule() {
    let demo = profile("demo", &["/a"]);
    let tree = RuleTree::build(&demo.rule_set()).expect("builds");
    let decision = tree.resolve(&at("/a/b"));
    assert_eq!(decision.verdict, Verdict::Capture);
    assert_eq!(
        print_decision(&tree, decision, None),
        "capture  /a\n         the profile config\n         depth 2, tier explicit-path, origin global\n"
    );
    let page = explain_dispatch(&tree, &[decision, decision], &at("/a/b")).expect("explained");
    assert!(page.contains("beaten   capture /a\n"), "{page}");
    let none = explain_dispatch(&tree, &[], &at("/z")).expect_err("none");
    assert_eq!(none.title(), "no rule matches /z");
}

// --- service -----------------------------------------------------------------

#[test]
fn a_broken_config_touches_no_agent() {
    let broken = parsed(Vec::new(), &[Severity::Error]);
    assert!(allowed(&broken, ServiceAction::Status, false).is_none());
    let (_, said) = allowed(&broken, ServiceAction::Install, false).expect("stopped");
    assert_eq!(said.title(), "the config has errors, so no agent was touched");
    assert!(allowed(&parsed(Vec::new(), &[]), ServiceAction::Install, false).is_none());
}

#[test]
fn no_name_is_every_profile() {
    let two = holding(vec![profile("demo", &[]), profile("second", &[])]);
    assert_eq!(wanted(&two, None).expect("all").len(), 2);
    assert_eq!(wanted(&two, Some("demo")).expect("one").len(), 1);
    assert_eq!(wanted(&two, Some("x")).expect_err("none").title(), "no profile named 'x'");
    let none = wanted(&holding(Vec::new()), None).expect_err("none");
    assert_eq!(none.title(), "the config has no profiles");
}

#[test]
fn the_shared_agent_is_counted_once_and_goes_last() {
    let agents = vec![
        Agent::Backup("second".to_owned()),
        Agent::Catchup,
        Agent::Backup("demo".to_owned()),
        Agent::Catchup,
    ];
    let once = installed_once(&agents);
    let labels: Vec<String> = once.iter().map(Agent::label).collect();
    assert_eq!(labels.len(), 3);
    let mut sorted = labels.clone();
    sorted.sort();
    assert_eq!(labels, sorted);
    let two = holding(vec![profile("demo", &[]), profile("second", &[])]);
    assert_eq!(remaining(&two, &[&two.profiles[0]]), 1);
    assert_eq!(remaining(&two, &[&two.profiles[0], &two.profiles[1]]), 0);
    assert_eq!(removed(&[Agent::Catchup]), format!("removed   {}\n", Agent::Catchup.label()));
}

#[test]
fn an_agent_that_ended_badly_or_drifted_is_broken() {
    let row = |last, matches| ServiceRow {
        installed: Installed {
            agent: Agent::Backup("demo".to_owned()),
            loaded: Loaded::Yes { pid: None, last },
            scheduled: None,
        },
        wanted: Some(None),
        matches,
    };
    assert_eq!(status(&[row(Ended::Exit(0), Some(true))], false).1, Exit::Success);
    assert_eq!(status(&[row(Ended::Exit(1), Some(true))], false).1, Exit::Failure);
    assert_eq!(status(&[row(Ended::Exit(0), Some(false))], false).1, Exit::Failure);
    let demo = profile("demo", &[]);
    assert_eq!(install_failed(&demo, "no schedule", true).recoveries().len(), 1);
    assert_eq!(install_failed(&demo, "denied", false).recoveries().len(), 0);
    let one = holding(vec![demo]);
    assert_eq!(wanted_of(&one, &Agent::Backup("demo".to_owned())), Some(None));
    assert_eq!(wanted_of(&one, &Agent::Catchup), None);
    assert!(unseen(&Agent::Backup("demo".to_owned()), "x").render(false).contains("profile demo"));
}

#[test]
fn a_rule_command_says_what_creates_a_missing_file() {
    let open = tycho::cli::rules::open;
    let missing = ReadFault { missing: true, message: "os error 2".to_owned() };
    let said = open("/c.toml", Err(missing)).err().expect("missing");
    assert_eq!(said.title(), "no config file at /c.toml");
    assert_eq!(said.recoveries().len(), 2);
    let denied = ReadFault { missing: false, message: "denied".to_owned() };
    let said = open("/c.toml", Err(denied)).err().expect("denied");
    assert_eq!(said.title(), "reading /c.toml: denied");
    assert!(open("/c.toml", Ok("= broken".to_owned())).is_err());
    let editing = open("/c.toml", Ok(config_with_one_profile())).ok().expect("opens");
    assert_eq!(tycho::cli::rules::chosen(&editing, None), Ok(0));
    let none = tycho::cli::rules::chosen(&editing, Some("x")).expect_err("none");
    assert_eq!(none.recoveries().len(), 1);
}

#[test]
fn an_edit_of_a_directorys_own_rules_says_what_was_done_and_where() {
    assert_eq!(local_echo("x/y", "/a/r.toml", false, true), "already there  x/y\n");
    assert_eq!(
        local_echo("x/y", "/a/r.toml", true, true),
        "added          x/y\n               in /a/r.toml\n"
    );
    assert_eq!(
        local_echo("x", "/a/r.toml", true, false),
        "removed        x\n               in /a/r.toml\n"
    );
    assert_eq!(no_path("z", "gone").title(), "'z' is not a path: gone");
}
