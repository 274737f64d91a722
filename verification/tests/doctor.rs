use tycho::cli::doctor::{
    amend, dispatch, fold_access, fold_config, limit, probe_access, probe_arguments, probed,
};
use tycho::cli::render::health::Installed;
use tycho::cli::Exit;
use tycho::config::check::{Diagnostic, DiagnosticKind, Severity};
use tycho::config::schedule::{Duration, Schedule, TimeOfDay};
use tycho::config::{Config, LogLevel, Profile, Remote};
use tycho::doctor::artifacts::{
    is_packfile, is_ref_component, kind, looks_conflicted, scan, Artifact, Kind,
};
use tycho::doctor::{
    environment, free_bytes, fsck_args, group, long_paths, overdue, overdue_at, profile_section,
    run, spotlight, volume_of, volumes, Check, Folder, Indexing, LogDirectory, ProfileHealth,
    RemoteHealth, Report, Scope, Section, StoreHealth, Surroundings, Verdict,
};
use tycho::platform::launchd::{Agent, Ended, Loaded};
use tycho::platform::Host;
use tycho::primitives::names::{ProfileName, RemoteName};
use tycho::primitives::path::AbsPath;
use tycho::process::{Output, RunError};
use tycho::store::{RemoteSeen, RemoteState, RunRecord};

fn at(text: &str) -> AbsPath {
    AbsPath::from_absolute(text.as_bytes()).expect("a path")
}

#[test]
fn a_real_packfile_name_is_not_an_artifact() {
    for name in [
        "pack-1a2b3c4d5e6f.pack",
        "pack-1a2b3c4d5e6f.idx",
        "pack-1a2b3c4d5e6f.rev",
        "pack-1a2b3c4d5e6f.bitmap",
        "pack-1a2b3c4d5e6f.mtimes",
    ] {
        assert!(is_packfile(name), "{name}");
    }
}

/// The case that silently corrupts a remote: a duplicated packfile that git will
/// not always complain about.
#[test]
fn a_duplicated_packfile_is_an_artifact() {
    for name in [
        "pack-1a2b3c4d5e6f (1).pack",
        "pack-1a2b3c4d5e6f.pack.conflicted",
        "pack-notactuallyhex.pack",
        "something.pack",
    ] {
        assert!(!is_packfile(name), "{name}");
    }
}

#[test]
fn a_conflicted_copy_is_recognised_in_every_shape_the_clients_produce() {
    assert!(looks_conflicted("main (1)"));
    assert!(looks_conflicted("notes (2).md"));
    assert!(looks_conflicted("HEAD (you's conflicted copy)"));
    assert!(looks_conflicted("packed-refs copy"));
    assert!(!looks_conflicted("packed-refs"));
    assert!(!looks_conflicted("main"));
}

#[test]
fn a_legal_ref_component_is_left_alone() {
    assert!(is_ref_component("main"));
    assert!(is_ref_component("v1.0"));
    assert!(is_ref_component("feature-x"));
    assert!(is_ref_component("CoreEngineX%2Forg"));
    assert!(!is_ref_component("main (1)"));
    assert!(!is_ref_component("main.lock"));
    assert!(!is_ref_component(".DS_Store"));
}

/// The scan goes **inside** each bare repository, because that is where the
/// damaging artifacts land.
#[test]
fn the_scan_reaches_inside_the_bare_repository() {
    let files = vec![
        at("/d/demo.git/objects/pack/pack-abc123.pack"),
        at("/d/demo.git/objects/pack/pack-abc123 (1).pack"),
        at("/d/demo.git/refs/heads/main"),
        at("/d/demo.git/refs/heads/main (1)"),
        at("/d/RECOVERY.md"),
    ];
    let found = scan(&at("/d"), &files);
    assert_eq!(found.len(), 2);
    let kind_of = |name: &str| {
        found.iter().find(|item| item.path.text().ends_with(name)).map(|item| item.kind)
    };
    assert_eq!(kind_of("pack-abc123 (1).pack"), Some(Kind::StrayPack));
    assert_eq!(kind_of("main (1)"), Some(Kind::StrayRef));
}

/// Tycho's own in-flight `RECOVERY.md` write is expected, not wreckage.
#[test]
fn tychos_own_temp_file_is_not_reported() {
    let files = vec![at("/d/RECOVERY.md"), at("/d/RECOVERY.md.tmp.4812")];
    assert!(scan(&at("/d"), &files).is_empty());
}

#[test]
fn a_conflicted_file_outside_the_repository_is_found_too() {
    assert_eq!(kind(&at("/d"), &at("/d/notes (2).md")), Some(Kind::Conflicted));
    assert_eq!(kind(&at("/d"), &at("/d/notes.md")), None);
}

fn profile(name: &str, remotes: Vec<Remote>) -> Profile {
    Profile {
        name: ProfileName::parse(name).expect("a name"),
        watch: Vec::new(),
        ignore_paths: Vec::new(),
        ignore_globs: Vec::new(),
        reinclude: Vec::new(),
        remotes,
        schedule: Some(Schedule::Daily { at: TimeOfDay { hour: 12, minute: 0 } }),
        use_default_ignores: true,
        store_path: None,
        local_only: false,
    }
}

fn remote(name: &str, optional: bool) -> Remote {
    Remote {
        name: RemoteName::parse(name).expect("a name"),
        path: at("/Volumes/Drive"),
        optional,
        behind_tolerance: 4,
        trust_ownership: false,
    }
}

fn output(success: bool, stdout: &str, stderr: &str) -> Result<Output, RunError> {
    Ok(Output {
        success,
        stdout: stdout.as_bytes().to_vec(),
        stderr: stderr.as_bytes().to_vec(),
    })
}

fn surroundings(host: Host) -> Surroundings {
    Surroundings {
        host,
        git: output(true, "git version 2.39.3 (Apple Git-146)\n", ""),
        long_paths: output(true, "false\n", ""),
        logs: Ok(LogDirectory { path: "/logs".to_owned(), is_there: true, writable: true }),
        notifies: true,
        sent: Ok(()),
    }
}

fn scope(deep: bool) -> Scope {
    Scope { deep, remote: None }
}

fn rows(section: &Section) -> Vec<(&str, Verdict, &str)> {
    section
        .checks
        .iter()
        .map(|check| (check.name.as_str(), check.verdict, check.evidence.as_str()))
        .collect()
}

#[test]
fn the_environment_is_one_row_per_question() {
    let seen = surroundings(Host::MacOs);
    assert_eq!(
        rows(&environment(2, &scope(false), &seen)),
        vec![
            ("git", Verdict::Fine, "2.39.3 (Apple Git-146)"),
            ("config", Verdict::Fine, "2 profiles, no errors"),
            ("log directory", Verdict::Fine, "/logs, writable"),
            ("notifications", Verdict::Warn, "available, delivery not tested, use --deep"),
            ("full disk access", Verdict::Warn, "not measurable from a terminal, use --deep"),
        ]
    );
}

#[test]
fn windows_is_asked_about_long_paths_and_not_about_access() {
    let seen = surroundings(Host::Windows);
    let section = environment(1, &scope(true), &seen);
    let names: Vec<&str> = section.checks.iter().map(|check| check.name.as_str()).collect();
    assert_eq!(names, vec!["git", "config", "core.longpaths", "log directory", "notifications"]);
    assert_eq!(section.checks[2].verdict, Verdict::Warn);
    assert_eq!(section.checks[4].evidence, "test notification sent");
    assert_eq!(
        long_paths(Host::Windows, &output(true, "true\n", "")).expect("a row").verdict,
        Verdict::Fine
    );
    assert!(long_paths(Host::MacOs, &output(true, "false\n", "")).is_none());
}

#[test]
fn what_is_missing_from_the_environment_is_said() {
    let mut seen = surroundings(Host::Other);
    seen.git = Err(RunError { message: "gone".to_owned() });
    seen.logs = Ok(LogDirectory { path: "/logs".to_owned(), is_there: false, writable: false });
    seen.notifies = false;
    let section = environment(1, &scope(false), &seen);
    assert_eq!(
        rows(&section),
        vec![
            ("git", Verdict::Fail, "not runnable; nothing works without it"),
            ("config", Verdict::Fine, "1 profile, no errors"),
            ("log directory", Verdict::Warn, "/logs does not exist; service install creates it"),
            (
                "notifications",
                Verdict::Warn,
                "no mechanism on this platform; the exit code is the contract"
            ),
        ]
    );
    seen.logs = Ok(LogDirectory { path: "/logs".to_owned(), is_there: true, writable: false });
    assert_eq!(environment(1, &scope(false), &seen).checks[2].evidence, "/logs is not writable");
    seen.logs = Err("no home".to_owned());
    assert_eq!(environment(1, &scope(false), &seen).checks[2].evidence, "no home");
    seen.notifies = true;
    seen.sent = Err("silent".to_owned());
    assert_eq!(environment(1, &scope(true), &seen).checks[3].verdict, Verdict::Fail);
}

fn seen(state: RemoteState) -> RemoteSeen {
    RemoteSeen { state, word: "word".to_owned(), red: false, yellow: false, tolerance: 4 }
}

fn healthy() -> ProfileHealth {
    ProfileHealth {
        agent: Ok(Installed {
            agent: Agent::Backup("demo".to_owned()),
            loaded: Loaded::Yes { pid: None, last: Ended::Exit(0) },
            scheduled: None,
        }),
        matches: Some(true),
        overdue: None,
        store: Some(StoreHealth {
            span: Ok(Some((3, "2026-10-19".to_owned()))),
            refs: Ok(1),
            fsck: output(true, "", ""),
        }),
        remotes: vec![RemoteHealth {
            seen: seen(RemoteState::Synced { at: "2026-10-19T12:00:00Z".to_owned() }),
            folder: None,
        }],
    }
}

#[test]
fn a_healthy_profile_is_all_fine() {
    let profile = profile("demo", vec![remote("drive", false)]);
    let section = profile_section(Host::MacOs, &profile, &scope(false), &healthy());
    assert_eq!(section.title, "demo");
    assert_eq!(
        rows(&section),
        vec![
            ("agent", Verdict::Fine, "loaded, last exit 0"),
            ("agent schedule", Verdict::Fine, "matches config"),
            ("schedule", Verdict::Fine, "not overdue"),
            ("store", Verdict::Fine, "3 backups, newest 2026-10-19"),
            ("refs", Verdict::Fine, "1 ref"),
            ("objects", Verdict::Fine, "connectivity clean"),
            ("drive", Verdict::Fine, "all refs present, verified"),
        ]
    );
}

#[test]
fn a_broken_profile_says_what_is_broken() {
    let profile = profile("demo", vec![remote("drive", true)]);
    let mut health = healthy();
    health.agent = Ok(Installed {
        agent: Agent::Backup("demo".to_owned()),
        loaded: Loaded::Yes { pid: None, last: Ended::Exit(1) },
        scheduled: Some(Schedule::Daily { at: TimeOfDay { hour: 3, minute: 0 } }),
    });
    health.matches = Some(false);
    health.overdue = Some(Duration::from_secs(7_200));
    health.store = Some(StoreHealth {
        span: Ok(None),
        refs: Err("no refs".to_owned()),
        fsck: output(false, "", "missing blob\nmore\n"),
    });
    health.remotes = vec![RemoteHealth {
        seen: seen(RemoteState::Behind { runs: 2, last_seen: String::new() }),
        folder: Some(Folder {
            path: "/Volumes/Drive".to_owned(),
            records_ownership: Some(false),
            indexing: Some(Indexing {
                volume: "/Volumes/Drive".to_owned(),
                is_root: false,
                journaled: Some(false),
                printed: output(true, "Indexing enabled.\n", "").ok(),
            }),
            artifacts: vec![Artifact { path: at("/Volumes/Drive/x (1)"), kind: Kind::Conflicted }],
        }),
    }];
    let section = profile_section(Host::MacOs, &profile, &scope(true), &health);
    let found = rows(&section);
    assert_eq!(found[0].1, Verdict::Fail);
    assert_eq!(found[1].2, "installed daily 03:00 but the config says daily 12:00");
    assert_eq!(found[2].2, "overdue by 2h 0m");
    assert_eq!(found[3], ("store", Verdict::Warn, "exists but holds no backups yet"));
    assert_eq!(found[4], ("refs", Verdict::Fail, "no refs"));
    assert_eq!(found[5], ("objects", Verdict::Fail, "missing blob"));
    assert_eq!(found[6], ("drive", Verdict::Warn, "behind 2 of 4, optional"));
    assert_eq!(found[7].0, "drive privacy");
    assert_eq!(found[8].0, "drive spotlight");
    assert_eq!(found[9].0, "drive artifacts");
    assert!(found[9].2.starts_with("1 file: x (1) ("), "{}", found[9].2);
}

#[test]
fn a_profile_with_nothing_yet_is_only_warned_about() {
    let profile = profile("demo", vec![remote("drive", false), remote("t7", false)]);
    let mut health = healthy();
    health.agent = Ok(Installed {
        agent: Agent::Backup("demo".to_owned()),
        loaded: Loaded::No,
        scheduled: None,
    });
    health.matches = None;
    health.store = None;
    health.remotes = vec![
        RemoteHealth { seen: seen(RemoteState::Unseen), folder: None },
        RemoteHealth {
            seen: seen(RemoteState::Failed { at: String::new(), reason: "locked".to_owned() }),
            folder: None,
        },
    ];
    let section = profile_section(Host::MacOs, &profile, &scope(false), &health);
    let found = rows(&section);
    assert_eq!(found[3], ("store", Verdict::Warn, "not created yet; run once"));
    assert_eq!(found[4], ("drive", Verdict::Warn, "never pushed"));
    assert_eq!(found[5], ("t7", Verdict::Fail, "locked"));

    let only = Scope { deep: false, remote: Some("t7".to_owned()) };
    let section = profile_section(Host::MacOs, &profile, &only, &health);
    assert_eq!(section.checks.len(), 5);
    assert_eq!(section.checks[4].name, "t7");
}

#[test]
fn spotlight_is_only_reported_where_it_can_do_harm() {
    let on = |journaled, is_root| {
        Some(Indexing {
            volume: "/Volumes/T7".to_owned(),
            is_root,
            journaled,
            printed: output(true, "/Volumes/T7:\n\tIndexing enabled.\n", "").ok(),
        })
    };
    assert!(spotlight(Host::MacOs, "t7", &on(Some(false), false)).is_some());
    assert!(spotlight(Host::MacOs, "t7", &on(Some(true), false)).is_none());
    assert!(spotlight(Host::MacOs, "t7", &on(None, false)).is_none());
    assert!(spotlight(Host::MacOs, "t7", &on(Some(false), true)).is_none());
    assert!(spotlight(Host::Windows, "t7", &on(Some(false), false)).is_none());
    assert!(spotlight(Host::MacOs, "t7", &None).is_none());
}

#[test]
fn the_cheap_fsck_reads_no_objects() {
    assert_eq!(fsck_args(false), vec!["fsck", "--connectivity-only", "--no-progress"]);
    assert_eq!(fsck_args(true), vec!["fsck", "--no-progress"]);
}

#[test]
fn volumes_are_grouped_by_disk() {
    let places: Vec<String> =
        ["/", "/Volumes/T7", "/"].iter().map(|place| (*place).to_owned()).collect();
    let wanted = group(&places);
    let section = volumes(&wanted, &[Some(25_000_000_000), None]);
    assert_eq!(
        rows(&section),
        vec![
            ("/", Verdict::Fine, "25.0 GB free, 2 users"),
            ("/Volumes/T7", Verdict::Warn, "not mounted"),
        ]
    );
    let section = volumes(&wanted, &[Some(9_999_999_999), None]);
    assert_eq!(section.checks[0].verdict, Verdict::Warn);
}

#[test]
fn df_is_read_by_its_second_line() {
    let printed = "Filesystem 512-blocks Used Available Capacity Mounted on\n/dev/disk3 100 20 80 20% /Volumes/T7\n";
    let out = output(true, printed, "").expect("printed");
    assert_eq!(volume_of("/x", Some(&out)), "/Volumes/T7");
    assert_eq!(free_bytes(&out), Some(80 * 1024));
    assert_eq!(volume_of("/x", None), "/x");
    let empty = output(true, "", "").expect("printed");
    assert_eq!(volume_of("/x", Some(&empty)), "/x");
    assert_eq!(free_bytes(&empty), None);
}

fn ran(when: &str, failed: bool) -> RunRecord {
    RunRecord { when: when.to_owned(), failed, store_bytes: 0 }
}

/// 2026-10-19T12:00:00Z, in seconds.
const NOON: i64 = 1_792_411_200;

#[test]
fn a_failed_run_does_not_reset_the_clock() {
    let daily = Some(Schedule::Daily { at: TimeOfDay { hour: 12, minute: 0 } });
    let runs = vec![ran("2026-10-19T11:00:00Z", true), ran("2026-10-17T12:00:00Z", false)];
    let over = overdue_at(daily, &runs, NOON).expect("overdue");
    assert_eq!(over.as_secs(), 2 * 86_400 - 86_400 - 21_600);
    assert_eq!(overdue_at(daily, &[ran("2026-10-19T11:00:00Z", false)], NOON), None);
    assert_eq!(overdue_at(None, &runs, NOON), None);
    assert_eq!(overdue_at(daily, &[], NOON), Some(Duration::from_secs(86_400)));
    assert_eq!(overdue(daily, &[ran("nonsense", false)]), Some(Duration::from_secs(86_400)));
}

fn report() -> Report {
    run(
        Section {
            title: "environment".to_owned(),
            checks: vec![
                Check::new("config", Verdict::Fine, "1 profile, no errors"),
                Check::new("full disk access", Verdict::Warn, "not measurable"),
            ],
        },
        vec![Section { title: "demo".to_owned(), checks: Vec::new() }],
        Section { title: "volumes".to_owned(), checks: Vec::new() },
    )
}

#[test]
fn the_report_is_the_environment_the_profiles_and_the_volumes() {
    let titles: Vec<String> = report().sections.into_iter().map(|s| s.title).collect();
    assert_eq!(titles, vec!["environment", "demo", "volumes"]);
}

fn finding(severity: Severity) -> Diagnostic {
    Diagnostic { severity, profile: None, kind: DiagnosticKind::NoProfiles }
}

#[test]
fn the_configs_findings_stand_in_the_report() {
    let folded = fold_config(report(), &[finding(Severity::Warning), finding(Severity::Error)]);
    let config = &folded.sections[0].checks[0];
    assert_eq!(config.verdict, Verdict::Fail);
    assert_eq!(config.evidence, "1 error, 1 warning");
    let folded = fold_config(report(), &[finding(Severity::Warning)]);
    assert_eq!(folded.sections[0].checks[0].verdict, Verdict::Warn);
    assert_eq!(fold_config(report(), &[]), report());
}

#[test]
fn the_one_command_that_aggregates_health_exits_with_it() {
    let (_, exit) = dispatch(report(), &[], None, false);
    assert_eq!(exit, Exit::Warning);
    let fine = Check::new("full disk access", Verdict::Fine, "the agent read all 1 root");
    let (page, exit) = dispatch(report(), &[], Some(fine), false);
    assert_eq!(exit, Exit::Success);
    assert!(page.contains("the agent read all 1 root"), "{page}");
    let (_, exit) = dispatch(report(), &[finding(Severity::Error)], None, false);
    assert_eq!(exit, Exit::Failure);
    let same = Check::new("elsewhere", Verdict::Fail, "");
    assert_eq!(amend(report(), &same), report());
    assert_eq!(fold_access(report(), None), report());
}

#[test]
fn a_probe_names_the_first_root_it_was_denied() {
    let fine = probed(Some("read /a\nread /b\n"), 2);
    assert_eq!((fine.verdict, fine.evidence.as_str()), (Verdict::Fine, "the agent read all 2 roots"));
    let denied = probed(Some("read /a\ndenied /b (no)\ndenied /c (no)\n"), 3);
    assert_eq!(denied.evidence, "the agent cannot read /b (no); add tycho in System Settings");
    assert_eq!(probed(None, 1).verdict, Verdict::Warn);
    assert_eq!(probe_access("/b", &Err("no".to_owned())), "denied /b (no)\n");
    assert_eq!(probe_access("/b", &Ok(())), "read /b\n");
    assert_eq!(
        probe_arguments("/out", &["/a".to_owned()]),
        vec!["probe-access", "--out", "/out", "/a"]
    );
}

#[test]
fn a_report_can_be_about_one_profile() {
    let config = || Config {
        log_level: LogLevel::Info,
        profiles: vec![profile("demo", Vec::new()), profile("second", Vec::new())],
    };
    let one = limit(config(), Some("second")).expect("found");
    assert_eq!(one.profiles.len(), 1);
    assert_eq!(one.profiles[0].name.as_str(), "second");
    assert_eq!(limit(config(), None).expect("all").profiles.len(), 2);
    assert_eq!(
        limit(config(), Some("ghost")).expect_err("none"),
        "tycho: no profile named 'ghost'\n"
    );
}
