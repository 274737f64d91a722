use tycho::capture::Inspection;
use tycho::cli::moments::{moment_of, upcoming_of, Ahead, Stamp};
use tycho::cli::page::{Page, Tint};
use tycho::cli::render::health::{agent_state, Installed, ServiceRow};
use tycho::cli::render::restore::path_history_at;
use tycho::cli::render::status::verdict_word;
use tycho::cli::render::{
    clip, config_check, count, counted, counted_cell, day, decide_colour, doctor, dry_run, fit,
    history, history_at, moment, paint, plural, reason_label, restored, run_result, say,
    service_installed, service_status, severity_label, size, status, until, ProfileStatus,
    RemoteRow,
};
use tycho::cli::words::abbreviate;
use tycho::config::check::{Diagnostic, DiagnosticKind, Severity};
use tycho::config::schedule::{Duration, Schedule, TimeOfDay, Weekday};
use tycho::doctor::{Check, Report, Section, Verdict};
use tycho::metadata::replay::Applied;
use tycho::plan::{ExcludeReason, Plan, RepoHead, RootPlan};
use tycho::platform::launchd::{Agent, Ended, Loaded};
use tycho::primitives::oid::Oid;
use tycho::primitives::path::AbsPath;
use tycho::restore::{Commit, Conflict, Done, Rebuilt};
use tycho::store::{Backup, Completed, Summary};

#[test]
fn counts_carry_thousands_separators() {
    assert_eq!(count(0), "0");
    assert_eq!(count(126), "126");
    assert_eq!(count(8_412), "8,412");
    assert_eq!(count(8_538), "8,538");
    assert_eq!(count(1_234_567), "1,234,567");
    assert_eq!(count(1_000_007), "1,000,007");
}

#[test]
fn sizes_match_the_documented_examples() {
    assert_eq!(size(0), "0 B");
    assert_eq!(size(999), "999 B");
    assert_eq!(size(1_190_000_000), "1.19 GB");
    assert_eq!(size(340_000_000), "340 MB");
    assert_eq!(size(1_100_000), "1.10 MB");
    assert_eq!(size(41_000_000), "41.0 MB");
    assert_eq!(size(204_000_000), "204 MB");
}

fn failed_row() -> RemoteRow {
    RemoteRow {
        name: "ghost".to_owned(),
        word: "failed".to_owned(),
        detail: "behind 2 runs".to_owned(),
        note: "today 20:13".to_owned(),
        hint: None,
        severity: Verdict::Fail,
    }
}

fn cell(put: impl Fn(&mut Page), colour: bool) -> String {
    let mut page = Page::new();
    put(&mut page);
    page.show(colour)
}

/// Every SGR span removed, the way a terminal renders them and a pipe never sees
/// them - what is left is what the padding trap would otherwise have disturbed.
fn strip_ansi(text: &str) -> String {
    let mut out = String::new();
    let mut chars = text.chars();
    while let Some(next) = chars.next() {
        if next == '\u{1b}' {
            for escaped in chars.by_ref() {
                if escaped == 'm' {
                    break;
                }
            }
        } else {
            out.push(next);
        }
    }
    out
}

/// Colour is emphasis
/// on a word that already carries the meaning, so the word has to survive without
/// it too.
#[test]
fn a_failed_remote_is_painted_and_still_readable_without_colour() {
    let plain = cell(|p| verdict_word(p, &failed_row()), false);
    assert!(!plain.contains('\u{1b}'), "{plain:?}");
    assert!(plain.starts_with("failed"), "{plain:?}");

    let painted = cell(|p| verdict_word(p, &failed_row()), true);
    assert!(painted.contains("\u{1b}[31m"), "no red: {painted:?}");
    assert!(painted.contains("failed"), "{painted:?}");
}

/// An escape sequence has width in bytes and none on screen, so painting before
/// padding shifts every later column by exactly its length.
#[test]
fn colour_does_not_change_the_column_width() {
    let plain = cell(|p| verdict_word(p, &failed_row()), false);
    let painted = cell(|p| verdict_word(p, &failed_row()), true);

    let visible = painted.replace("\u{1b}[31m", "").replace("\u{1b}[0m", "");
    assert_eq!(
        visible, plain,
        "the painted cell must occupy the same columns"
    );
}

#[test]
fn severity_label_pads_before_it_paints() {
    let plain_error = cell(|p| severity_label(p, Severity::Error), false);
    let plain_warn = cell(|p| severity_label(p, Severity::Warning), false);
    let painted_error = cell(|p| severity_label(p, Severity::Error), true);
    let painted_warn = cell(|p| severity_label(p, Severity::Warning), true);

    assert_eq!(strip_ansi(&painted_error), plain_error);
    assert_eq!(strip_ansi(&painted_warn), plain_warn);
    assert!(painted_error.contains("31m"), "no red: {painted_error:?}");
    assert!(painted_warn.contains("33m"), "no yellow: {painted_warn:?}");
}

#[test]
fn counted_cell_is_only_painted_when_there_is_nothing_to_report() {
    let plain_empty = cell(|p| counted_cell(p, "no changes", true, 40), false);
    let plain_busy = cell(|p| counted_cell(p, "14 changed, 2 added", false, 40), false);
    let painted_empty = cell(|p| counted_cell(p, "no changes", true, 40), true);
    let painted_busy = cell(|p| counted_cell(p, "14 changed, 2 added", false, 40), true);

    assert_eq!(plain_empty.chars().count(), 40);
    assert_eq!(strip_ansi(&painted_empty), plain_empty);
    assert!(painted_empty.contains("32m"), "no green: {painted_empty:?}");
    // Digits are never coloured, so a row that has any stays untouched.
    assert_eq!(painted_busy, plain_busy);
}

#[test]
fn reason_label_colours_only_matched_nothing() {
    let plain_matched = cell(|p| reason_label(p, ExcludeReason::MatchedNothing), false);
    let plain_junk = cell(|p| reason_label(p, ExcludeReason::DefaultJunk), false);
    let painted_matched = cell(|p| reason_label(p, ExcludeReason::MatchedNothing), true);
    let painted_junk = cell(|p| reason_label(p, ExcludeReason::DefaultJunk), true);

    assert_eq!(strip_ansi(&painted_matched), plain_matched);
    assert!(
        painted_matched.contains("33m"),
        "no yellow: {painted_matched:?}"
    );
    // An expected exclusion is not a warning, so it stays as written.
    assert_eq!(painted_junk, plain_junk);
}

#[test]
fn agent_state_pads_before_it_paints() {
    let clean = Loaded::Yes {
        pid: Some(1),
        last: Ended::Exit(0),
    };
    let failed = Loaded::Yes {
        pid: None,
        last: Ended::Exit(1),
    };

    let plain_clean = cell(|p| agent_state(p, clean, 12), false);
    let plain_failed = cell(|p| agent_state(p, failed, 12), false);
    let plain_missing = cell(|p| agent_state(p, Loaded::No, 12), false);
    let painted_clean = cell(|p| agent_state(p, clean, 12), true);
    let painted_failed = cell(|p| agent_state(p, failed, 12), true);
    let painted_missing = cell(|p| agent_state(p, Loaded::No, 12), true);

    assert_eq!(plain_clean.chars().count(), 12);
    // A clean last exit is the baseline, so it is never coloured.
    assert_eq!(painted_clean, plain_clean);
    assert_eq!(strip_ansi(&painted_failed), plain_failed);
    assert_eq!(strip_ansi(&painted_missing), plain_missing);
    assert!(painted_failed.contains("31m"), "no red: {painted_failed:?}");
    assert!(
        painted_missing.contains("33m"),
        "no yellow: {painted_missing:?}"
    );
}

/// `config check`'s error label, warn label and remedy line, all three at once.
#[test]
fn config_check_keeps_its_columns_when_painted() {
    let diagnostics = vec![
        Diagnostic {
            severity: Severity::Error,
            profile: Some("coreenginex".to_owned()),
            kind: DiagnosticKind::AliasCollision {
                alias: "docs".to_owned(),
                first: "~/work/docs".to_owned(),
                second: "~/personal/docs".to_owned(),
            },
        },
        Diagnostic {
            severity: Severity::Warning,
            profile: Some("coreenginex".to_owned()),
            kind: DiagnosticKind::NoSchedule,
        },
    ];

    let plain = config_check(&[], &diagnostics, false);
    let painted = config_check(&[], &diagnostics, true);

    assert_eq!(strip_ansi(&painted), plain);
    assert!(painted.contains("31m"), "no red for error: {painted:?}");
    assert!(painted.contains("33m"), "no yellow for warn: {painted:?}");
    assert!(painted.contains("2m"), "no dim for the remedy: {painted:?}");
    assert_eq!(plain.matches("coreenginex\n").count(), 1, "one heading for both: {plain}");
    assert!(plain.ends_with("\n1 error, 1 warning\n"), "{plain}");
}

fn completed(summary: Summary) -> Completed {
    Completed {
        commit: Oid::parse("8f2a10c8f2a10c8f2a10c8f2a10c8f2a10c8f2a1").unwrap(),
        summary,
        warnings: Vec::new(),
        remotes: Vec::new(),
    }
}

/// `no changes` is `run_result`'s only branch with no digits to protect from the
/// padding trap, and the only one this renderer paints.
#[test]
fn run_result_keeps_its_columns_when_painted() {
    let done = completed(Summary::default());
    let plain = run_result("coreenginex", &done, false);
    let painted = run_result("coreenginex", &done, true);

    assert_eq!(strip_ansi(&painted), plain);
    assert!(painted.contains("32m"), "no green: {painted:?}");
    assert!(plain.starts_with("coreenginex  8f2a10c\n"), "{plain}");
}

#[test]
fn history_keeps_its_columns_when_painted() {
    let commit = || Oid::parse("1c93bb71c93bb71c93bb71c93bb71c93bb71c93b").unwrap();
    let backups = vec![
        Backup {
            commit: commit(),
            when: "2026-10-26T12:00:00Z".to_owned(),
            summary: Some(Summary::default()),
        },
        Backup {
            commit: commit(),
            when: "2026-10-19T12:00:00Z".to_owned(),
            summary: None,
        },
    ];

    let plain = history(&backups, false);
    let painted = history(&backups, true);

    assert_eq!(strip_ansi(&painted), plain);
    assert!(painted.contains("32m"), "no green: {painted:?}");
    assert!(!plain.contains("2026-10-26T12:00:00Z"), "a stamp reads as a moment: {plain}");
}

/// `missing` (red), `conflict` (yellow) and the closing note (dim) - `restored`'s
/// three coloured spots in one report.
#[test]
fn restored_keeps_its_columns_when_painted() {
    let done = Done {
        missing: vec!["CoreEngineX/org/notes.md".to_owned()],
        metadata: Some(Applied {
            owner_refused: vec!["CoreEngineX/org/key".to_owned()],
            ..Default::default()
        }),
        repos: vec![Rebuilt {
            key: "CoreEngineX/org".to_owned(),
            at: "/tmp/rescue/CoreEngineX/org".to_owned(),
            head: Some("main aef686f".to_owned()),
            stashes: 0,
            overlay: 0,
            conflicts: vec![Conflict {
                path: "CoreEngineX/org/secret".to_owned(),
                reason: "a directory stands where the file goes".to_owned(),
            }],
        }],
        ..Default::default()
    };
    let into = "/tmp/rescue";

    let plain = restored(into, &done, None, false);
    let painted = restored(into, &done, None, true);

    assert_eq!(strip_ansi(&painted), plain);
    assert!(painted.contains("31m"), "no red for missing: {painted:?}");
    assert!(
        painted.contains("33m"),
        "no yellow for conflict: {painted:?}"
    );
    assert!(painted.contains("2m"), "no dim for the note: {painted:?}");
    assert!(plain.ends_with("\ndone      /tmp/rescue\n"), "{plain}");
}

#[test]
fn a_bundle_is_all_a_bundling_restore_says() {
    let done = Done {
        commit: Some(Oid::parse("8f2a10c8f2a10c8f2a10c8f2a10c8f2a10c8f2a1").unwrap()),
        resolved: vec![("org/x".to_owned(), "the repository's own history".to_owned())],
        bundle: Some("/home/me/x.bundle".to_owned()),
        ..Default::default()
    };
    assert_eq!(
        restored("/tmp/rescue", &done, Some("/home/me"), false),
        format!(
            "using     8f2a10c\nresolved  {:<28}the repository's own history\nbundled   ~/x.bundle\n",
            "org/x"
        )
    );
}

#[test]
fn a_long_list_of_missing_paths_is_cut_and_says_by_how_much() {
    let done = Done {
        missing: (0..13).map(|i| format!("p{i}")).collect(),
        ..Default::default()
    };
    let text = restored("/x", &done, None, false);
    assert!(text.contains("missing   13 paths the extraction could not write\n"), "{text}");
    assert!(text.contains("          p9\n          and 3 more\n"), "{text}");
    assert!(!text.contains("p10\n"), "{text}");
    assert!(!done.has_conflicts());
}

#[test]
fn colour_needs_all_three_to_allow_it() {
    assert!(decide_colour(false, false, true));
    assert!(!decide_colour(true, false, true));
    assert!(!decide_colour(false, true, true));
    assert!(!decide_colour(false, false, false));
}

#[test]
fn painting_wraps_the_text_and_nothing_else() {
    assert_eq!(paint("x", "31", true), "\u{1b}[31mx\u{1b}[0m");
    assert_eq!(paint("x", "31", false), "x");
    assert_eq!(Tint::CyanBold.code(), "1;36");
}

#[test]
fn a_plural_knows_its_words() {
    assert_eq!(plural(1, "file"), "1 file");
    assert_eq!(plural(4, "file"), "4 files");
    assert_eq!(plural(1, "repository"), "1 repository");
    assert_eq!(plural(12, "repository"), "12 repositories");
    assert_eq!(plural(0, "root"), "0 roots");
}

#[test]
fn a_path_loses_its_head_and_prose_its_end() {
    assert_eq!(fit("abcdef", 4), "~def");
    assert_eq!(fit("abcd", 4), "abcd");
    assert_eq!(clip("abcdef", 4), "abc~");
    assert_eq!(clip("abcd", 4), "abcd");
    assert_eq!(clip("abcd", 0), "~");
}

#[test]
fn a_home_directory_reads_as_a_tilde() {
    assert_eq!(abbreviate("/home/me/x", Some("/home/me")), "~/x");
    assert_eq!(abbreviate("/srv/x", Some("/home/me")), "/srv/x");
    assert_eq!(abbreviate("/srv/x", None), "/srv/x");
}

#[test]
fn a_wait_is_said_in_two_units() {
    assert_eq!(until(0), "now");
    assert_eq!(until(-5), "now");
    assert_eq!(until(59), "0m");
    assert_eq!(until(720), "12m");
    assert_eq!(until(31_560), "8h 46m");
    assert_eq!(until(525_600), "6d 2h");
}

#[test]
fn a_schedule_is_said_as_the_config_writes_it() {
    let at = TimeOfDay { hour: 9, minute: 5 };
    assert_eq!(say(Schedule::Daily { at }), "daily 09:05");
    assert_eq!(
        say(Schedule::Weekly {
            day: Weekday::Sunday,
            at
        }),
        "sunday 09:05"
    );
    assert_eq!(say(Schedule::Every(Duration::from_secs(172_800))), "every 2d");
    assert_eq!(say(Schedule::Every(Duration::from_secs(3_600))), "every 1h");
    assert_eq!(say(Schedule::Every(Duration::from_secs(90 * 60))), "every 90m");
    assert_eq!(say(Schedule::Every(Duration::from_secs(61))), "every 61s");
}

#[test]
fn only_what_happened_is_counted() {
    let mut summary = Summary::default();
    assert_eq!(counted(&summary), "no changes");
    summary.changed = 2;
    assert_eq!(counted(&summary), "2 changed");
    summary.deleted = 1_200;
    assert_eq!(counted(&summary), "2 changed, 1,200 deleted");
    summary.added = 3;
    assert_eq!(counted(&summary), "2 changed, 3 added, 1,200 deleted");
}

#[test]
fn a_stamp_that_names_no_moment_is_printed_as_it_stands() {
    assert_eq!(moment("yesterday, I think"), "yesterday, I think");
    assert_eq!(day(""), "");
    let shown = day("2026-10-19T12:00:00Z");
    assert_eq!(shown.len(), 10, "{shown}");
    assert!(shown.starts_with("2026-10-"), "{shown}");
}

#[test]
fn a_moment_reads_by_how_long_ago_it_was() {
    let at = |days_ago| {
        Some(Stamp {
            days_ago,
            date: "2026-10-19".to_owned(),
            clock: "12:00".to_owned(),
        })
    };
    assert_eq!(moment_of("raw", &at(Some(0))), "today 12:00");
    assert_eq!(moment_of("raw", &at(Some(1))), "yesterday 12:00");
    assert_eq!(moment_of("raw", &at(Some(2))), "2026-10-19 12:00");
    assert_eq!(moment_of("raw", &at(None)), "2026-10-19 12:00");
    assert_eq!(moment_of("raw", &None), "raw");
}

#[test]
fn the_next_run_reads_by_how_far_off_it_is() {
    let at = |days, seconds| Ahead {
        days,
        seconds,
        weekday: "Sun".to_owned(),
        date: "2026-10-25".to_owned(),
        clock: "12:00".to_owned(),
    };
    assert_eq!(upcoming_of(&at(Some(0), 720)), "today 12:00, in 12m");
    assert_eq!(upcoming_of(&at(Some(1), 90_000)), "tomorrow 12:00, in 1d 1h");
    assert_eq!(upcoming_of(&at(Some(6), 525_600)), "Sun 12:00, in 6d 2h");
    assert_eq!(upcoming_of(&at(Some(7), 604_800)), "2026-10-25 12:00, in 7d 0h");
    assert_eq!(upcoming_of(&at(None, 0)), "2026-10-25 12:00, in now");
}

#[test]
fn a_dry_run_prints_its_three_tables() {
    let plan = Plan {
        roots: vec![RootPlan {
            alias: "docs".to_owned(),
            root: AbsPath::from_absolute(b"/home/me/Documents").unwrap(),
            entries: Vec::new(),
            warnings: Vec::new(),
            files: 1_234,
            bytes: 41_000_000,
        }],
        excluded: vec![("/home/me/tmp".to_owned(), ExcludeReason::MatchedNothing)],
    };
    let repos = vec![(
        "docs/org".to_owned(),
        Inspection {
            head: RepoHead::Unborn,
            modified: 2,
            untracked: 0,
            objects: 1_100_000,
        },
    )];
    let text = dry_run(&plan, &repos, false, Some("/home/me"), false);
    let rule = "-".repeat(74);
    assert_eq!(
        text,
        format!(
            "{:<45}{:>12}{:>17}\n{rule}\n  {:<43}{:>12}{:>17}\n\n{:<42}{:<18}state\n{rule}\n  \
             {:<40}{:<18}2 modified\n\n{:<50}reason\n{rule}\n  {:<48}matched nothing\n\n{rule}\n  \
             {:<13}{:<40}{:>19}\n  {:<13}{:<40}{:>19}\n",
            "roots",
            "files",
            "size",
            "docs          ~/Documents",
            "1,234",
            "41.0 MB",
            "repositories",
            "head",
            "docs/org",
            "unborn",
            "excluded",
            "~/tmp",
            "to read",
            "1,234 files",
            "41.0 MB",
            "",
            "0 repositories",
            "1.10 MB",
        )
    );
    let quick = dry_run(&plan, &repos, true, Some("/home/me"), false);
    assert!(!quick.contains("repositories"), "{quick}");
}

fn profile_status() -> ProfileStatus {
    ProfileStatus {
        name: "cex".to_owned(),
        overdue: None,
        next_run: Some("Sun 12:00, in 6d 2h".to_owned()),
        backups: 1,
        since: Some("2026-10-01".to_owned()),
        newest: Some("today 12:00".to_owned()),
        store_bytes: 999,
        remotes: vec![failed_row()],
    }
}

#[test]
fn status_puts_the_next_run_at_the_right_edge() {
    let text = status(&[profile_status()], Some("banner"), false);
    assert_eq!(
        text,
        format!(
            "banner\n\ncex{:>71}\n  1 backup since 2026-10-01, newest today 12:00, store 999 B\n\n  \
             {:<10}{:<15}{:<24}{:>23}\n\n",
            "next run  Sun 12:00, in 6d 2h", "ghost", "failed", "behind 2 runs", "today 20:13"
        )
    );
}

#[test]
fn an_overdue_profile_says_so_in_red() {
    let mut late = profile_status();
    late.overdue = Some(Duration::from_secs(90_000));
    late.remotes = Vec::new();
    let text = status(&[late], None, true);
    assert!(text.contains("OVERDUE by 1d 1h\u{1b}[0m\n"), "{text:?}");
    assert!(!text.contains("next run"), "{text:?}");
}

#[test]
fn a_profile_without_remotes_is_local_only() {
    let mut alone = profile_status();
    alone.remotes = Vec::new();
    let text = status(&[alone], None, false);
    assert!(text.contains("  local only, no remotes configured\n"), "{text}");
}

#[test]
fn a_health_report_counts_what_went_wrong() {
    let report = Report {
        sections: vec![
            Section {
                title: "environment".to_owned(),
                checks: vec![
                    Check::new("git", Verdict::Fine, "2.44"),
                    Check::new("config", Verdict::Fail, "1 error, 0 warnings"),
                    Check::new("log directory", Verdict::Warn, "none"),
                ],
            },
            Section {
                title: "quiet".to_owned(),
                checks: Vec::new(),
            },
        ],
    };
    assert_eq!(report.counts(), (1, 1));
    let text = doctor(&report, false);
    assert!(text.starts_with(&format!("environment\n{}\n  git", "-".repeat(74))), "{text}");
    assert!(!text.contains("quiet"), "{text}");
    assert!(text.ends_with("\n1 failure, 1 warning\n"), "{text}");
}

#[test]
fn an_installed_service_echoes_its_binary() {
    assert_eq!(
        service_installed(
            &[Agent::Backup("cex".to_owned()), Agent::Catchup],
            "/home/me/.cargo/bin/tycho",
            Some("/home/me")
        ),
        format!(
            "installed {}\ninstalled {}\n\nrunning   ~/.cargo/bin/tycho\n",
            Agent::Backup("cex".to_owned()).label(),
            Agent::Catchup.label()
        )
    );
}

#[test]
fn a_drifted_agent_says_what_the_config_wants() {
    let at = TimeOfDay { hour: 9, minute: 0 };
    let row = |matches| ServiceRow {
        installed: Installed {
            agent: Agent::Backup("cex".to_owned()),
            loaded: Loaded::Yes {
                pid: None,
                last: Ended::Exit(0),
            },
            scheduled: Some(Schedule::Daily { at }),
        },
        wanted: Some(None),
        matches,
    };
    let drifted = service_status(&[row(Some(false))], false);
    assert!(drifted.ends_with("daily 09:00 (config says none)\n"), "{drifted}");
    let steady = service_status(&[row(Some(true))], false);
    assert!(steady.ends_with("loaded      daily 09:00\n"), "{steady}");
    assert!(row(Some(false)).is_broken());
    assert!(!row(Some(true)).is_broken());
}

#[test]
fn a_history_adds_up_what_was_written() {
    let commit = || Oid::parse("1c93bb71c93bb71c93bb71c93bb71c93bb71c93b").unwrap();
    let summary = Summary {
        changed: 2,
        written_bytes: 1_100_000,
        ..Summary::default()
    };
    let backups = [
        Backup {
            commit: commit(),
            when: "a".to_owned(),
            summary: Some(summary),
        },
        Backup {
            commit: commit(),
            when: "b".to_owned(),
            summary: None,
        },
    ];
    let text = history_at(&backups, &["today 12:00".to_owned(), "b".to_owned()], false);
    assert_eq!(
        text,
        format!(
            "{:<20}{:<10}{:<34}{:>10}\n{rule}\n  {:<18}{:<10}{:<34}{:>10}\n  \
             {:<18}{:<10}{:<34}{:>10}\n{rule}\n  {:<18}{:<10}{:<34}{:>10}\n",
            "when",
            "commit",
            "summary",
            "written",
            "today 12:00",
            "1c93bb7",
            "2 changed",
            "1.10 MB",
            "b",
            "1c93bb7",
            "not written by tycho",
            "-",
            "",
            "",
            "2 backups",
            "1.10 MB",
            rule = "-".repeat(74)
        )
    );
}

#[test]
fn a_paths_history_names_which_half_answered() {
    let commits = [Commit {
        oid: Oid::parse("1c93bb71c93bb71c93bb71c93bb71c93bb71c93b").unwrap(),
        when: "x".to_owned(),
        subject: "Fix it".to_owned(),
    }];
    let text = path_history_at("a/b.md", "org's history", &commits, &["x".to_owned()], false);
    assert_eq!(
        text,
        format!(
            "resolved  a/b.md\n          org's history\n\n{:<20}{:<10}summary\n{}\n  \
             {:<18}{:<10}Fix it\n",
            "when",
            "commit",
            "-".repeat(74),
            "x",
            "1c93bb7"
        )
    );
}

/// A colour sequence in the target itself is taken out with the report's own.
#[test]
fn a_target_with_an_escape_is_the_one_thing_colour_hides() {
    let done = Done::default();
    let odd = "/t/\u{1b}[1mx";
    let plain = restored(odd, &done, None, false);
    assert_ne!(strip_ansi(&restored(odd, &done, None, true)), plain);
    let hidden = restored(odd, &done, Some("/t/\u{1b}[1m"), false);
    assert_eq!(strip_ansi(&restored(odd, &done, Some("/t/\u{1b}[1m"), true)), hidden);
}
