//! Paths on a host where they begin with a drive.

use tycho::cli::rules::{expand, rules_file};
use tycho::config::local::{Entry, GlobEntry, LocalRules};
use tycho::config::raw::{RawConfig, RawProfile, RawSettings, RawWatch, VersionProbe};
use tycho::config::rules::{RuleSet, RuleTree};
use tycho::config::{parse_with, Parsed, WatchEntry};
use tycho::platform::under;
use tycho::primitives::names::AliasError;
use tycho::primitives::path::{AbsPath, PathError, Vars};
use tycho::remote::{glob_of, repo_path, resolve};

const HOME: &str = r"C:\Users\tester";

fn vars() -> Vars {
    Vars { home: Some(HOME.to_owned()), user: Some("tester".to_owned()), drives: true }
}

fn parse(input: &str) -> Result<AbsPath, PathError> {
    AbsPath::parse_in(input, Some(HOME), &vars())
}

fn at(input: &str) -> AbsPath {
    parse(input).expect("absolute")
}

/// `\A` names `A` on whichever drive the process happens to be on, and a backup root that moves
/// with the current directory is refused.
#[test]
fn a_rooted_path_with_no_drive_is_refused() {
    assert_eq!(parse("/data/x"), Err(PathError::Relative("/data/x".to_owned())));
    assert_eq!(parse(r"\data\x"), Err(PathError::Relative(r"\data\x".to_owned())));
    assert_eq!(parse("C:data"), Err(PathError::Relative("C:data".to_owned())));
    assert_eq!(parse("data"), Err(PathError::Relative("data".to_owned())));
}

#[test]
fn either_separator_is_read_and_the_hosts_own_is_written() {
    assert_eq!(at("~/Books").text(), r"C:\Users\tester\Books");
    assert_eq!(at("~").text(), HOME);
    assert_eq!(at(r"C:/data/./x\\y/").text(), r"C:\data\x\y");
    assert_eq!(at(r"C:\").text(), r"C:\");
    assert_eq!(at("C:/data/${USER}/x").text(), r"C:\data\tester\x");
    assert_eq!(parse(r"C:\a\..\b"), Err(PathError::ParentComponent(r"C:\a\..\b".to_owned())));
    let walked = AbsPath::from_absolute_on(true, br"D:\b").expect("absolute");
    assert_eq!(walked.as_path(), br"D:\b");
    assert_eq!(walked.slashed(), b"D:/b");
    assert!(AbsPath::from_absolute(br"D:\b").is_err());
}

#[test]
fn a_share_is_a_drive_of_its_own() {
    assert_eq!(at(r"\\nas\backups\a\b").text(), r"\\nas\backups\a\b");
    assert_eq!(at("//nas/backups").text(), r"\\nas\backups\");
    assert!(parse(r"\\nas").is_err());
    assert!(parse(r"\\.\COM1\x").is_err());
    assert!(parse(r"\\?\C:\x").is_err());
    assert!(at(r"\\nas\backups").contains(&at(r"\\nas\backups\a")));
    assert!(!at(r"\\nas\backups").contains(&at(r"\\nas\other\a")));
}

#[test]
fn a_written_path_reads_back_on_its_host() {
    for path in [r"C:\", r"C:\a", r"z:\A\b c", r"\\s\t\", r"\\s\t\u\v"] {
        let first = at(path);
        let again = AbsPath::from_absolute_on(true, &first.as_path()).expect("absolute");
        assert!(first.same(&again), "{path}");
    }
    assert!(at("c:/x").same(&at(r"C:\x")));
    let slash = AbsPath::from_absolute(br"/C:\/x").expect("absolute");
    assert!(!slash.on_drive());
    assert_eq!(slash.as_path(), br"/C:\/x");
}

#[test]
fn names_are_put_under_a_path_with_its_own_separator() {
    assert_eq!(under(&at(r"C:\d"), "x.lock"), br"C:\d\x.lock");
    assert_eq!(rules_file(&at(r"C:\d")).text(), r"C:\d\.tycho\rules.toml");
    assert_eq!(repo_path(br"C:\d", "demo"), br"C:\d\demo.git");
    assert_eq!(repo_path(b"/d", "demo"), b"/d/demo.git");
    assert_eq!(WatchEntry::Bare(at(r"C:\")).alias(), Err(AliasError::Empty));
    assert_eq!(WatchEntry::Bare(at(r"C:\docs")).alias().expect("an alias").as_str(), "docs");
}

#[test]
fn a_target_is_found_from_the_working_directory() {
    let cwd = Ok(br"C:\work".to_vec());
    let found = |value: &str| expand(value, &cwd, Some(HOME), &vars()).map(|path| path.text());
    assert_eq!(found(r"a\b"), Ok(r"C:\work\a\b".to_owned()));
    assert_eq!(found(r"\a"), Ok(r"C:\a".to_owned()));
    assert_eq!(found(r"D:\a"), Ok(r"D:\a".to_owned()));
}

#[test]
fn a_glob_remote_is_taken_apart_at_the_hosts_separator() {
    let path = at(r"C:\Users\me\GoogleDrive-*\Backups");
    let glob = glob_of(&path).expect("a glob");
    assert_eq!(glob.parent, r"C:\Users\me");
    assert_eq!((glob.prefix.as_str(), glob.rest.as_str()), ("GoogleDrive-", "Backups"));
    let names = ["GoogleDrive-a".to_owned(), "Other".to_owned()];
    assert_eq!(
        resolve(&path, &names).expect("one"),
        br"C:\Users\me\GoogleDrive-a\Backups"
    );
}

#[test]
fn a_local_glob_is_rooted_at_its_directory() {
    let rules = RuleSet { watch: vec![at(r"C:\A")], ..RuleSet::default() };
    let mut tree = RuleTree::build(&rules).expect("builds");
    let base = at(r"C:\A\sub");
    tree.add_local(
        &base,
        &rules_file(&base),
        &LocalRules {
            ignore: vec![Entry { text: "no".to_owned(), line: 1, path: at(r"C:\A\sub\no") }],
            reinclude: Vec::new(),
            globs: vec![GlobEntry { text: "*.tmp".to_owned(), line: 2 }],
            unknown: Vec::new(),
        },
    )
    .expect("compiles");
    assert!(tree.captures(&at(r"C:\A\x.tmp")));
    assert!(!tree.captures(&at(r"C:\A\sub\in\x.tmp")));
    assert!(!tree.captures(&at(r"C:\A\sub\no\x")));
    assert!(tree.captures(&at(r"C:\A\sub\x")));
}

fn ignoring(entries: &[&str], drives: bool) -> Parsed {
    let version = Some(1);
    let vars = Vars { drives, ..vars() };
    parse_with(
        Ok(VersionProbe { version }),
        Ok(RawConfig {
            version,
            settings: RawSettings { log_level: None, unknown: Vec::new() },
            profile: vec![RawProfile {
                name: Some("demo".to_owned()),
                watch: vec![RawWatch::Bare("~/A".to_owned())],
                ignore: entries.iter().map(|entry| (*entry).to_owned()).collect(),
                reinclude: Vec::new(),
                remotes: Vec::new(),
                schedule: None,
                use_default_ignores: None,
                store_path: None,
                local_only: Some(true),
                unknown: Vec::new(),
            }],
            unknown: Vec::new(),
        }),
        Some(if drives { HOME } else { "/h" }),
        &vars,
    )
    .expect("read")
}

/// An entry with a drive letter that fell through to the globs would match nothing and fire
/// never.
#[test]
fn an_ignored_drive_path_is_a_path_only_where_there_are_drives() {
    let there = ignoring(&["C:/Users/tester/A/x", "*.tmp"], true);
    let profile = &there.config.profiles[0];
    assert_eq!(profile.ignore_globs, ["*.tmp"]);
    assert_eq!(profile.ignore_paths[0].text(), r"C:\Users\tester\A\x");
    let here = ignoring(&["C:/backups", "*.tmp"], false);
    assert_eq!(here.config.profiles[0].ignore_globs, ["C:/backups", "*.tmp"]);
}
