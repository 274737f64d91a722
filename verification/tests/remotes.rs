//! First contact, pushing and checking a remote.

use tycho::git::refs::PushOutcome;
use tycho::git::{Repo, RepoError};
use tycho::primitives::oid::Oid;
use tycho::primitives::path::AbsPath;
use tycho::process::{Output, RunError};
use tycho::remote::{
    classify, compare, compare_calls, explain, glob_of, initialise, publish, refspecs, repo_path, resolve, verify, Event,
    FailureReason, Observation, RemoteError, RemoteKind, Stage,
};
use tycho::textmap::TextMap;

const SHA: &str = "de4c69c000000000000000000000000000000001";
const OTHER: &str = "0123456789abcdef0123456789abcdef01234567";

fn at(path: &str) -> AbsPath {
    AbsPath::from_absolute(path.as_bytes()).expect("absolute")
}

fn oid(text: &str) -> Oid {
    Oid::parse(text).expect("an object id")
}

fn names(list: &[&str]) -> Vec<String> {
    list.iter().map(|name| (*name).to_owned()).collect()
}

fn ended(success: bool, stderr: &str) -> Result<Output, RunError> {
    Ok(Output { success, stdout: Vec::new(), stderr: stderr.as_bytes().to_vec() })
}

fn held(rows: &[(&str, &str)]) -> TextMap<Oid> {
    let mut out = TextMap::new();
    for (name, sha) in rows {
        out.insert((*name).to_owned(), oid(sha));
    }
    out
}

#[test]
fn heads_only_ever_move_forward_on_a_remote() {
    let specs: Vec<String> = refspecs().iter().map(|spec| spec.text()).collect();
    assert_eq!(specs, ["refs/heads/*:refs/heads/*", "+refs/tycho/*:refs/tycho/*"]);
}

#[test]
fn a_folder_is_somebodys_until_it_looks_like_a_repository() {
    let path = at("/d/demo.git");
    let of = |exists: bool, listed: &[&str], usable: bool| {
        classify(&path, exists, Ok(names(listed)), ended(usable, ""))
    };
    assert_eq!(of(false, &[], false), Ok(RemoteKind::Absent));
    assert_eq!(of(true, &[], false), Ok(RemoteKind::Absent));
    assert_eq!(
        of(true, &["z", "b", "a", "d", "c"], false),
        Ok(RemoteKind::Foreign { found: names(&["a", "b", "c", "d"]) })
    );
    assert_eq!(
        of(true, &["HEAD", "refs"], true),
        Ok(RemoteKind::Incomplete { missing: names(&["objects"]) })
    );
    assert_eq!(of(true, &["HEAD", "refs", "objects"], true), Ok(RemoteKind::Repository));
    assert_eq!(
        of(true, &["HEAD", "refs", "objects"], false),
        Ok(RemoteKind::Incomplete { missing: names(&["a readable repository"]) })
    );
    let unread = classify(&path, true, Err("denied".to_owned()), ended(true, "")).expect_err("io");
    assert_eq!(unread.text(), "reading /d/demo.git: denied");
}

#[test]
fn only_what_tycho_did_not_make_is_refused() {
    assert_eq!(RemoteKind::Absent.refusal(), None);
    assert_eq!(RemoteKind::Repository.refusal(), None);
    assert_eq!(
        RemoteKind::Foreign { found: names(&["a", "b"]) }.refusal().as_deref(),
        Some(
            "holds content that is not a tycho repository (a, b); pointing a backup at it would initialise over somebody's files"
        )
    );
    assert_eq!(
        RemoteKind::Incomplete { missing: names(&["refs"]) }.refusal().as_deref(),
        Some(
            "looks like a repository with refs missing; the sync client may still be downloading it, so this is a wait-or-repair rather than a wrong path"
        )
    );
}

#[test]
fn a_star_must_match_exactly_one_directory() {
    let plain = at("/v/T7/tycho");
    assert!(glob_of(&plain).is_none());
    assert_eq!(resolve(&plain, &[]), Ok(b"/v/T7/tycho".to_vec()));

    let glob = at("/c/GoogleDrive-*-x/Backups");
    let parts = glob_of(&glob).expect("a glob");
    assert_eq!(parts.parent, "/c");
    assert_eq!(parts.prefix, "GoogleDrive-");
    assert_eq!(parts.suffix, "-x");
    assert_eq!(parts.rest, "Backups");
    assert_eq!(
        resolve(&glob, &names(&["Dropbox", "GoogleDrive-me-x", "GoogleDrive-me"])),
        Ok(b"/c/GoogleDrive-me-x/Backups".to_vec())
    );
    assert_eq!(
        resolve(&glob, &names(&["Dropbox"])),
        Err(RemoteError::NoGlobMatch { path: "/c/GoogleDrive-*-x/Backups".to_owned() })
    );
    let two = resolve(&glob, &names(&["GoogleDrive-b-x", "GoogleDrive-a-x"])).expect_err("two");
    assert_eq!(
        two.text(),
        "/c/GoogleDrive-*-x/Backups matches 2 directories, so which one is a coin flip: /c/GoogleDrive-a-x/Backups, /c/GoogleDrive-b-x/Backups"
    );
    assert_eq!(repo_path(b"/v/T7", "demo"), b"/v/T7/demo.git");
}

#[test]
fn a_new_remote_never_collects_and_never_rewinds() {
    let asked: Vec<Vec<String>> =
        initialise(&at("/d/demo.git")).into_iter().map(|call| call.args).collect();
    assert_eq!(asked[0], ["init", "--bare", "--object-format=sha1", "-b", "main", "."]);
    assert_eq!(asked[1], ["config", "receive.autogc", "false"]);
    assert_eq!(asked[2], ["config", "gc.auto", "0"]);
    assert_eq!(asked[3], ["config", "receive.denyNonFastForwards", "true"]);
    assert_eq!(asked[4], ["symbolic-ref", "HEAD", "refs/heads/main"]);
    assert_eq!(asked.len(), 5);
}

#[test]
fn every_local_ref_must_be_there_and_the_same() {
    let local = held(&[("refs/heads/main", SHA), ("refs/tycho/a", OTHER)]);
    assert_eq!(verify(&local, &local), None);
    let more = held(&[("refs/heads/main", SHA), ("refs/tycho/a", OTHER), ("refs/x", SHA)]);
    assert_eq!(verify(&local, &more), None);
    let wrong = held(&[("refs/heads/main", OTHER)]);
    assert_eq!(
        verify(&local, &wrong),
        Some(format!(
            "refs/heads/main is {OTHER} there and {SHA} here; refs/tycho/a is absent"
        ))
    );
}

#[test]
fn only_four_faults_are_named() {
    let local = held(&[("r/1", SHA), ("r/2", SHA), ("r/3", SHA), ("r/4", SHA), ("r/5", SHA)]);
    assert_eq!(
        verify(&local, &TextMap::new()).as_deref(),
        Some("r/1 is absent; r/2 is absent; r/3 is absent; r/4 is absent")
    );
}

#[test]
fn gits_ownership_guard_is_named_where_it_is_the_cause() {
    let repo = at("/v/x.git");
    let guard = ended(false, "fatal: detected dubious ownership in '/v/x.git'\n");
    assert_eq!(explain(&repo, "failed", &ended(false, "other")), "failed");
    assert_eq!(explain(&repo, "dubious ownership", &guard), "dubious ownership");
    assert_eq!(
        explain(&repo, "failed", &guard),
        "git will not use /v/x.git: it is on a filesystem that records no ownership. fatal: detected dubious ownership in '/v/x.git'"
    );
    assert_eq!(
        explain(&repo, "failed", &Err(RunError { message: "x".to_owned() })),
        "failed"
    );
}

fn located(exists: bool, parent_exists: bool) -> Event {
    Event::Located { folder: Ok(b"/v/T7".to_vec()), exists, parent_exists }
}

fn classified(kind: RemoteKind) -> Event {
    Event::Classified { repo: at("/v/T7/x.git"), kind: Ok(kind), probe: ended(true, "") }
}

fn unusable(stage: Stage) -> String {
    match stage {
        Stage::Done(Observation::Refused(FailureReason::Unusable(said))) => said,
        other => panic!("{other:?}"),
    }
}

#[test]
fn an_unplugged_drive_is_unreachable_and_never_created() {
    assert_eq!(publish(Stage::Locate, located(false, false)), Stage::Done(Observation::Unreachable));
    assert_eq!(publish(Stage::Locate, located(false, true)), Stage::MakeFolder);
    assert_eq!(publish(Stage::Locate, located(true, true)), Stage::Classify);
    let nothing = Event::Located {
        folder: Err(RemoteError::NoGlobMatch { path: "/v/*".to_owned() }),
        exists: false,
        parent_exists: false,
    };
    assert_eq!(publish(Stage::Locate, nothing), Stage::Done(Observation::Unreachable));
    let made = Event::FolderMade { folder: "/v/T7".to_owned(), outcome: Err("full".to_owned()) };
    assert_eq!(unusable(publish(Stage::MakeFolder, made)), "creating /v/T7: full");
    let made = Event::FolderMade { folder: "/v/T7".to_owned(), outcome: Ok(()) };
    assert_eq!(publish(Stage::MakeFolder, made), Stage::Classify);
}

#[test]
fn a_remote_is_initialised_before_it_is_pushed_to() {
    assert_eq!(publish(Stage::Classify, classified(RemoteKind::Absent)), Stage::Initialise);
    assert_eq!(publish(Stage::Classify, classified(RemoteKind::Repository)), Stage::Push);
    let foreign = classified(RemoteKind::Foreign { found: names(&["a"]) });
    assert!(unusable(publish(Stage::Classify, foreign)).starts_with("holds content"));
    let done = Event::Initialised { repo: at("/v/T7/x.git"), outcome: Ok(()), probe: ended(true, "") };
    assert_eq!(publish(Stage::Initialise, done), Stage::Push);
}

#[test]
fn nothing_is_verified_that_was_not_compared() {
    assert_eq!(publish(Stage::Push, Event::Pushed(Ok(PushOutcome::Accepted))), Stage::Verify);
    let refused = PushOutcome::Refused { detail: "no".to_owned() };
    assert_eq!(
        publish(Stage::Push, Event::Pushed(Ok(refused))),
        Stage::Done(Observation::Refused(FailureReason::Rejected("no".to_owned())))
    );
    let failed = RepoError::Unparsable("x".to_owned());
    let said = failed.text();
    assert_eq!(
        publish(Stage::Push, Event::Pushed(Err(failed))),
        Stage::Done(Observation::Refused(FailureReason::Other(said)))
    );
    let same = Event::Compared { outcome: Ok(None), head: Some(oid(SHA)) };
    assert_eq!(
        publish(Stage::Verify, same),
        Stage::Done(Observation::Verified { head: SHA.to_owned() })
    );
    let short = Event::Compared { outcome: Ok(Some("r is absent".to_owned())), head: None };
    assert_eq!(
        publish(Stage::Verify, short),
        Stage::Done(Observation::Refused(FailureReason::Unverified("r is absent".to_owned())))
    );
}

#[test]
fn a_comparison_asks_for_every_prefix_a_push_carries() {
    let store = at("/s");
    let asked: Vec<Vec<String>> = compare_calls(&Repo::at_unchecked(&store), &at("/d/demo.git"))
        .into_iter()
        .map(|call| call.args)
        .collect();
    assert_eq!(asked[0], ["ls-remote", "/d/demo.git"]);
    assert_eq!(asked[1].last().map(String::as_str), Some("refs/heads/"));
    assert_eq!(asked[2].last().map(String::as_str), Some("refs/tycho/"));
    assert_eq!(asked.len(), 3);
}

#[test]
fn a_comparison_takes_the_refs_of_both_prefixes() {
    let listed = |line: String| -> Result<Output, RunError> {
        Ok(Output { success: true, stdout: line.into_bytes(), stderr: Vec::new() })
    };
    let main = || listed(format!("{SHA}\trefs/heads/main\n"));
    let ours = || listed(format!("{OTHER}\trefs/tycho/a\n"));
    assert_eq!(
        compare(main(), main(), ours()),
        Ok(Some("refs/tycho/a is absent".to_owned()))
    );
    let failed = || Err(RunError { message: "no git".to_owned() });
    assert!(matches!(compare(failed(), main(), ours()), Err(RemoteError::Repo(_))));
    assert!(matches!(compare(main(), main(), failed()), Err(RemoteError::Repo(_))));
}
