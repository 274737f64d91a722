//! Walking a root, the guards on a plan, and what a repository adds beyond its history.

use tycho::capture::overlay::{overlay, overlay_call, take, Expansion, Found};
use tycho::capture::{
    capture, check_object_format, fetch_call, inspect, inspect_calls, nested_roots, stash_call,
    stash_fetch, CaptureError, Contribution, Inspection,
};
use tycho::config::rules::{Hits, RuleTree};
use tycho::config::{Profile, WatchEntry};
use tycho::git::Repo;
use tycho::plan::walk::{repo_root, stored_path, Item, Place, Seen, Walk};
use tycho::plan::{
    build, next_root, Entry, ExcludeReason, FileKind, Fired, Plan, PlanError, RepoHead, RepoRoot, RootPlan,
    SkipReason, Warning,
};
use tycho::primitives::encode::FileMode;
use tycho::primitives::names::{BranchName, ProfileName, RootAlias};
use tycho::primitives::oid::Oid;
use tycho::primitives::path::AbsPath;
use tycho::process::{Output, RunError};
use tycho::textmap::TextMap;

const SHA: &str = "de4c69c000000000000000000000000000000001";

fn at(path: &str) -> AbsPath {
    AbsPath::from_absolute(path.as_bytes()).expect("absolute")
}

fn profile(roots: &[&str], ignored: &[&str], globs: &[&str]) -> Profile {
    Profile {
        name: ProfileName::parse("demo").expect("a name"),
        watch: roots.iter().map(|root| WatchEntry::Bare(at(root))).collect(),
        ignore_paths: ignored.iter().map(|path| at(path)).collect(),
        ignore_globs: globs.iter().map(|glob| (*glob).to_owned()).collect(),
        reinclude: Vec::new(),
        remotes: Vec::new(),
        schedule: None,
        use_default_ignores: false,
        store_path: None,
        local_only: true,
    }
}

fn rules(profile: &Profile) -> RuleTree {
    RuleTree::build(&profile.rule_set()).ok().expect("builds")
}

fn file(path: &str, size: u64) -> Item {
    seen(path, Ok(FileKind::Regular { executable: false }), false, size)
}

fn directory(path: &str, repository: bool) -> Item {
    seen(path, Ok(FileKind::Directory), repository, 0)
}

fn seen(path: &str, kind: Result<FileKind, String>, repository: bool, size: u64) -> Item {
    Item::Seen(Seen { path: at(path), kind, repository, size })
}

fn ended(success: bool, stdout: &[u8], stderr: &[u8]) -> Output {
    Output { success, stdout: stdout.to_vec(), stderr: stderr.to_vec() }
}

fn printed(text: &str) -> Result<Output, RunError> {
    Ok(ended(true, text.as_bytes(), b""))
}

/// Walks a root whose directories hold what is given.
fn walked(
    profile: &Profile,
    tree: &RuleTree,
    hits: &mut Hits,
    fired: &mut Fired,
    list: impl Fn(&str) -> Result<Vec<Item>, String>,
) -> Result<RootPlan, PlanError> {
    let entry = &profile.watch[0];
    let alias = entry.alias().expect("an alias");
    let mut walk = Walk::start(entry.path(), &alias, Ok(FileKind::Directory), 0, tree, hits, fired)?;
    while let Some(place) = walk.next() {
        let listing = list(&place.dir.text());
        walk.visit(&place, listing, tree, hits, fired)?;
    }
    Ok(walk.finish())
}

fn sources(root: &RootPlan) -> Vec<String> {
    root.entries
        .iter()
        .map(|entry| match entry {
            Entry::Plain(file) => file.source.text(),
            Entry::Repo(repo) => format!("{} as {}", repo.source.text(), repo.key),
        })
        .collect()
}

#[test]
fn a_walk_takes_files_and_repositories_in_path_order() {
    let demo = profile(&["/r/docs"], &["/r/docs/skip"], &[]);
    let tree = rules(&demo);
    let (mut hits, mut fired): (Hits, Fired) = (Hits::default(), TextMap::new());
    let root = walked(&demo, &tree, &mut hits, &mut fired, |dir| match dir {
        "/r/docs" => Ok(vec![
            directory("/r/docs/work", true),
            directory("/r/docs/skip", false),
            file("/r/docs/b.md", 20),
            file("/r/docs/a.md", 10),
            seen("/r/docs/.git", Ok(FileKind::Directory), false, 0),
            seen("/r/docs/pipe", Ok(FileKind::Skip(SkipReason::Fifo)), false, 0),
            seen("/r/docs/odd", Err("denied".to_owned()), false, 0),
            Item::Unreadable("gone".to_owned()),
        ]),
        "/r/docs/work" => Ok(vec![file("/r/docs/work/x.rs", 5), directory("/r/docs/work/sub", true)]),
        other => Err(format!("nothing at {other}")),
    })
    .ok()
    .expect("walks");
    assert_eq!(
        sources(&root),
        [
            "/r/docs/a.md",
            "/r/docs/b.md",
            "/r/docs/work as docs/work",
            "/r/docs/work/sub as docs/work/sub",
        ]
    );
    assert_eq!((root.files, root.bytes, root.capturable()), (2, 30, 4));
    assert_eq!(root.alias, "docs");
    assert_eq!(fired.get("/r/docs/skip"), Some(&ExcludeReason::IgnoreRule));
    let unreadable = |path: &str, reason: &str| Warning::Unreadable {
        path: path.to_owned(),
        reason: reason.to_owned(),
    };
    assert_eq!(
        root.warnings,
        vec![
            Warning::Skipped { path: "/r/docs/pipe".to_owned(), reason: SkipReason::Fifo },
            unreadable("/r/docs/odd", "denied"),
            unreadable("/r/docs", "gone"),
            unreadable("/r/docs/work/sub", "nothing at /r/docs/work/sub"),
        ]
    );
    match &root.entries[0] {
        Entry::Plain(plain) => {
            assert_eq!(plain.stored.text(), "docs/a.md");
            assert_eq!((plain.mode, plain.size), (FileMode::Regular, 10));
        }
        other => panic!("{other:?}"),
    }
}

#[test]
fn a_root_that_cannot_be_read_stops_the_plan() {
    let demo = profile(&["/r/docs"], &[], &[]);
    let tree = rules(&demo);
    let (mut hits, mut fired): (Hits, Fired) = (Hits::default(), TextMap::new());
    let refused = walked(&demo, &tree, &mut hits, &mut fired, |_| Err("denied".to_owned()));
    let want =
        PlanError::RootUnreadable { root: "/r/docs".to_owned(), reason: "denied".to_owned() };
    assert_eq!(refused.err(), Some(want));
    let alias = RootAlias::explicit("docs").expect("an alias");
    let gone = Walk::start(&at("/r"), &alias, Err("no".to_owned()), 0, &tree, &mut hits, &mut fired);
    assert!(matches!(gone, Err(PlanError::RootUnreadable { .. })));
}

#[test]
fn a_watched_file_is_its_own_root() {
    let demo = profile(&["/r/notes.md"], &[], &[]);
    let tree = rules(&demo);
    let (mut hits, mut fired): (Hits, Fired) = (Hits::default(), TextMap::new());
    let alias = demo.watch[0].alias().expect("an alias");
    let kind = Ok(FileKind::Regular { executable: true });
    let mut walk =
        Walk::start(&at("/r/notes.md"), &alias, kind, 7, &tree, &mut hits, &mut fired).ok().expect("starts");
    assert!(walk.next().is_none());
    let root = walk.finish();
    assert_eq!((root.files, root.bytes), (1, 7));
    assert_eq!(sources(&root), ["/r/notes.md"]);
}

#[test]
fn a_place_says_where_it_is() {
    let demo = profile(&["/r"], &[], &[]);
    let tree = rules(&demo);
    let (mut hits, mut fired): (Hits, Fired) = (Hits::default(), TextMap::new());
    let alias = RootAlias::explicit("r").expect("an alias");
    let mut walk =
        Walk::start(&at("/r"), &alias, Ok(FileKind::Directory), 0, &tree, &mut hits, &mut fired)
            .ok()
            .expect("starts");
    let first: Place = walk.next().expect("the root");
    assert_eq!((first.dir.text().as_str(), first.inside_repo, first.first), ("/r", false, true));
    let listing = Ok(vec![directory("/r/work", true)]);
    assert!(walk.visit(&first, listing, &tree, &mut hits, &mut fired).is_ok());
    let second = walk.next().expect("the repository");
    assert_eq!((second.dir.text().as_str(), second.inside_repo, second.first), ("/r/work", true, false));
}

#[test]
fn a_stored_path_is_the_alias_and_the_rest() {
    let alias = RootAlias::explicit("docs").expect("an alias");
    let stored = |path: &str| stored_path(&at(path), &at("/r/d"), &alias).map(|p| p.text());
    assert_eq!(stored("/r/d/a/b.md"), Ok("docs/a/b.md".to_owned()));
    assert_eq!(stored("/r/d"), Ok("docs".to_owned()));
    assert!(stored("/r/d/.GIT/x").is_err());
    let repo = repo_root(&at("/r/d/my repo"), &at("/r/d"), &alias).expect("under the root");
    assert_eq!(repo.key, "docs/my%20repo");
    assert!(repo_root(&at("/z"), &at("/r/d"), &alias).is_err());
}

fn root_of(alias: &str, files: usize) -> RootPlan {
    let mut entries = Vec::new();
    for n in 0..files {
        entries.push(Entry::Repo(RepoRoot { source: at(&format!("/r/{n}")), key: format!("k{n}") }));
    }
    RootPlan { alias: alias.to_owned(), root: at("/r"), entries, warnings: Vec::new(), files: 0, bytes: 0 }
}

fn planned(files: usize, before: usize, allow: bool) -> Result<Plan, PlanError> {
    let demo = profile(&["/r"], &["/r/there", "/r/gone"], &["*.tmp"]);
    let tree = rules(&demo);
    let mut fired: Fired = TextMap::new();
    fired.insert("b".to_owned(), ExcludeReason::GlobRule);
    fired.insert("a".to_owned(), ExcludeReason::DefaultJunk);
    let previous = vec![("r".to_owned(), before)];
    build(
        &demo,
        &tree,
        vec![Ok(root_of("r", files))],
        fired,
        &Hits::default(),
        &[true, false],
        &previous,
        allow,
    )
}

#[test]
fn an_empty_root_is_never_a_plan() {
    assert_eq!(planned(0, 0, false).err(), Some(PlanError::RootEmpty { root: "/r".to_owned() }));
    assert_eq!(planned(0, 0, true).err(), Some(PlanError::RootEmpty { root: "/r".to_owned() }));
}

#[test]
fn a_root_that_shrank_is_asked_about_once() {
    let shrank = PlanError::RootShrank { root: "/r".to_owned(), before: 1000, after: 3 };
    assert_eq!(planned(3, 1000, false).err(), Some(shrank));
    assert!(planned(3, 1000, true).is_ok());
    assert!(planned(3, 4, false).is_ok());
}

#[test]
fn a_plan_names_every_rule_that_fired_and_every_one_that_did_not() {
    let plan = planned(2, 2, false).ok().expect("a plan");
    let rows: Vec<(&str, ExcludeReason)> =
        plan.excluded.iter().map(|(rule, reason)| (rule.as_str(), *reason)).collect();
    assert_eq!(
        rows,
        [
            ("a", ExcludeReason::DefaultJunk),
            ("b", ExcludeReason::GlobRule),
            ("/r/gone", ExcludeReason::MatchedNothing),
            ("*.tmp", ExcludeReason::MatchedNothing),
        ]
    );
    let nested: Vec<String> = nested_roots(&plan).iter().map(AbsPath::text).collect();
    assert_eq!(nested, ["/r/0", "/r/1"]);
}

// --- what a repository adds ---------------------------------------------------

fn repo() -> RepoRoot {
    RepoRoot { source: at("/w"), key: "r/w".to_owned() }
}

#[test]
fn a_repository_is_read_from_what_git_prints() {
    let calls = inspect_calls(&at("/w"));
    assert_eq!(calls.len(), 4);
    assert_eq!(calls[2].args, ["status", "--porcelain=v1", "-z", "--untracked-files=all"]);
    let sha = ended(true, format!("{SHA}\n").as_bytes(), b"");
    let status = ended(true, b" M a.md\0?? b.md\0?? c.md\0", b"");
    let size = ended(true, b"count: 3\nsize: 4\nin-pack: 9\nsize-pack: 6\n", b"");
    let read = inspect(&ended(true, b"main\n", b""), &sha, &status, &size).expect("counted");
    let head = RepoHead::Branch {
        name: BranchName::parse("main").expect("a branch"),
        sha: Oid::parse(SHA).expect("an object id"),
    };
    assert_eq!(read, Inspection { head, modified: 1, untracked: 2, objects: 10_240 });
    let nothing = ended(false, b"", b"");
    let unborn = inspect(&nothing, &nothing, &nothing, &nothing).expect("counted");
    assert_eq!(unborn.head, RepoHead::Unborn);
    assert_eq!(unborn.objects, 0);
}

#[test]
fn another_object_format_and_colliding_refs_fail_the_run() {
    let store = Repo::at_unchecked(&at("/s.git"));
    assert!(check_object_format(printed("sha1\n"), &at("/w")).is_ok());
    let refused = fetch_call(&store, &repo(), printed("sha256\n"), printed("")).expect_err("format");
    assert_eq!(
        refused,
        CaptureError::ObjectFormat { repo: "/w".to_owned(), found: "sha256".to_owned() }
    );
    let colliding = format!("{SHA}\trefs/heads/Main\n{SHA}\trefs/heads/main\n");
    assert!(matches!(
        fetch_call(&store, &repo(), printed("sha1\n"), printed(&colliding)),
        Err(CaptureError::RefCollision { .. })
    ));
    let listed = printed(&format!("{SHA}\trefs/heads/main\n"));
    let call = fetch_call(&store, &repo(), printed("sha1\n"), listed).expect("fetches");
    assert_eq!(call.args, ["fetch", "--no-tags", "--quiet", "/w", "+refs/*:refs/tycho/r/w/*"]);
}

#[test]
fn stashes_are_fetched_until_there_is_none() {
    let store = Repo::at_unchecked(&at("/s.git"));
    assert_eq!(stash_call(&at("/w"), 1).args, ["rev-parse", "--verify", "--quiet", "stash@{1}"]);
    let call = stash_fetch(&store, &repo(), 1, printed(&format!("{SHA}\n"))).expect("fetches");
    assert_eq!(
        call.args,
        ["fetch", "--no-tags", "--quiet", "/w", &format!("+{SHA}:refs/tycho/r/w/stashes/1")]
    );
    assert!(stash_fetch(&store, &repo(), 2, Ok(ended(false, b"", b""))).is_none());
    assert!(stash_fetch(&store, &repo(), 2, printed("nonsense")).is_none());
}

#[test]
fn an_overlay_is_what_git_does_not_hold() {
    assert_eq!(
        overlay_call(&at("/w")).args,
        ["status", "--porcelain=v1", "-z", "--untracked-files=all", "--ignored=traditional"]
    );
    let out = ended(true, b" M a.md\0R  new.md\0old.md\0!! target/\0", b"");
    let (found, contribution) = overlay(&repo(), Ok(out));
    let found: Vec<(String, bool)> =
        found.iter().map(|one| (one.path.text(), one.directory)).collect();
    assert_eq!(
        found,
        [
            ("/w/a.md".to_owned(), false),
            ("/w/new.md".to_owned(), false),
            ("/w/target".to_owned(), true),
        ]
    );
    assert!(contribution.warnings.is_empty());
    let (none, failed) = overlay(&repo(), Ok(ended(false, b"", b" disk \n")));
    assert!(none.is_empty());
    assert_eq!(
        failed.warnings,
        ["r/w: git status failed, so no uncommitted or gitignored file was captured from it: disk"]
    );
}

#[test]
fn an_overlay_keeps_to_the_rules() {
    let demo = profile(&["/w"], &["/w/target"], &[]);
    let tree = rules(&demo);
    let mut contribution = Contribution::default();
    let plain = Ok(FileKind::Regular { executable: false });
    take(&mut contribution, &at("/w/a.md"), &plain, &repo(), &tree);
    take(&mut contribution, &at("/w/target/x"), &plain, &repo(), &tree);
    take(&mut contribution, &at("/w/pipe"), &Ok(FileKind::Skip(SkipReason::Fifo)), &repo(), &tree);
    let taken: Vec<(String, String)> =
        contribution.files.iter().map(|(from, to)| (from.text(), to.text())).collect();
    assert_eq!(taken, [("/w/a.md".to_owned(), ".tycho/repos/r/w/overlay/a.md".to_owned())]);

    let mut expansion = Expansion::new(&at("/w/new"));
    let mut contribution = Contribution::default();
    let nested = [at("/w/new/inner")];
    while let Some(dir) = expansion.next(&nested) {
        let found = |path: &str, kind: FileKind| Found { path: at(path), kind: Ok(kind) };
        let listing = match dir.text().as_str() {
            "/w/new" => Some(vec![
                found("/w/new/b.md", FileKind::Regular { executable: false }),
                found("/w/new/inner", FileKind::Directory),
                found("/w/new/deep", FileKind::Directory),
            ]),
            _ => None,
        };
        expansion.visit(&mut contribution, &dir, listing, &repo(), &tree);
    }
    assert_eq!(contribution.files.len(), 1);
    assert_eq!(contribution.warnings, ["r/w: could not read /w/new/deep"]);
}

#[test]
fn a_capture_ends_with_its_provenance() {
    let stashes = Contribution { warnings: vec!["s".to_owned()], ..Contribution::default() };
    let overlay = Contribution { warnings: vec!["o".to_owned()], ..Contribution::default() };
    let all = capture(&repo(), stashes, overlay, "origin    none\n".to_owned()).ok().expect("captures");
    assert_eq!(all.warnings, ["s", "o"]);
    assert_eq!(all.generated.len(), 1);
    assert_eq!(all.generated[0].0.text(), ".tycho/repos/r/w/REPO.txt");
    assert_eq!(all.generated[0].1, b"origin    none\n");
}

#[test]
fn roots_are_walked_in_order_up_to_the_first_that_cannot_be() {
    let demo = profile(&["/r", "/s", "/t"], &[], &[]);
    let mut walked: Vec<Result<RootPlan, PlanError>> = Vec::new();
    assert_eq!(next_root(&demo, &walked), Some(0));
    walked.push(Ok(root_of("r", 1)));
    assert_eq!(next_root(&demo, &walked), Some(1));
    walked.push(Err(PlanError::RootEmpty { root: "/s".to_owned() }));
    assert_eq!(next_root(&demo, &walked), None);
    assert_eq!(next_root(&profile(&[], &[], &[]), &[]), None);
}

#[test]
fn a_root_whose_name_can_be_no_alias_is_refused_before_it_is_read() {
    let demo = profile(&["/r/.hidden"], &[], &[]);
    let tree = rules(&demo);
    let mut hits = Hits::default();
    let mut fired: Fired = TextMap::new();
    let begun =
        Walk::begin(&demo.watch[0], Ok(FileKind::Directory), 0, &tree, &mut hits, &mut fired);
    match begun.err() {
        Some(PlanError::BadAlias { root, .. }) => assert_eq!(root, "/r/.hidden"),
        other => panic!("{other:?}"),
    }
    let plain = profile(&["/r/docs"], &[], &[]);
    let begun =
        Walk::begin(&plain.watch[0], Ok(FileKind::Directory), 0, &tree, &mut hits, &mut fired);
    assert_eq!(begun.ok().expect("begins").finish().alias, "docs");
}
