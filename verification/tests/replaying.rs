//! Reading what a file system holds beside the bytes, and putting it back.

use tycho::capture::record::record_calls;
use tycho::capture::{object_format_call, stash_warning};
use tycho::git::Repo;
use tycho::metadata::replay::{
    add_value, apply, capture, directories, names, names_call, owners_wanted, sources, step_call, xattr_call,
    xattr_value_call, xattrs_wanted, Applied, Names, Stat, Stated, Step, Target, Wanted,
};
use tycho::metadata::{Manifest, Record};
use tycho::plan::RepoRoot;
use tycho::platform::launchd::{bootout, bootstrap_call};
use tycho::platform::Agent;
use tycho::primitives::path::{AbsPath, TreePath};
use tycho::process::{Output, RunError};
use tycho::remote::sweep_sidecars;
use tycho::textmap::TextMap;

fn at(path: &str) -> AbsPath {
    AbsPath::from_absolute(path.as_bytes()).expect("absolute")
}

fn tree(path: &str) -> TreePath {
    TreePath::parse(path.as_bytes()).expect("a tree path")
}

fn printed(text: &str) -> Output {
    Output { success: true, stdout: text.as_bytes().to_vec(), stderr: Vec::new() }
}

fn items() -> Vec<(AbsPath, TreePath)> {
    vec![(at("/h/docs/a.md"), tree("docs/a.md")), (at("/h/docs/in/b.md"), tree("docs/in/b.md"))]
}

fn stated(source: &str, key: &str, stat: Result<Stat, String>) -> Stated {
    Stated { source: at(source), key: key.to_owned(), stat }
}

fn stat(mode: u32, uid: u32) -> Result<Stat, String> {
    Ok(Stat { symlink: false, uid, gid: 20, mode })
}

fn record(mode: u32, owner: &str) -> Record {
    Record {
        mode,
        owner: owner.to_owned(),
        group: "staff".to_owned(),
        xattrs: Vec::new(),
    }
}

#[test]
fn every_directory_above_a_file_is_recorded_once() {
    let found: Vec<(String, String)> =
        directories(&items()).into_rows().into_iter().map(|(key, at)| (key, at.text())).collect();
    assert_eq!(
        found,
        [
            ("docs".to_owned(), "/h/docs".to_owned()),
            ("docs/in".to_owned(), "/h/docs/in".to_owned()),
        ]
    );
}

#[test]
fn an_owner_is_looked_up_once_for_all_that_is_theirs() {
    let known = [Names { uid: 501, gid: 20, owner: "me".to_owned(), group: "staff".to_owned() }];
    let found = [
        stated("/h/a", "a", stat(0o100_640, 501)),
        stated("/h/b", "b", Err("denied".to_owned())),
        stated("/h/l", "l", Ok(Stat { symlink: true, uid: 501, gid: 20, mode: 0o777 })),
    ];
    let (manifest, missed) = capture(&found, &known);
    assert_eq!(manifest.len(), 1);
    assert_eq!(manifest.get("a"), Some(&record(0o640, "me")));
    assert_eq!(missed, ["/h/b: permissions could not be read, so it restores 0644: denied"]);
}

#[test]
fn an_unnamed_owner_keeps_its_number() {
    assert_eq!(names_call(&at("/h/a")).args, ["-f", "%Su %Sg", "/h/a"]);
    let found = names(501, 20, Ok(printed("me staff\n")));
    assert_eq!((found.owner.as_str(), found.group.as_str()), ("me", "staff"));
    for out in [Ok(printed("me\n")), Err(RunError { message: "no stat".to_owned() })] {
        let found = names(501, 20, out);
        assert_eq!((found.owner.as_str(), found.group.as_str()), ("501", "20"));
    }
}

#[test]
fn attributes_are_listed_for_every_source_at_once() {
    let keys = sources(&items());
    let call = xattr_call(&keys).expect("something to ask");
    assert_eq!(call.program, "xattr");
    assert_eq!(call.args, ["/h/docs/a.md", "/h/docs/in/b.md"]);
    assert!(xattr_call(&sources(&[])).is_none());

    let listing = printed(
        "/h/docs/a.md: user.tag\n/h/docs/a.md: com.apple.provenance\n/elsewhere: user.tag\nnoise\n",
    );
    let wanted = xattrs_wanted(&listing, &keys);
    let rows: Vec<(&str, &str, &str)> = wanted
        .iter()
        .map(|one| (one.source.as_str(), one.name.as_str(), one.stored.as_str()))
        .collect();
    assert_eq!(rows, [("/h/docs/a.md", "user.tag", "docs/a.md")]);
    assert_eq!(xattr_value_call(&wanted[0]).args, ["-px", "user.tag", "/h/docs/a.md"]);
}

#[test]
fn an_attribute_is_kept_as_the_bytes_it_is_printed_as() {
    let mut manifest: Manifest = TextMap::new();
    manifest.insert("docs/a.md".to_owned(), record(0o644, "me"));
    let wanted = Wanted {
        source: "/h/docs/a.md".to_owned(),
        name: "user.tag".to_owned(),
        stored: "docs/a.md".to_owned(),
    };
    add_value(&mut manifest, &wanted, &printed("01 FF\n7a\n"));
    add_value(&mut manifest, &wanted, &printed("not hex"));
    let held = manifest.get("docs/a.md").expect("held");
    assert_eq!(held.xattrs, vec![("user.tag".to_owned(), vec![1, 255, 122])]);
}

#[test]
fn directories_come_last_and_deepest_first() {
    let mut manifest: Manifest = TextMap::new();
    manifest.insert("d".to_owned(), record(0o500, "me"));
    manifest.insert("d/in".to_owned(), record(0o700, "me"));
    let mut file = record(0o600, "root");
    file.xattrs.push(("user.tag".to_owned(), vec![1, 255]));
    manifest.insert("d/in/a".to_owned(), file);
    manifest.insert("gone".to_owned(), record(0o644, "me"));
    let targets = [Target::Directory, Target::Directory, Target::File, Target::Absent];
    let steps = apply(&manifest, &targets, Some("me"));
    let mode = |path: &str, mode: u32| Step::Mode { path: path.to_owned(), mode };
    assert_eq!(
        steps,
        vec![
            mode("d/in/a", 0o600),
            Step::Xattr {
                path: "d/in/a".to_owned(),
                name: "user.tag".to_owned(),
                hex: "01ff".to_owned(),
            },
            Step::Owner { path: "d/in/a".to_owned(), to: "root:staff".to_owned() },
            mode("d/in", 0o700),
            mode("d", 0o500),
        ]
    );
    assert!(step_call(&steps[0], &at("/into/d/in/a")).is_none());
    let call = step_call(&steps[1], &at("/into/d/in/a")).expect("a call");
    assert_eq!(call.args, ["-wx", "user.tag", "01ff", "/into/d/in/a"]);
    let call = step_call(&steps[2], &at("/into/d/in/a")).expect("a call");
    assert_eq!((call.program.as_str(), call.args[0].as_str()), ("chown", "-h"));
    assert_eq!(call.args[1..], ["root:staff", "/into/d/in/a"]);
}

#[test]
fn what_was_not_put_back_is_counted_apart() {
    let mut applied = Applied::default();
    let mode = Step::Mode { path: "a".to_owned(), mode: 0o644 };
    let owner = Step::Owner { path: "a".to_owned(), to: "root:wheel".to_owned() };
    let attribute =
        Step::Xattr { path: "a".to_owned(), name: "user.tag".to_owned(), hex: String::new() };
    applied.count(&mode, Ok(()));
    applied.count(&mode, Err("denied".to_owned()));
    applied.count(&owner, Err("denied".to_owned()));
    applied.count(&attribute, Err("denied".to_owned()));
    applied.count(&attribute, Ok(()));
    assert_eq!((applied.modes, applied.owners, applied.xattrs), (1, 0, 1));
    assert_eq!(applied.owner_refused, ["a"]);
    assert_eq!(applied.failed, ["a: denied", "a: xattr user.tag"]);
}

#[test]
fn each_call_says_what_it_is_about() {
    assert_eq!(object_format_call(&at("/w")).args, ["rev-parse", "--show-object-format"]);
    assert_eq!(record_calls(&at("/w"))[0].args, ["config", "--get", "remote.origin.url"]);
    let repo = RepoRoot { source: at("/w"), key: "r/w".to_owned() };
    let error = RunError { message: "disk".to_owned() };
    assert_eq!(stash_warning(&repo, 2, &error), "r/w: stash@{2}: disk");
    let store = Repo::at_unchecked(&at("/s.git"));
    assert_eq!(store.config_call("gc.auto").args, ["config", "--get", "gc.auto"]);
    assert_eq!(bootstrap_call(501, &at("/a.plist")).args, ["bootstrap", "gui/501", "/a.plist"]);
    let label = Agent::Catchup.label();
    assert_eq!(bootout(501, &Agent::Catchup).args, ["bootout", &format!("gui/501/{label}")]);
    assert_eq!(sweep_sidecars(&at("/d/x.git")).args, ["-m", "/d/x.git"]);
}

#[test]
fn each_owner_is_looked_up_once() {
    let link = Ok(Stat { symlink: true, uid: 7, gid: 20, mode: 0o777 });
    let all = [
        stated("/h/a", "a", link),
        stated("/h/b", "b", stat(0o600, 501)),
        stated("/h/c", "c", Err("gone".to_owned())),
        stated("/h/d", "d", stat(0o644, 501)),
        stated("/h/e", "e", stat(0o644, 0)),
        stated("/h/f", "f", stat(0o644, 7)),
    ];
    assert_eq!(owners_wanted(&all), [1, 4, 5]);
}
