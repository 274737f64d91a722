//! What git is asked, and what its answers are read as.

use tycho::git::read::{nul_fields, Change, ChangeStatus};
use tycho::git::refs::{list_refs, parse_ref_lines, PushOutcome, Refspec};
use tycho::git::repo::{parse_one, Batch, NEUTRAL_ATTRIBUTES};
use tycho::git::{Hashed, Index, IndexEntry, Repo, RepoError};
use tycho::primitives::encode::FileMode;
use tycho::primitives::names::RefName;
use tycho::primitives::oid::Oid;
use tycho::primitives::path::{AbsPath, TreePath};
use tycho::process::{Output, RunError, Timeout};

const SHA: &str = "de4c69c000000000000000000000000000000001";
const OTHER: &str = "0123456789abcdef0123456789abcdef01234567";

fn at(path: &str) -> AbsPath {
    AbsPath::from_absolute(path.as_bytes()).expect("absolute")
}

fn tree(path: &str) -> TreePath {
    TreePath::parse(path.as_bytes()).expect("a tree path")
}

fn oid(text: &str) -> Oid {
    Oid::parse(text).expect("an object id")
}

fn ended(success: bool, stdout: &[u8], stderr: &[u8]) -> Output {
    Output { success, stdout: stdout.to_vec(), stderr: stderr.to_vec() }
}

fn printed(text: &str) -> Output {
    ended(true, text.as_bytes(), b"")
}

fn unrun() -> RunError {
    RunError { message: "no git".to_owned() }
}

#[test]
fn a_refspec_is_forced_only_where_it_says_so() {
    let heads = Refspec::fast_forward("refs/heads/*", "refs/heads/*");
    assert_eq!(heads.text(), "refs/heads/*:refs/heads/*");
    assert!(!heads.is_forced());
    let ours = Refspec::forced("refs/tycho/*", "refs/tycho/*");
    assert_eq!(ours.text(), "+refs/tycho/*:refs/tycho/*");
    assert!(ours.is_forced());
}

#[test]
fn refs_are_read_one_per_line_and_peeled_tags_are_left_out() {
    let listing = format!(
        "{SHA}\trefs/heads/main\n{OTHER}\tHEAD\n{OTHER}\trefs/tags/v1^{{}}\n{OTHER}\trefs/tags/v1\n"
    );
    let refs = parse_ref_lines(&printed(&listing)).ok().expect("parses");
    assert_eq!(refs.len(), 2);
    assert_eq!(refs.get("refs/heads/main"), Some(&oid(SHA)));
    assert_eq!(refs.get("refs/tags/v1"), Some(&oid(OTHER)));
    assert_eq!(refs.get("HEAD"), None);
}

#[test]
fn a_ref_line_that_cannot_be_read_is_an_error() {
    assert!(matches!(
        parse_ref_lines(&printed("no tab here\n")),
        Err(RepoError::Unparsable(line)) if line == "no tab here"
    ));
    assert!(matches!(
        parse_ref_lines(&printed("zz\trefs/heads/main\n")),
        Err(RepoError::Oid(_))
    ));
    assert!(matches!(
        parse_ref_lines(&printed(&format!("{SHA}\trefs/heads/a..b\n"))),
        Err(RepoError::Unparsable(_))
    ));
    assert!(matches!(Repo::for_each_ref(Err(unrun())), Err(RepoError::Run(_))));
}

#[test]
fn refs_are_asked_for_with_their_objects() {
    let repo = Repo::at_unchecked(&at("/s.git"));
    let call = repo.for_each_ref_call("refs/tycho/");
    assert_eq!(call.program, "git");
    assert_eq!(
        call.args,
        ["for-each-ref", "--format=%(objectname)\t%(refname)", "refs/tycho/"]
    );
    assert_eq!(call.at.map(|path| path.text()).as_deref(), Some("/s.git"));
    let all = list_refs(&at("/s.git"));
    assert_eq!(all.args, ["for-each-ref", "--format=%(objectname)\t%(refname)"]);
    let name = RefName::parse("refs/heads/main").expect("a ref");
    assert_eq!(repo.update_ref(&name, oid(SHA)).args, ["update-ref", "refs/heads/main", SHA]);
    assert_eq!(repo.ls_remote(&at("/r.git")).args, ["ls-remote", "/r.git"]);
}

#[test]
fn a_push_is_atomic_and_a_refusal_keeps_what_git_said() {
    let repo = Repo::at_unchecked(&at("/s.git"));
    let call = repo.push_call(&at("/r.git"), &[Refspec::forced("a", "b")]);
    assert_eq!(call.args, ["push", "--atomic", "--porcelain", "/r.git", "+a:b"]);
    assert_eq!(call.timeout, Timeout::Remote);
    assert_eq!(Repo::push(Ok(printed("ok"))), Ok(PushOutcome::Accepted));
    assert_eq!(
        Repo::push(Ok(ended(false, b"out\n", b" denied \n"))),
        Ok(PushOutcome::Refused { detail: "denied".to_owned() })
    );
    assert_eq!(
        Repo::push(Ok(ended(false, b"! main rejected\n", b""))),
        Ok(PushOutcome::Refused { detail: "! main rejected".to_owned() })
    );
    assert_eq!(Repo::push(Err(unrun())), Err(RepoError::Run(unrun())));
}

#[test]
fn a_fetch_takes_one_refspec_and_no_tags() {
    let repo = Repo::at_unchecked(&at("/s.git"));
    let call = repo.fetch_refs(&at("/work"), &Refspec::forced("refs/*", "refs/tycho/k/*"));
    assert_eq!(
        call.args,
        ["fetch", "--no-tags", "--quiet", "/work", "+refs/*:refs/tycho/k/*"]
    );
    assert_eq!(call.timeout, Timeout::Work);
}

#[test]
fn changes_alternate_a_status_and_a_path() {
    let out = ended(true, b"A\0a/new.md\0M\0b.md\0D\0gone\0T\0link\0", b"");
    let changes = Repo::diff_tree(Ok(out)).expect("parses");
    let want = vec![
        Change { status: ChangeStatus::Added, path: tree("a/new.md") },
        Change { status: ChangeStatus::Modified, path: tree("b.md") },
        Change { status: ChangeStatus::Deleted, path: tree("gone") },
        Change { status: ChangeStatus::TypeChanged, path: tree("link") },
    ];
    assert_eq!(changes, want);
    assert_eq!(
        Repo::diff_tree(Ok(ended(true, b"A\0", b""))),
        Err(RepoError::Unparsable("diff-tree ended with a status and no path".to_owned()))
    );
    assert_eq!(
        Repo::diff_tree(Ok(ended(true, b"X\0a\0", b""))),
        Err(RepoError::Unparsable("diff-tree status X".to_owned()))
    );
    assert!(matches!(
        Repo::diff_tree(Ok(ended(true, b"A\0../up\0", b""))),
        Err(RepoError::Unparsable(_))
    ));
    assert_eq!(nul_fields(b"\0a\0\0bc\0"), vec![b"a".to_vec(), b"bc".to_vec()]);
}

#[test]
fn what_is_read_back_names_its_object() {
    let repo = Repo::at_unchecked(&at("/s.git"));
    assert_eq!(repo.cat_file_blob(oid(SHA)).args, ["cat-file", "blob", SHA]);
    let call = repo.archive(oid(SHA), &[tree("a/b"), tree("c")], &at("/out.tar"));
    assert_eq!(call.args, ["archive", "--format=tar", "--output=/out.tar", SHA, "a/b", "c"]);
    let call = repo.diff_tree_call(oid(SHA), oid(OTHER));
    assert_eq!(
        call.args,
        ["diff-tree", "-r", "-z", "--no-commit-id", "--name-status", SHA, OTHER]
    );
}

#[test]
fn a_new_store_is_bare_private_and_never_prunes() {
    let (repo, calls) = Repo::init_bare(&at("/s.git"));
    assert_eq!(repo.path().text(), "/s.git");
    let asked: Vec<Vec<String>> = calls.into_iter().map(|call| call.args).collect();
    assert_eq!(
        asked[0],
        ["init", "--bare", "--object-format=sha1", "--shared=0600", "-b", "main", "/s.git"]
    );
    assert_eq!(asked[1], ["symbolic-ref", "HEAD", "refs/heads/main"]);
    assert_eq!(asked[2], ["config", "core.logAllRefUpdates", "always"]);
    assert_eq!(asked[3], ["config", "gc.pruneExpire", "never"]);
    assert_eq!(asked[4], ["config", "gc.reflogExpire", "never"]);
    assert_eq!(asked[5], ["config", "gc.reflogExpireUnreachable", "never"]);
    let (dir, attributes, text) = repo.write_attributes();
    assert_eq!(dir.text(), "/s.git/info");
    assert_eq!(attributes.text(), "/s.git/info/attributes");
    assert_eq!(text, NEUTRAL_ATTRIBUTES);
}

#[test]
fn an_exposed_store_is_refused_before_git_is_believed() {
    let path = at("/s.git");
    assert_eq!(Repo::open_call(&path).args, ["rev-parse", "--git-dir"]);
    assert!(Repo::open(&path, Ok(None), Ok(printed("."))).is_ok());
    let exposed = Repo::open(&path, Ok(Some("is readable by others".to_owned())), Ok(printed(".")))
        .expect_err("exposed");
    assert_eq!(
        exposed.text(),
        "the store at /s.git is readable by others; it holds gitignored content and must not be readable by others"
    );
    let unseen = Repo::open(&path, Err("no volume".to_owned()), Ok(printed("."))).expect_err("volume");
    assert_eq!(unseen.text(), "no volume");
    assert_eq!(
        Repo::open(&path, Ok(None), Err(unrun())).expect_err("git"),
        RepoError::Run(unrun())
    );
}

#[test]
fn one_object_id_is_read_or_what_git_said_instead() {
    assert_eq!(parse_one(&printed(&format!("{SHA}\n"))), Ok(oid(SHA)));
    assert_eq!(
        parse_one(&ended(false, b"", b" bad tree \n")),
        Err(RepoError::Unparsable("bad tree".to_owned()))
    );
    assert!(matches!(parse_one(&printed("short")), Err(RepoError::Oid(_))));
}

#[test]
fn an_unset_key_is_no_value_rather_than_a_failure() {
    assert_eq!(Repo::config(Ok(printed(" always\n"))), Ok(Some("always".to_owned())));
    assert_eq!(Repo::config(Ok(ended(false, b"", b""))), Ok(None));
    assert_eq!(Repo::config(Err(unrun())), Err(RepoError::Run(unrun())));
}

#[test]
fn a_batch_goes_on_behind_a_path_git_could_not_read() {
    let repo = Repo::at_unchecked(&at("/s.git"));
    let paths = [at("/a"), at("/b"), at("/c")];
    let mut batch = Batch::new(3);
    assert_eq!(batch.call(&repo, &paths).stdin, b"/a\n/b\n/c\n");
    let first = ended(false, format!("{SHA}\n").as_bytes(), b"warning\nfatal: could not open '/b'\n");
    assert_eq!(batch.hash_object_batch(&first), Ok(()));
    assert!(!batch.is_done());
    assert_eq!(batch.call(&repo, &paths).stdin, b"/c\n");
    assert_eq!(batch.hash_object_batch(&printed(&format!("{OTHER}\n"))), Ok(()));
    assert!(batch.is_done());
    assert_eq!(
        batch.finish(),
        vec![
            Hashed::Object(oid(SHA)),
            Hashed::Unreadable { reason: "fatal: could not open '/b'".to_owned() },
            Hashed::Object(oid(OTHER)),
        ]
    );
}

#[test]
fn a_batch_that_stops_short_is_never_taken_for_done() {
    let mut short = Batch::new(2);
    assert_eq!(
        short.hash_object_batch(&printed(&format!("{SHA}\n"))),
        Err(RepoError::Unparsable("hash-object exited 0 after 1 of 2 paths".to_owned()))
    );
    let mut stalled = Batch::new(1);
    assert_eq!(
        stalled.hash_object_batch(&ended(false, format!("{SHA}\n").as_bytes(), b"late\n")),
        Err(RepoError::Stalled { remaining: 0, stderr: "late".to_owned() })
    );
    assert!(matches!(Batch::new(1).hash_object_batch(&printed("nonsense\n")), Err(RepoError::Oid(_))));
}

#[test]
fn an_ignored_path_is_an_error_though_git_exits_zero() {
    assert_eq!(Index::update(&printed("")), Ok(()));
    assert_eq!(
        Index::update(&ended(true, b"", b"Ignoring path a\\b\n")),
        Err(RepoError::PathRefused { detail: "Ignoring path a\\b".to_owned() })
    );
    assert_eq!(
        Index::update(&ended(false, b"", b"malformed\n")),
        Err(RepoError::Unparsable("malformed".to_owned()))
    );
}

#[test]
fn an_index_holds_a_line_for_each_entry() {
    let repo = Repo::at_unchecked(&at("/s.git"));
    let index = repo.scratch_index(b"/tmp/index".to_vec());
    assert!(index.must_clear());
    assert!(!repo.open_index(b"/tmp/index".to_vec()).must_clear());
    assert!(index.update_call(&[]).is_none());
    let entry = IndexEntry { mode: FileMode::Regular, oid: oid(SHA), path: tree("a/b.md") };
    let call = index.update_call(&[entry]).expect("something to say");
    assert_eq!(call.args, ["update-index", "-z", "--index-info"]);
    assert_eq!(call.index, Some(b"/tmp/index".to_vec()));
    assert_eq!(call.stdin, format!("100644 {SHA}\ta/b.md\0").into_bytes());
    assert_eq!(index.write_tree().args, ["write-tree"]);
    assert_eq!(index.len_call().args, ["ls-files", "-z"]);
    let held = ended(true, b"a\0b\0", b"");
    assert_eq!(Index::len(&held), 2);
    assert!(!Index::is_empty(&held));
    assert!(Index::is_empty(&printed("")));
}

#[test]
fn objects_are_written_from_what_is_handed_in() {
    let repo = Repo::at_unchecked(&at("/s.git"));
    let call = repo.hash_blob(b"text");
    assert_eq!(call.args, ["hash-object", "-w", "-t", "blob", "--no-filters", "--stdin"]);
    assert_eq!(call.stdin, b"text");
    assert_eq!(repo.empty_tree().args, ["hash-object", "-w", "-t", "tree", "--stdin"]);
    assert_eq!(
        repo.commit_tree(oid(SHA), Some(oid(OTHER)), "m").args,
        ["commit-tree", SHA, "-p", OTHER, "-m", "m"]
    );
    assert_eq!(repo.commit_tree(oid(SHA), None, "m").args, ["commit-tree", SHA, "-m", "m"]);
}
