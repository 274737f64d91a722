use tycho::capture::record::{parse_repo_txt, repo_txt, repo_txt_now, Fields, Recorded};
use tycho::capture::Inspection;
use tycho::plan::{shrank, RepoHead, SHRINK_FLOOR};
use tycho::primitives::names::BranchName;
use tycho::primitives::oid::Oid;
use tycho::primitives::path::AbsPath;
use tycho::process::{Output, RunError};

fn sha() -> Oid {
    Oid::parse("de4c69c206bebbb88fab211f6378462444d3c8ae").expect("a sha")
}

fn inspection(head: RepoHead) -> Inspection {
    Inspection {
        head,
        modified: 0,
        untracked: 0,
        objects: 0,
    }
}

fn printed(text: &str) -> Result<Output, RunError> {
    Ok(Output {
        success: true,
        stdout: text.as_bytes().to_vec(),
        stderr: Vec::new(),
    })
}

/// A fresh repository: no origin, no branches, no tags, no stashes.
fn fields() -> Fields {
    Fields {
        origin: Ok(Output {
            success: false,
            stdout: Vec::new(),
            stderr: Vec::new(),
        }),
        branches: printed(""),
        tags: printed(""),
        stash: printed(""),
    }
}

/// Writer and reader pinned to each other. `REPO.txt` is the only record of which
/// branch was checked out that survives reaching a remote, so a format drift that
/// only the reader noticed would be a restore checking out the wrong thing.
fn round_trip(head: RepoHead) -> Recorded {
    let source = AbsPath::from_absolute(b"/somewhere/proj").expect("absolute");
    let text = repo_txt_now(&fields(), &inspection(head), &source);
    parse_repo_txt(&text)
}

#[test]
fn a_branch_head_reads_back_as_its_branch_name() {
    let head = RepoHead::Branch {
        name: BranchName::parse("main").expect("a branch"),
        sha: sha(),
    };
    assert_eq!(round_trip(head).head.as_deref(), Some("main"));
}

/// A detached HEAD has no branch to check out, so the sha is what comes back.
#[test]
fn a_detached_head_reads_back_as_its_sha() {
    let recorded = round_trip(RepoHead::Detached { sha: sha() });
    assert_eq!(recorded.head.as_deref(), Some(sha().short().as_str()));
}

/// A repository with no commits has nothing to check out, and that is not an
/// error - it is a repository somebody had just created.
#[test]
fn an_unborn_head_reads_back_as_nothing_to_check_out() {
    assert_eq!(round_trip(RepoHead::Unborn).head, None);
}

#[test]
fn the_other_fields_survive_the_round_trip() {
    let recorded = round_trip(RepoHead::Unborn);
    assert_eq!(recorded.path.as_deref(), Some("/somewhere/proj"));
    assert_eq!(recorded.stashes, 0);
    assert_eq!(recorded.origin, None, "'none' is absence, not a URL");
}

#[test]
fn a_recorded_stash_count_is_read_as_a_number() {
    let recorded = parse_repo_txt("head      main @ abc1234\nstash     3 entries\n");
    assert_eq!(recorded.stashes, 3);
    assert_eq!(recorded.head.as_deref(), Some("main"));
}

#[test]
fn a_record_keeps_its_origin_and_its_stashes() {
    let source = AbsPath::from_absolute(b"/somewhere/proj").expect("absolute");
    let mut fields = fields();
    fields.origin = printed("git@example.com:org/proj.git\n");
    fields.stash = printed("stash@{0}: WIP\nstash@{1}: WIP\n");
    let text = repo_txt(&fields, &inspection(RepoHead::Unborn), &source, "2026-10-19T12:00:00Z");
    let recorded = parse_repo_txt(&text);
    assert_eq!(recorded.origin.as_deref(), Some("git@example.com:org/proj.git"));
    assert_eq!(recorded.stashes, 2);
}

#[test]
fn a_small_root_shrinking_is_noise_and_a_large_one_is_an_event() {
    assert!(!shrank(3, 1), "three files becoming one is not a signal");
    assert!(!shrank(SHRINK_FLOOR - 1, 0));
    assert!(shrank(8_000, 3_000));
    assert!(
        !shrank(8_000, 5_000),
        "a drop to 62% is under the threshold"
    );
    assert!(shrank(100, 0));
    assert!(!shrank(100, 50), "exactly half is not below half");
    assert!(shrank(100, 49));
}
