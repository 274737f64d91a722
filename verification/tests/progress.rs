use tycho::cli::progress::{self, Progress};
use tycho::store::Step;

fn rendered(profile: &str, step: &Step) -> String {
    progress::line(profile, step, false).1
}

#[test]
fn planning_names_the_profile() {
    assert_eq!(rendered("cex", &Step::Planning), "cex  planning");
}

#[test]
fn hashing_counts_with_thousands_separators() {
    let text = rendered("cex", &Step::Hashing { files: 4_812 });
    assert_eq!(text, format!("  {:<14}  4,812 files", "hashing"));
}

#[test]
fn capturing_names_the_current_repository_until_the_last_one_lands() {
    let mid = rendered(
        "cex",
        &Step::Capturing {
            repo: "org/frontend".to_owned(),
            done: 3,
            total: 19,
        },
    );
    assert_eq!(
        mid,
        format!("  {:<14}  3 of 19 repositories  org/frontend", "capturing")
    );

    let done = rendered(
        "cex",
        &Step::Capturing {
            repo: "org/frontend".to_owned(),
            done: 19,
            total: 19,
        },
    );
    assert_eq!(
        done,
        format!("  {:<14}  19 repositories", "capturing"),
        "the last repository does not repeat the total as 19 of 19"
    );
}

#[test]
fn publishing_has_no_value_column() {
    assert_eq!(
        rendered("cex", &Step::Publishing),
        format!("  {:<14}", "publishing")
    );
}

#[test]
fn pushing_names_the_remote() {
    let text = rendered(
        "cex",
        &Step::Pushing {
            remote: "ghost-r".to_owned(),
        },
    );
    assert_eq!(text, format!("  {:<14}  ghost-r", "pushing"));
}

/// The width returned alongside the text is the plain one, so colour can never
/// change how much of the redraw a shorter next line has to erase.
#[test]
fn colour_never_changes_the_reported_width() {
    let step = Step::Pushing {
        remote: "ghost-r".to_owned(),
    };
    let (plain_width, plain_text) = progress::line("cex", &step, false);
    let (painted_width, painted_text) = progress::line("cex", &step, true);

    assert_eq!(plain_width, painted_width);
    assert_eq!(plain_width, plain_text.chars().count());
    assert!(
        painted_text.contains("\x1b["),
        "expected an escape: {painted_text:?}"
    );
}

#[test]
fn a_redraw_starts_with_a_carriage_return_and_is_flushed() {
    let bar = Progress::new(true);
    let text = bar.report("cex", &Step::Planning, false).expect("on a terminal");
    assert!(text.starts_with('\r'), "{text:?}");
    assert!(text.contains("cex  planning"), "{text:?}");
    assert_eq!(text.chars().count(), 75, "the redraw covers the whole line");
}

/// Off a terminal, `report` and `clear` must write nothing at all - a launchd log
/// or a pipe gets none of this.
#[test]
fn nothing_is_written_when_not_a_terminal() {
    let bar = Progress::new(false);
    assert_eq!(bar.report("cex", &Step::Planning, false), None);
    assert_eq!(bar.clear(), None);
}

#[test]
fn clearing_erases_the_whole_line() {
    let text = Progress::new(true).clear().expect("on a terminal");
    assert_eq!(text, format!("\r{}\r", " ".repeat(74)));
}
