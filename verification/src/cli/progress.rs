//! The answer to a run that prints nothing until it finishes.
//!
//! A run hands over each [`Step`] it takes. This is
//! the only place that turns one into text, and the only place that decides whether
//! to print it at all.

use crate::cli::page::{Page, PageView, Tint};
use crate::cli::words;
use crate::cli::words::{count, fit, plural, WIDTH};
use crate::store::Step;
use crate::text;
use crate::text::{cat3, left, repeat};
use vstd::prelude::*;

verus! {

/// The label column.
const LABEL: usize = 14;

/// One line, redrawn over itself for as long as a run is in progress.
#[derive(Debug, PartialEq, Eq)]
pub struct Progress {
    active: bool,
}

/// A phase's row: the label field, dim, then its value - or nothing after it, for a
/// phase that has none. It nests under the header the way a run's own rows nest under its
/// commit line.
pub open spec fn label_page(label: Seq<char>) -> PageView {
    PageView::empty().put("  "@).ink(text::padded_right(label, 14), Tint::Dim)
}

/// The line for one [`Step`].
pub open spec fn step_page(profile: Seq<char>, step: Step) -> PageView {
    match step {
        Step::Planning => PageView::empty().put(profile).put("  planning"@),
        Step::Hashing { files } => label_page("hashing"@).put("  "@).put(
            words::plural_text(files as nat, "file"@),
        ),
        // Once the last repository lands, saying "19 of 19" would
        // be saying the total twice; every earlier redraw still names which one.
        Step::Capturing { repo, done, total } => if done >= total {
            label_page("capturing"@).put("  "@).put(
                words::plural_text(total as nat, "repository"@),
            )
        } else {
            label_page("capturing"@).put("  "@).put(
                words::grouped(done as nat) + " of "@ + words::plural_text(
                    total as nat,
                    "repository"@,
                ),
            ).put("  "@).ink(words::fitted(repo@, 40), Tint::Cyan)
        },
        Step::Publishing => label_page("publishing"@),
        Step::Pushing { remote } => label_page("pushing"@).put("  "@).ink(
            words::fitted(remote@, 40),
            Tint::Cyan,
        ),
    }
}

fn labelled(label: &str) -> (page: Page)
    ensures
        page@ == label_page(label@),
{
    let mut page = Page::new();
    page.put("  ");
    page.ink(&left(label, LABEL), Tint::Dim);
    page
}

fn drawn(profile: &str, step: &Step) -> (page: Page)
    ensures
        page@ == step_page(profile@, *step),
{
    match step {
        Step::Planning => {
            let mut page = Page::new();
            page.put(profile);
            page.put("  planning");
            page
        },
        Step::Hashing { files } => {
            let mut page = labelled("hashing");
            page.put("  ");
            page.put(&plural(*files, "file"));
            page
        },
        Step::Capturing { repo, done, total } => {
            let mut page = labelled("capturing");
            page.put("  ");
            if *done >= *total {
                page.put(&plural(*total, "repository"));
            } else {
                page.put(&cat3(&count(*done), " of ", &plural(*total, "repository")));
                page.put("  ");
                page.ink(&fit(repo, 40), Tint::Cyan);
            }
            page
        },
        Step::Publishing => labelled("publishing"),
        Step::Pushing { remote } => {
            let mut page = labelled("pushing");
            page.put("  ");
            page.ink(&fit(remote, 40), Tint::Cyan);
            page
        },
    }
}

/// The line for one [`Step`], as (visible width, text to print).
///
/// The width is what the caller pads the redraw to, and it is measured on the
/// plain text - colour must never change it.
pub fn line(profile: &str, step: &Step, colour: bool) -> (out: (usize, String))
    ensures
        out.0 == step_page(profile@, *step).shown(false).len(),
        out.1@ == step_page(profile@, *step).shown(colour),
{
    let page = drawn(profile, step);
    (page.show(false).unicode_len(), page.show(colour))
}

pub open spec fn redrawn(profile: Seq<char>, step: Step, colour: bool) -> Seq<char> {
    let page = step_page(profile, step);
    let width = page.shown(false).len();
    let rest = if width >= 74 {
        0nat
    } else {
        (74 - width) as nat
    };
    "\r"@ + page.shown(colour) + text::repeated(' ', rest)
}

impl Progress {
    pub closed spec fn is_active(self) -> bool {
        self.active
    }

    /// Silent unless stdout is a terminal.
    #[must_use]
    pub fn new(on_a_terminal: bool) -> (out: Progress)
        ensures
            out.is_active() == on_a_terminal,
    {
        Progress { active: on_a_terminal }
    }

    /// What redraws the line for `step`, or nothing off a terminal.
    pub fn report(&self, profile: &str, step: &Step, colour: bool) -> (out: Option<String>)
        ensures
            match out {
                Some(text) => self.is_active() && text@ == redrawn(profile@, *step, colour),
                None => !self.is_active(),
            },
    {
        if !self.active {
            return None;
        }
        let (plain_len, painted) = line(profile, step, colour);
        let pad: usize = if plain_len >= WIDTH {
            0
        } else {
            WIDTH - plain_len
        };
        Some(cat3("\r", &painted, &repeat(' ', pad)))
    }

    /// What erases the line, so whatever prints next - a result, or a
    /// diagnostic on the failure path - starts at column zero with nothing behind it.
    pub fn clear(&self) -> (out: Option<String>)
        ensures
            match out {
                Some(text) => self.is_active() && text@ == "\r"@ + text::repeated(' ', 74) + "\r"@,
                None => !self.is_active(),
            },
    {
        if !self.active {
            return None;
        }
        Some(cat3("\r", &repeat(' ', WIDTH), "\r"))
    }
}

} // verus!
