//! `status`: one block per profile, one row per destination.

use crate::cli::page::{Page, PageView, Tint};
use crate::cli::render;
use crate::cli::render::plural_ending;
use crate::cli::words;
use crate::cli::words::{count, fit, lasting, WIDTH};
use crate::config::schedule::Duration;
use crate::doctor::Verdict;
use crate::primitives::bytes;
use crate::primitives::bytes::size;
use crate::text;
use crate::text::{cat2, left, repeat, right};
use vstd::prelude::*;

verus! {

/// One destination's line in `status`.
#[derive(Debug, PartialEq, Eq)]
pub struct RemoteRow {
    pub name: String,
    /// `ok`, `behind 3 of 4`, `failed`, `unseen`. Meaning never depends on colour.
    pub word: String,
    pub detail: String,
    /// `verified`, or what to expect next. Empty is fine.
    pub note: String,
    /// What to type next when something is wrong.
    pub hint: Option<String>,
    /// How bad this row is, carried rather than inferred from [`RemoteRow::word`].
    ///
    /// Colouring by matching on the word would make the palette depend on prose that
    /// exists to be read, so renaming a word would silently change a colour.
    pub severity: Verdict,
}

#[derive(Debug, PartialEq, Eq)]
pub struct ProfileStatus {
    pub name: String,
    /// How far past its schedule this profile is, if it is. Red on its own: a backup
    /// that did not happen is worse than one that happened and could not be pushed.
    pub overdue: Option<Duration>,
    /// `Sun 12:00, in 6d 2h`, or absent when the profile has no schedule or the
    /// config could not be read.
    pub next_run: Option<String>,
    pub backups: usize,
    pub since: Option<String>,
    pub newest: Option<String>,
    /// **Read out of the state file**, never measured. Walking the object database on
    /// a command people run casually would make `status` slow in proportion to the
    /// size of the backup, and on a cloud remote it would materialise dataless files.
    pub store_bytes: u64,
    pub remotes: Vec<RemoteRow>,
}

const REMOTE_NAME: usize = 10;

const REMOTE_WORD: usize = 15;

const REMOTE_DETAIL: usize = 24;

const REMOTE_NOTE: usize = 23;

pub open spec fn verdict_tint(severity: Verdict) -> Option<Tint> {
    match severity {
        Verdict::Fine => None,
        Verdict::Warn => Some(Tint::Yellow),
        Verdict::Fail => Some(Tint::Red),
    }
}

/// A remote's verdict, padded to its column and then coloured.
///
/// Padded before painting: an escape sequence has
/// width in bytes and none on screen, so colouring first pushes every later column
/// out by exactly the length of the escape.
pub fn verdict_word(page: &mut Page, remote: &RemoteRow)
    ensures
        final(page)@ == old(page)@.put_in(
            text::padded_right(words::fitted(remote.word@, 14), 15),
            verdict_tint(remote.severity),
        ),
{
    let padded = left(&fit(&remote.word, REMOTE_WORD - 1), REMOTE_WORD);
    let tint = match remote.severity {
        Verdict::Fine => None,
        Verdict::Warn => Some(Tint::Yellow),
        Verdict::Fail => Some(Tint::Red),
    };
    page.put_in(&padded, tint);
}

pub open spec fn remote_row(p: PageView, remote: RemoteRow) -> PageView {
    p.put("  "@).put(text::padded_right(words::fitted(remote.name@, 9), 10)).put_in(
        text::padded_right(words::fitted(remote.word@, 14), 15),
        verdict_tint(remote.severity),
    ).put(text::padded_right(words::fitted(remote.detail@, 23), 24)).line(
        text::padded_left(words::fitted(remote.note@, 23), 23),
    )
}

fn put_remote(page: &mut Page, remote: &RemoteRow)
    ensures
        final(page)@ == remote_row(old(page)@, *remote),
{
    page.put("  ");
    page.put(&left(&fit(&remote.name, REMOTE_NAME - 1), REMOTE_NAME));
    verdict_word(page, remote);
    page.put(&left(&fit(&remote.detail, REMOTE_DETAIL - 1), REMOTE_DETAIL));
    page.line(&right(&fit(&remote.note, REMOTE_NOTE), REMOTE_NOTE));
}

/// The destinations, each with its hint where hints are shown.
pub open spec fn remote_rows(p: PageView, remotes: Seq<RemoteRow>, hints: bool, n: int) -> PageView
    decreases n,
{
    if n <= 0 {
        p
    } else {
        let row = remotes[n - 1];
        let p = remote_row(remote_rows(p, remotes, hints, n - 1), row);
        match row.hint {
            Some(hint) => if hints {
                p.put(text::repeated(' ', 27)).line(hint@)
            } else {
                p
            },
            None => p,
        }
    }
}

fn put_remotes(page: &mut Page, remotes: &[RemoteRow], hints: bool)
    ensures
        final(page)@ == remote_rows(old(page)@, remotes@, hints, remotes@.len() as int),
{
    let ghost start = page@;
    let mut i: usize = 0;
    while i < remotes.len()
        invariant
            i <= remotes@.len(),
            page@ == remote_rows(start, remotes@, hints, i as int),
        decreases remotes@.len() - i,
    {
        let remote = &remotes[i];
        put_remote(page, remote);
        if hints {
            if let Some(hint) = &remote.hint {
                page.put(&repeat(' ', 2 + REMOTE_NAME + REMOTE_WORD));
                page.line(hint);
            }
        }
        i += 1;
    }
}

pub open spec fn subtitle_text(profile: ProfileStatus) -> Seq<char> {
    let s = words::grouped(profile.backups as nat) + " backup"@ + render::ending(
        profile.backups as nat,
    );
    let s = match profile.since {
        Some(since) => s + " since "@ + since@,
        None => s,
    };
    let s = match profile.newest {
        Some(newest) => s + ", newest "@ + newest@,
        None => s,
    };
    s + ", store "@ + bytes::size_text(profile.store_bytes as nat)
}

fn subtitle(profile: &ProfileStatus) -> (out: String)
    ensures
        out@ == subtitle_text(*profile),
{
    let mut line = count(profile.backups);
    line.append(" backup");
    line.append(plural_ending(profile.backups));
    if let Some(since) = &profile.since {
        line.append(" since ");
        line.append(since);
    }
    if let Some(newest) = &profile.newest {
        line.append(", newest ");
        line.append(newest);
    }
    line.append(", store ");
    line.append(&size(profile.store_bytes));
    line
}

/// The columns a profile's name leaves on its line.
pub open spec fn room(name: Seq<char>) -> nat {
    if name.len() >= 74 {
        0
    } else {
        (74 - name.len()) as nat
    }
}

fn room_beside(name: &str) -> (out: usize)
    ensures
        out == room(name@),
{
    let len: usize = name.unicode_len();
    if len >= WIDTH {
        0
    } else {
        WIDTH - len
    }
}

pub open spec fn profile_page(p: PageView, profile: ProfileStatus) -> PageView {
    match profile.overdue {
        Some(over) => {
            let p = p.put(profile.name@).ink(
                text::padded_left(
                    "OVERDUE by "@ + words::until_text(words::capped(over.secs)),
                    room(profile.name@),
                ),
                Tint::Red,
            ).put("\n"@).put("  "@).line(subtitle_text(profile)).put("\n"@);
            remote_rows(p, profile.remotes@, false, profile.remotes@.len() as int).put("\n"@)
        },
        None => {
            let p = match profile.next_run {
                Some(next) => p.put(profile.name@).line(
                    text::padded_left("next run  "@ + next@, room(profile.name@)),
                ),
                None => p.line(profile.name@),
            };
            let p = p.put("  "@).line(subtitle_text(profile)).put("\n"@);
            let p = if profile.remotes@.len() == 0 {
                p.line("  local only, no remotes configured"@)
            } else {
                p
            };
            remote_rows(p, profile.remotes@, true, profile.remotes@.len() as int).put("\n"@)
        },
    }
}

fn put_profile(page: &mut Page, profile: &ProfileStatus)
    ensures
        final(page)@ == profile_page(old(page)@, *profile),
{
    let room: usize = room_beside(&profile.name);
    if let Some(over) = &profile.overdue {
        // Right-aligned first, then painted,
        // so the escape does not eat the padding.
        let overdue = right(&cat2("OVERDUE by ", &lasting(over.as_secs())), room);
        page.put(&profile.name);
        page.ink(&overdue, Tint::Red);
        page.put("\n");
        page.put("  ");
        page.line(&subtitle(profile));
        page.put("\n");
        put_remotes(page, &profile.remotes, false);
        page.put("\n");
        return;
    }
    match &profile.next_run {
        Some(next) => {
            page.put(&profile.name);
            page.line(&right(&cat2("next run  ", next), room));
        },
        None => page.line(&profile.name),
    }
    page.put("  ");
    page.line(&subtitle(profile));
    page.put("\n");
    if profile.remotes.len() == 0 {
        page.line("  local only, no remotes configured");
    }
    put_remotes(page, &profile.remotes, true);
    page.put("\n");
}

pub open spec fn profiles_page(p: PageView, profiles: Seq<ProfileStatus>, n: int) -> PageView
    decreases n,
{
    if n <= 0 {
        p
    } else {
        profile_page(profiles_page(p, profiles, n - 1), profiles[n - 1])
    }
}

pub open spec fn status_page(profiles: Seq<ProfileStatus>, banner: Option<Seq<char>>) -> PageView {
    let p = match banner {
        Some(banner) => PageView::empty().line(banner).put("\n"@),
        None => PageView::empty(),
    };
    profiles_page(p, profiles, profiles.len() as int)
}

/// Profile name and next run sit at opposite edges, so a glance
/// down the left lists your profiles and a glance down the right says when each
/// fires.
#[must_use]
pub fn status(profiles: &[ProfileStatus], banner: Option<&str>, colour: bool) -> (out: String)
    ensures
        out@ == status_page(profiles@, crate::primitives::path::view_str_opt(banner)).shown(colour),
{
    let mut page = Page::new();
    if let Some(banner) = banner {
        page.line(banner);
        page.put("\n");
    }
    let ghost start = page@;
    let mut i: usize = 0;
    while i < profiles.len()
        invariant
            i <= profiles@.len(),
            page@ == profiles_page(start, profiles@, i as int),
        decreases profiles@.len() - i,
    {
        put_profile(&mut page, &profiles[i]);
        i += 1;
    }
    page.show(colour)
}

// ---------------------------------------------------------------------------
// Laws
// ---------------------------------------------------------------------------

/// Red is for what failed, yellow for what is warned about, and what is fine has no colour.
pub proof fn only_trouble_is_coloured(severity: Verdict)
    ensures
        verdict_tint(severity) == Some(Tint::Red) <==> severity == Verdict::Fail,
        verdict_tint(severity) == Some(Tint::Yellow) <==> severity == Verdict::Warn,
        verdict_tint(severity) is None <==> severity == Verdict::Fine,
{
}

/// A profile's line under its name counts its backups and tells of the oldest and the newest where
/// there is one, and of the size of its store always.
pub proof fn a_subtitle_counts_and_sizes(profile: ProfileStatus)
    ensures
        words::grouped(profile.backups as nat).is_prefix_of(subtitle_text(profile)),
        bytes::size_text(profile.store_bytes as nat).is_suffix_of(subtitle_text(profile)),
        profile.newest is None && profile.since is None ==> subtitle_text(profile)
            == words::grouped(profile.backups as nat) + " backup"@ + (if profile.backups == 1 {
            ""@
        } else {
            "s"@
        }) + ", store "@ + bytes::size_text(profile.store_bytes as nat),
{
    let all = subtitle_text(profile);
    let count = words::grouped(profile.backups as nat);
    let size = bytes::size_text(profile.store_bytes as nat);
    assert(count =~= all.subrange(0, count.len() as int));
    assert(size =~= all.subrange(all.len() - size.len(), all.len() as int));
}

} // verus!
