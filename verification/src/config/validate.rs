//! The checks themselves, in the order in which their findings are reported.

use crate::text;
use crate::config::local;
use crate::config::rules;
use crate::config::schedule;
use crate::config;
use crate::primitives::names;
use crate::octets;
use crate::primitives::encode;
use crate::config::check;
use crate::config::check::{
    push_error, push_warning, DiagView, Diagnostic, DiagnosticKind, KindView, Note, NoteView,
};
use crate::config::raw::{RawConfig, RawProfile, RawRemote, RawSchedule, RawWatch};
use crate::config::rules::{Path, RuleTree};
use crate::config::{
    parse_interval, Config, LogLevel, Parsed, Profile, ProfileView, Remote, RemoteView, Schedule,
    TimeOfDay, WatchEntry, WatchView, Weekday,
};
use crate::primitives::names::{AliasError, ProfileName, RemoteName, RootAlias, SlugError, MAX_SLUG, RESERVED_ALIAS, RESERVED_PROFILE};
use crate::primitives::path::{AbsPath, PathFault, Vars};
use crate::text::{cat4, chars_of, same};
use vstd::prelude::*;
use vstd::seq_lib::*;
use vstd::string::*;
use vstd::utf8::*;

verus! {

/// The environment a config is read in: the home directory and the two variables.
pub struct Env {
    pub home: Option<Seq<char>>,
    pub vars: Vars,
}

/// A path as it is shown.
pub open spec fn shown(path: Path) -> Seq<char> {
    octets::lossy(crate::primitives::path::written(path))
}

// ---------------------------------------------------------------------------
// What is wrong with a name
// ---------------------------------------------------------------------------

/// The index of the first character no slug may hold.
pub open spec fn first_bad(s: Seq<char>) -> int
    decreases s.len(),
{
    if s.len() == 0 || !names::slug_char(s[0]) {
        0
    } else {
        1 + first_bad(s.skip(1))
    }
}

/// What is wrong with a slug.
pub open spec fn slug_fault(s: Seq<char>) -> Option<Seq<char>> {
    if s.len() == 0 {
        Some("the name is empty"@)
    } else if encode_utf8(s).len() > MAX_SLUG {
        Some("'"@ + s + "' is longer than "@ + text::decimal_text(64) + " characters"@)
    } else if !names::slug_start(s[0]) {
        Some("'"@ + s + "' must start with a lowercase letter or digit, not '"@ + seq![s[0]] + "'"@)
    } else if first_bad(s) < s.len() {
        Some(
            "'"@ + s + "' contains '"@ + seq![s[first_bad(s)]]
                + "'; only lowercase letters, digits and '-' are allowed"@,
        )
    } else {
        None
    }
}

/// What is wrong with a profile's name.
pub open spec fn profile_name_fault(s: Seq<char>) -> Option<Seq<char>> {
    match slug_fault(s) {
        Some(reason) => Some(reason),
        None => if s == RESERVED_PROFILE@ {
            Some("'"@ + s + "' is reserved"@)
        } else {
            None
        },
    }
}

proof fn lemma_first_bad(s: Seq<char>, at: int)
    requires
        0 <= at <= s.len(),
        forall|i: int| 0 <= i < at ==> names::slug_char(#[trigger] s[i]),
        at < s.len() ==> !names::slug_char(s[at]),
    ensures
        first_bad(s) == at,
    decreases s.len(),
{
    if at > 0 {
        assert(names::slug_char(s[0]));
        assert forall|i: int| 0 <= i < at - 1 implies names::slug_char(#[trigger] s.skip(1)[i]) by {
            assert(s.skip(1)[i] == s[i + 1]);
        }
        lemma_first_bad(s.skip(1), at - 1);
    }
}

proof fn lemma_slug_fault(s: Seq<char>, e: SlugError)
    requires
        e.refuses_slug(s),
    ensures
        slug_fault(s) == Some(e.message()),
{
    match e {
        SlugError::BadChar { name, ch } => {
            let at = choose|at: int| names::first_at(s, at, |c: char| names::slug_char(c)) && s[at] == ch;
            assert(names::first_at(s, at, |c: char| names::slug_char(c)));
            assert forall|i: int| 0 <= i < at implies names::slug_char(#[trigger] s[i]) by {
                let good = |c: char| names::slug_char(c);
                assert(good(s[i]));
            }
            lemma_first_bad(s, at);
        },
        _ => {},
    }
}

proof fn lemma_slug_ok(s: Seq<char>)
    requires
        names::is_slug(s),
    ensures
        slug_fault(s) is None,
{
    lemma_first_bad(s, s.len() as int);
}

/// What is wrong with a component as an alias.
pub open spec fn component_fault(raw: Seq<u8>) -> Option<Seq<char>> {
    if raw.len() == 0 {
        Some("the alias is empty"@)
    } else if raw == encode_utf8(RESERVED_ALIAS@) {
        Some("'"@ + RESERVED_ALIAS@ + "' is reserved for the store's own metadata"@)
    } else if raw[0] == 46 {
        Some("'"@ + octets::lossy(raw) + "' begins with a dot, which git rejects in a refname"@)
    } else if text::has_suffix(raw, encode::lock_suffix()) {
        Some("'"@ + octets::lossy(raw) + "' ends with '.lock', which git rejects in a refname"@)
    } else {
        None
    }
}

/// What is wrong with an explicit alias.
pub open spec fn explicit_fault(name: Seq<char>) -> Option<Seq<char>> {
    if name.contains('/') || name.contains('\\') {
        Some("an explicit alias cannot contain a path separator"@)
    } else {
        component_fault(encode_utf8(name))
    }
}

/// What is wrong with the alias of a root that has no explicit one.
pub open spec fn default_alias_fault(path: Path) -> Option<Seq<char>> {
    if path.len() == 0 || crate::primitives::path::is_drive(path.last()) {
        Some("the alias is empty"@)
    } else {
        component_fault(path.last())
    }
}

proof fn lemma_component_fault(raw: Seq<u8>, e: AliasError)
    requires
        e.refuses_component(raw),
    ensures
        component_fault(raw) == Some(e.message()),
{
}

// ---------------------------------------------------------------------------
// Paths
// ---------------------------------------------------------------------------

pub open spec fn bad_path(value: Seq<char>, fault: PathFault) -> NoteView {
    check::error_of(KindView::BadPath { value, reason: fault.message() })
}

/// What the first `n` values name, and what is wrong with those that name nothing.
pub open spec fn resolve_all(env: Env, texts: Seq<Seq<char>>, n: int) -> (Seq<Path>, Seq<NoteView>)
    decreases n,
{
    if n <= 0 {
        (Seq::empty(), Seq::empty())
    } else {
        let (paths, notes) = resolve_all(env, texts, n - 1);
        match crate::primitives::path::resolved(texts[n - 1], env.home, env.vars) {
            Ok(path) => (paths.push(path), notes),
            Err(fault) => (paths, notes.push(bad_path(texts[n - 1], fault))),
        }
    }
}

/// An entry that begins with `~`, `$` or a leading separator is a path; anything else in `ignore`
/// is a glob. Where paths begin with a drive, a drive letter makes one too: `C:/backups` is the
/// ordinary way to write an absolute path there.
pub open spec fn looks_like_path(drives: bool, entry: Seq<char>) -> bool {
    ||| entry.len() > 0 && (entry[0] == '~' || entry[0] == '$' || entry[0] == '/')
    ||| drives && (entry.len() > 0 && entry[0] == '\\' || local::drive_letter(entry))
}

/// The entries that are paths, in order.
pub open spec fn path_like(drives: bool, entries: Seq<Seq<char>>) -> Seq<Seq<char>>
    decreases entries.len(),
{
    if entries.len() == 0 {
        Seq::empty()
    } else if looks_like_path(drives, entries.last()) {
        path_like(drives, entries.drop_last()).push(entries.last())
    } else {
        path_like(drives, entries.drop_last())
    }
}

/// The entries that are globs, in order.
pub open spec fn glob_like(drives: bool, entries: Seq<Seq<char>>) -> Seq<Seq<char>>
    decreases entries.len(),
{
    if entries.len() == 0 {
        Seq::empty()
    } else if looks_like_path(drives, entries.last()) {
        glob_like(drives, entries.drop_last())
    } else {
        glob_like(drives, entries.drop_last()).push(entries.last())
    }
}

fn resolve(text: &str, home: Option<&str>, vars: &Vars, notes: &mut Vec<Note>) -> (out: Option<
    AbsPath,
>)
    ensures
        match crate::primitives::path::resolved(text@, crate::primitives::path::view_str_opt(home), *vars) {
            Ok(path) => out is Some && out->0@ == path && final(notes)@ == old(notes)@,
            Err(fault) => out is None && check::note_views(final(notes)@) == check::note_views(old(notes)@).push(
                bad_path(text@, fault),
            ),
        },
{
    match AbsPath::parse_in(text, home, vars) {
        Ok(path) => Some(path),
        Err(reason) => {
            push_error(
                notes,
                DiagnosticKind::BadPath { value: text.to_owned(), reason: reason.text() },
            );
            None
        },
    }
}

fn resolve_list(texts: &Vec<String>, home: Option<&str>, vars: &Vars, notes: &mut Vec<Note>) -> (out:
    Vec<AbsPath>)
    ensures
        ({
            let env = Env { home: crate::primitives::path::view_str_opt(home), vars: *vars };
            let (paths, more) = resolve_all(env, text::views(texts@), texts@.len() as int);
            &&& rules::path_views(out@) == paths
            &&& check::note_views(final(notes)@) == check::note_views(old(notes)@) + more
        }),
{
    let ghost env = Env { home: crate::primitives::path::view_str_opt(home), vars: *vars };
    let ghost all = text::views(texts@);
    let ghost start = check::note_views(notes@);
    let mut out: Vec<AbsPath> = Vec::new();
    let mut i: usize = 0;
    proof {
        assert(rules::path_views(out@) =~= resolve_all(env, all, 0).0);
        assert(start + resolve_all(env, all, 0).1 =~= start);
    }
    while i < texts.len()
        invariant
            i <= texts@.len(),
            all == text::views(texts@),
            env == (Env { home: crate::primitives::path::view_str_opt(home), vars: *vars }),
            rules::path_views(out@) == resolve_all(env, all, i as int).0,
            check::note_views(notes@) == start + resolve_all(env, all, i as int).1,
        decreases texts@.len() - i,
    {
        let ghost before = rules::path_views(out@);
        let ghost noted = check::note_views(notes@);
        assert(all[i as int] == texts@[i as int]@);
        if let Some(path) = resolve(&texts[i], home, vars, notes) {
            out.push(path);
            assert(rules::path_views(out@) =~= before.push(path@));
        }
        i += 1;
        proof {
            assert(check::note_views(notes@) =~= start + resolve_all(env, all, i as int).1);
        }
    }
    out
}

fn is_path_entry(drives: bool, entry: &str) -> (out: bool)
    ensures
        out == looks_like_path(drives, entry@),
{
    let cs = chars_of(entry);
    if cs.len() > 0 && (cs[0] == '~' || cs[0] == '$' || cs[0] == '/') {
        return true;
    }
    drives && (cs.len() > 0 && cs[0] == '\\' || local::has_drive_letter(&cs))
}

/// The entries that are paths and the entries that are globs.
fn part_entries(drives: bool, entries: &Vec<String>) -> (out: (Vec<String>, Vec<String>))
    ensures
        text::views(out.0@) == path_like(drives, text::views(entries@)),
        text::views(out.1@) == glob_like(drives, text::views(entries@)),
{
    let ghost all = text::views(entries@);
    let mut paths: Vec<String> = Vec::new();
    let mut globs: Vec<String> = Vec::new();
    let mut i: usize = 0;
    proof {
        assert(text::views(paths@) =~= path_like(drives, all.take(0)));
        assert(text::views(globs@) =~= glob_like(drives, all.take(0)));
    }
    while i < entries.len()
        invariant
            i <= entries@.len(),
            all == text::views(entries@),
            text::views(paths@) == path_like(drives, all.take(i as int)),
            text::views(globs@) == glob_like(drives, all.take(i as int)),
        decreases entries@.len() - i,
    {
        let ghost p = text::views(paths@);
        let ghost g = text::views(globs@);
        let entry = entries[i].clone();
        let ghost text = entry@;
        proof {
            assert(all.take(i + 1).drop_last() =~= all.take(i as int));
            assert(all.take(i + 1).last() == text);
        }
        if is_path_entry(drives, &entry) {
            paths.push(entry);
            assert(text::views(paths@) =~= p.push(text));
        } else {
            globs.push(entry);
            assert(text::views(globs@) =~= g.push(text));
        }
        i += 1;
    }
    assert(all.take(i as int) =~= all);
    (paths, globs)
}

// ---------------------------------------------------------------------------
// Keys
// ---------------------------------------------------------------------------

/// One finding for each key that means nothing.
pub open spec fn unknown_notes(table: Seq<char>, keys: Seq<Seq<char>>) -> Seq<NoteView> {
    keys.map_values(|key: Seq<char>| check::error_of(KindView::UnknownKey { table, key }))
}

fn unknown_keys(table: &str, keys: &Vec<String>, notes: &mut Vec<Note>)
    ensures
        check::note_views(final(notes)@) == check::note_views(old(notes)@) + unknown_notes(
            table@,
            text::views(keys@),
        ),
{
    let ghost start = check::note_views(notes@);
    let ghost all = unknown_notes(table@, text::views(keys@));
    let mut i: usize = 0;
    assert(start + all.take(0) =~= start);
    while i < keys.len()
        invariant
            i <= keys@.len(),
            all == unknown_notes(table@, text::views(keys@)),
            check::note_views(notes@) == start + all.take(i as int),
        decreases keys@.len() - i,
    {
        push_error(
            notes,
            DiagnosticKind::UnknownKey { table: table.to_owned(), key: keys[i].clone() },
        );
        i += 1;
        assert(check::note_views(notes@) =~= start + all.take(i as int));
    }
    assert(all.take(i as int) =~= all);
}

// ---------------------------------------------------------------------------
// Watched roots
// ---------------------------------------------------------------------------

/// What the last root stored under this alias is shown as.
pub open spec fn stored_under(watch: Seq<WatchView>, alias: Seq<char>) -> Option<Seq<char>>
    decreases watch.len(),
{
    if watch.len() == 0 {
        None
    } else if watch.last().alias() == Some(alias) {
        Some(shown(watch.last().path))
    } else {
        stored_under(watch.drop_last(), alias)
    }
}

/// What one more root adds: a collision with an earlier one, or an alias that cannot be one.
pub open spec fn alias_notes(watch: Seq<WatchView>, entry: WatchView) -> Seq<NoteView> {
    match entry.alias() {
        Some(alias) => match stored_under(watch, alias) {
            Some(first) => seq![
                check::error_of(KindView::AliasCollision { alias, first, second: shown(entry.path) }),
            ],
            None => Seq::empty(),
        },
        None => seq![
            check::error_of(
                KindView::InvalidAlias {
                    value: shown(entry.path),
                    reason: default_alias_fault(entry.path)->0,
                },
            ),
        ],
    }
}

/// The keys of a watch entry that mean nothing.
pub open spec fn watch_key_notes(raw: RawWatch) -> Seq<NoteView> {
    match raw {
        RawWatch::Bare(_) => Seq::empty(),
        RawWatch::Named { unknown, .. } => unknown_notes("a watch entry"@, text::views(unknown@)),
    }
}

/// The root a watch entry names, and what is wrong with the entry, given the roots before it.
pub open spec fn watch_step(env: Env, watch: Seq<WatchView>, raw: RawWatch) -> (
    Option<WatchView>,
    Seq<NoteView>,
) {
    let keys = watch_key_notes(raw);
    match crate::primitives::path::resolved(raw.written_path(), env.home, env.vars) {
        Err(fault) => (None, keys.push(bad_path(raw.written_path(), fault))),
        Ok(path) => match raw {
            RawWatch::Bare(_) => {
                let entry = WatchView { path, name: None };
                (Some(entry), keys + alias_notes(watch, entry))
            },
            RawWatch::Named { name, .. } => match explicit_fault(name@) {
                Some(reason) => (
                    None,
                    keys.push(check::error_of(KindView::InvalidAlias { value: name@, reason })),
                ),
                None => {
                    let entry = WatchView { path, name: Some(encode::percent_encoded(encode_utf8(name@))) };
                    (Some(entry), keys + alias_notes(watch, entry))
                },
            },
        },
    }
}

/// The roots of the first `n` watch entries, and what is wrong with them.
pub open spec fn watch_pass(env: Env, raw: Seq<RawWatch>, n: int) -> (
    Seq<WatchView>,
    Seq<NoteView>,
)
    decreases n,
{
    if n <= 0 {
        (Seq::empty(), Seq::empty())
    } else {
        let (watch, notes) = watch_pass(env, raw, n - 1);
        let (entry, more) = watch_step(env, watch, raw[n - 1]);
        match entry {
            Some(entry) => (watch.push(entry), notes + more),
            None => (watch, notes + more),
        }
    }
}

/// What the last root stored under this alias is shown as.
fn find_stored(watch: &Vec<WatchEntry>, alias: &str) -> (out: Option<String>)
    ensures
        text::view_opt(out) == stored_under(config::watch_views(watch@), alias@),
{
    let ghost all = config::watch_views(watch@);
    let mut i: usize = watch.len();
    assert(all.take(i as int) =~= all);
    while i > 0
        invariant
            i <= watch@.len(),
            all == config::watch_views(watch@),
            stored_under(all, alias@) == stored_under(all.take(i as int), alias@),
        decreases i,
    {
        i -= 1;
        proof {
            assert(all.take(i + 1).drop_last() =~= all.take(i as int));
            assert(all.take(i + 1).last() == watch@[i as int]@);
        }
        if let Ok(found) = watch[i].alias() {
            if same(found.as_str(), alias) {
                return Some(watch[i].path().text());
            }
        }
    }
    None
}

fn note_alias(watch: &Vec<WatchEntry>, entry: &WatchEntry, notes: &mut Vec<Note>)
    ensures
        check::note_views(final(notes)@) == check::note_views(old(notes)@) + alias_notes(
            config::watch_views(watch@),
            entry@,
        ),
{
    let ghost start = check::note_views(notes@);
    match entry.alias() {
        Ok(alias) => {
            match find_stored(watch, alias.as_str()) {
                Some(first) => {
                    push_error(
                        notes,
                        DiagnosticKind::AliasCollision {
                            alias: alias.as_str().to_owned(),
                            first,
                            second: entry.path().text(),
                        },
                    );
                },
                None => {},
            }
        },
        Err(reason) => {
            proof {
                if entry@.path.len() > 0 && !crate::primitives::path::is_drive(entry@.path.last()) {
                    lemma_component_fault(entry@.path.last(), reason);
                }
            }
            push_error(
                notes,
                DiagnosticKind::InvalidAlias { value: entry.path().text(), reason: reason.text() },
            );
        },
    }
    assert(check::note_views(notes@) =~= start + alias_notes(config::watch_views(watch@), entry@));
}

fn watch_one(
    watch: &Vec<WatchEntry>,
    raw: &RawWatch,
    home: Option<&str>,
    vars: &Vars,
    notes: &mut Vec<Note>,
) -> (out: Option<WatchEntry>)
    ensures
        ({
            let env = Env { home: crate::primitives::path::view_str_opt(home), vars: *vars };
            let (entry, more) = watch_step(env, config::watch_views(watch@), *raw);
            &&& check::note_views(final(notes)@) == check::note_views(old(notes)@) + more
            &&& match out {
                Some(e) => entry == Some(e@),
                None => entry is None,
            }
        }),
{
    let ghost start = check::note_views(notes@);
    let ghost keys = watch_key_notes(*raw);
    if let RawWatch::Named { unknown, .. } = raw {
        unknown_keys("a watch entry", unknown, notes);
    }
    assert(check::note_views(notes@) =~= start + keys);
    let path = match resolve(raw.path(), home, vars, notes) {
        Some(path) => path,
        None => {
            proof {
                let fault = crate::primitives::path::resolved(raw.written_path(), crate::primitives::path::view_str_opt(home), *vars)->Err_0;
                assert(check::note_views(notes@) =~= start + keys.push(
                    bad_path(raw.written_path(), fault),
                ));
            }
            return None;
        },
    };
    let entry = match raw {
        RawWatch::Bare(_) => WatchEntry::Bare(path),
        RawWatch::Named { name, .. } => match RootAlias::explicit(name) {
            Ok(alias) => WatchEntry::Named { path, name: alias },
            Err(reason) => {
                proof {
                    if !(reason is Separator) {
                        lemma_component_fault(encode_utf8(name@), reason);
                    }
                }
                let ghost text = reason.message();
                push_error(
                    notes,
                    DiagnosticKind::InvalidAlias { value: name.clone(), reason: reason.text() },
                );
                assert(check::note_views(notes@) =~= start + keys.push(
                    check::error_of(KindView::InvalidAlias { value: name@, reason: text }),
                ));
                return None;
            },
        },
    };
    note_alias(watch, &entry, notes);
    assert(check::note_views(notes@) =~= start + (keys + alias_notes(config::watch_views(watch@), entry@)));
    Some(entry)
}

fn watch_all(raw: &Vec<RawWatch>, home: Option<&str>, vars: &Vars, notes: &mut Vec<Note>) -> (out:
    Vec<WatchEntry>)
    ensures
        ({
            let env = Env { home: crate::primitives::path::view_str_opt(home), vars: *vars };
            let (watch, more) = watch_pass(env, raw@, raw@.len() as int);
            &&& config::watch_views(out@) == watch
            &&& check::note_views(final(notes)@) == check::note_views(old(notes)@) + more
        }),
{
    let ghost env = Env { home: crate::primitives::path::view_str_opt(home), vars: *vars };
    let ghost start = check::note_views(notes@);
    let mut out: Vec<WatchEntry> = Vec::new();
    let mut i: usize = 0;
    proof {
        assert(config::watch_views(out@) =~= watch_pass(env, raw@, 0).0);
        assert(start + watch_pass(env, raw@, 0).1 =~= start);
    }
    while i < raw.len()
        invariant
            i <= raw@.len(),
            env == (Env { home: crate::primitives::path::view_str_opt(home), vars: *vars }),
            config::watch_views(out@) == watch_pass(env, raw@, i as int).0,
            check::note_views(notes@) == start + watch_pass(env, raw@, i as int).1,
        decreases raw@.len() - i,
    {
        let ghost before = config::watch_views(out@);
        let ghost noted = watch_pass(env, raw@, i as int).1;
        let ghost step = watch_step(env, before, raw@[i as int]);
        if let Some(entry) = watch_one(&out, &raw[i], home, vars, notes) {
            out.push(entry);
            assert(config::watch_views(out@) =~= before.push(entry@));
        }
        i += 1;
        proof {
            assert(start + noted + step.1 =~= start + (noted + step.1));
        }
    }
    out
}

/// Whether the root at `i` lies inside the different root at `j`.
pub open spec fn nested(watch: Seq<WatchView>, i: int, j: int) -> bool {
    &&& i != j
    &&& crate::primitives::path::holds_path(watch[j].path, watch[i].path)
    &&& watch[j].path != watch[i].path
}

/// The findings about the root at `i` inside one of the first `n`.
pub open spec fn nested_row(watch: Seq<WatchView>, i: int, n: int) -> Seq<NoteView>
    decreases n,
{
    if n <= 0 {
        Seq::empty()
    } else if nested(watch, i, n - 1) {
        nested_row(watch, i, n - 1).push(
            check::error_of(
                KindView::NestedWatchedRoot {
                    inner: shown(watch[i].path),
                    outer: shown(watch[n - 1].path),
                },
            ),
        )
    } else {
        nested_row(watch, i, n - 1)
    }
}

/// The findings about the first `n` roots inside another.
pub open spec fn nested_rows(watch: Seq<WatchView>, n: int) -> Seq<NoteView>
    decreases n,
{
    if n <= 0 {
        Seq::empty()
    } else {
        nested_rows(watch, n - 1) + nested_row(watch, n - 1, watch.len() as int)
    }
}

fn is_nested(watch: &Vec<WatchEntry>, i: usize, j: usize) -> (out: bool)
    requires
        i < watch@.len(),
        j < watch@.len(),
    ensures
        out == nested(config::watch_views(watch@), i as int, j as int),
{
    assert(config::watch_views(watch@)[i as int] == watch@[i as int]@);
    assert(config::watch_views(watch@)[j as int] == watch@[j as int]@);
    i != j && watch[j].path().contains(watch[i].path()) && !watch[j].path().same(watch[i].path())
}

fn note_nested(watch: &Vec<WatchEntry>, notes: &mut Vec<Note>)
    ensures
        check::note_views(final(notes)@) == check::note_views(old(notes)@) + nested_rows(
            config::watch_views(watch@),
            watch@.len() as int,
        ),
{
    let ghost start = check::note_views(notes@);
    let ghost all = config::watch_views(watch@);
    let mut i: usize = 0;
    assert(start + nested_rows(all, 0) =~= start);
    while i < watch.len()
        invariant
            i <= watch@.len(),
            all == config::watch_views(watch@),
            check::note_views(notes@) == start + nested_rows(all, i as int),
        decreases watch@.len() - i,
    {
        let ghost before = check::note_views(notes@);
        let mut j: usize = 0;
        assert(before + nested_row(all, i as int, 0) =~= before);
        while j < watch.len()
            invariant
                i < watch@.len(),
                j <= watch@.len(),
                all == config::watch_views(watch@),
                check::note_views(notes@) == before + nested_row(all, i as int, j as int),
            decreases watch@.len() - j,
        {
            let ghost row = nested_row(all, i as int, j as int);
            if is_nested(watch, i, j) {
                push_error(
                    notes,
                    DiagnosticKind::NestedWatchedRoot {
                        inner: watch[i].path().text(),
                        outer: watch[j].path().text(),
                    },
                );
                assert(all[i as int] == watch@[i as int]@);
                assert(all[j as int] == watch@[j as int]@);
                assert(check::note_views(notes@) =~= before + nested_row(all, i as int, j + 1));
            }
            j += 1;
        }
        proof {
            assert(start + nested_rows(all, i as int) + nested_row(
                all,
                i as int,
                watch@.len() as int,
            ) =~= start + (nested_rows(all, i as int) + nested_row(
                all,
                i as int,
                watch@.len() as int,
            )));
        }
        i += 1;
    }
}

// ---------------------------------------------------------------------------
// Rules
// ---------------------------------------------------------------------------

/// One path on both sides: two explicit rules at equal depth must be the same path, so a
/// conflict reduces to that.
pub open spec fn conflicts(ignore: Seq<Path>, wanted: Seq<Path>, n: int) -> Seq<NoteView>
    decreases n,
{
    if n <= 0 {
        Seq::empty()
    } else if ignore.contains(wanted[n - 1]) {
        conflicts(ignore, wanted, n - 1).push(
            check::error_of(KindView::ConflictingRules { path: shown(wanted[n - 1]) }),
        )
    } else {
        conflicts(ignore, wanted, n - 1)
    }
}

/// Whether some root holds a path.
pub open spec fn watched(watch: Seq<WatchView>, path: Path) -> bool {
    exists|i: int| 0 <= i < watch.len() && crate::primitives::path::holds_path((#[trigger] watch[i]).path, path)
}

/// The ignores that can never fire.
pub open spec fn outside_notes(watch: Seq<WatchView>, ignore: Seq<Path>, n: int) -> Seq<NoteView>
    decreases n,
{
    if n <= 0 {
        Seq::empty()
    } else if watched(watch, ignore[n - 1]) {
        outside_notes(watch, ignore, n - 1)
    } else {
        outside_notes(watch, ignore, n - 1).push(
            check::warning_of(KindView::IgnoreOutsideEveryRoot { path: shown(ignore[n - 1]) }),
        )
    }
}

fn holds(paths: &Vec<AbsPath>, path: &AbsPath) -> (out: bool)
    ensures
        out == rules::path_views(paths@).contains(path@),
{
    let mut i: usize = 0;
    while i < paths.len()
        invariant
            i <= paths@.len(),
            forall|j: int| 0 <= j < i ==> rules::path_views(paths@)[j] != path@,
        decreases paths@.len() - i,
    {
        assert(rules::path_views(paths@)[i as int] == paths@[i as int]@);
        if paths[i].same(path) {
            return true;
        }
        i += 1;
    }
    false
}

fn is_watched(watch: &Vec<WatchEntry>, path: &AbsPath) -> (out: bool)
    ensures
        out == watched(config::watch_views(watch@), path@),
{
    let mut i: usize = 0;
    while i < watch.len()
        invariant
            i <= watch@.len(),
            forall|j: int|
                0 <= j < i ==> !crate::primitives::path::holds_path((#[trigger] config::watch_views(watch@)[j]).path, path@),
        decreases watch@.len() - i,
    {
        assert(config::watch_views(watch@)[i as int] == watch@[i as int]@);
        if watch[i].path().contains(path) {
            return true;
        }
        i += 1;
    }
    false
}

fn note_conflicts(
    ignore: &Vec<AbsPath>,
    reinclude: &Vec<AbsPath>,
    watch: &Vec<WatchEntry>,
    notes: &mut Vec<Note>,
)
    ensures
        ({
            let wanted = rules::path_views(reinclude@) + config::watch_paths(config::watch_views(watch@));
            check::note_views(final(notes)@) == check::note_views(old(notes)@) + conflicts(
                rules::path_views(ignore@),
                wanted,
                wanted.len() as int,
            )
        }),
{
    let ghost start = check::note_views(notes@);
    let ghost held = rules::path_views(ignore@);
    let ghost wanted = rules::path_views(reinclude@) + config::watch_paths(config::watch_views(watch@));
    let mut i: usize = 0;
    assert(start + conflicts(held, wanted, 0) =~= start);
    while i < reinclude.len()
        invariant
            i <= reinclude@.len(),
            held == rules::path_views(ignore@),
            wanted == rules::path_views(reinclude@) + config::watch_paths(config::watch_views(watch@)),
            check::note_views(notes@) == start + conflicts(held, wanted, i as int),
        decreases reinclude@.len() - i,
    {
        assert(wanted[i as int] == reinclude@[i as int]@);
        if holds(ignore, &reinclude[i]) {
            push_error(
                notes,
                DiagnosticKind::ConflictingRules { path: reinclude[i].text() },
            );
            assert(check::note_views(notes@) =~= start + conflicts(held, wanted, i + 1));
        }
        i += 1;
    }
    let n: usize = reinclude.len();
    let mut k: usize = 0;
    while k < watch.len()
        invariant
            k <= watch@.len(),
            n == reinclude@.len(),
            held == rules::path_views(ignore@),
            wanted == rules::path_views(reinclude@) + config::watch_paths(config::watch_views(watch@)),
            check::note_views(notes@) == start + conflicts(held, wanted, n + k),
        decreases watch@.len() - k,
    {
        assert(wanted[n + k] == watch@[k as int]@.path);
        if holds(ignore, watch[k].path()) {
            push_error(
                notes,
                DiagnosticKind::ConflictingRules { path: watch[k].path().text() },
            );
            assert(check::note_views(notes@) =~= start + conflicts(held, wanted, n + k + 1));
        }
        k += 1;
    }
}

fn note_outside(watch: &Vec<WatchEntry>, ignore: &Vec<AbsPath>, notes: &mut Vec<Note>)
    ensures
        check::note_views(final(notes)@) == check::note_views(old(notes)@) + outside_notes(
            config::watch_views(watch@),
            rules::path_views(ignore@),
            ignore@.len() as int,
        ),
{
    let ghost start = check::note_views(notes@);
    let ghost roots = config::watch_views(watch@);
    let ghost held = rules::path_views(ignore@);
    let mut i: usize = 0;
    assert(start + outside_notes(roots, held, 0) =~= start);
    while i < ignore.len()
        invariant
            i <= ignore@.len(),
            roots == config::watch_views(watch@),
            held == rules::path_views(ignore@),
            check::note_views(notes@) == start + outside_notes(roots, held, i as int),
        decreases ignore@.len() - i,
    {
        assert(held[i as int] == ignore@[i as int]@);
        if !is_watched(watch, &ignore[i]) {
            push_warning(
                notes,
                DiagnosticKind::IgnoreOutsideEveryRoot { path: ignore[i].text() },
            );
            assert(check::note_views(notes@) =~= start + outside_notes(roots, held, i + 1));
        }
        i += 1;
    }
}

// ---------------------------------------------------------------------------
// Remotes
// ---------------------------------------------------------------------------

pub open spec fn or_else<T>(value: Option<T>, default: T) -> T {
    match value {
        Some(value) => value,
        None => default,
    }
}

pub open spec fn has_remote(remotes: Seq<RemoteView>, name: Seq<char>) -> bool {
    exists|i: int| 0 <= i < remotes.len() && (#[trigger] remotes[i]).name == name
}

/// The remote an entry names, and what is wrong with the entry, given the remotes before it.
pub open spec fn remote_step(env: Env, remotes: Seq<RemoteView>, raw: RawRemote) -> (
    Option<RemoteView>,
    Seq<NoteView>,
) {
    let keys = unknown_notes("a remote entry"@, text::views(raw.unknown@));
    match raw.name {
        None => (None, keys.push(check::error_of(KindView::MissingRemoteName))),
        Some(name) => match slug_fault(name@) {
            Some(reason) => (
                None,
                keys.push(check::error_of(KindView::InvalidRemoteName { value: name@, reason })),
            ),
            None => match raw.path {
                None => (None, keys.push(check::error_of(KindView::MissingRemotePath { name: name@ }))),
                Some(path) => match crate::primitives::path::resolved(path@, env.home, env.vars) {
                    Err(fault) => (None, keys.push(bad_path(path@, fault))),
                    Ok(resolved) => (
                        Some(
                            RemoteView {
                                name: name@,
                                path: resolved,
                                optional: or_else(raw.optional, false),
                                behind_tolerance: or_else(raw.behind_tolerance, 4),
                                trust_ownership: or_else(raw.trust_ownership, false),
                            },
                        ),
                        if has_remote(remotes, name@) {
                            keys.push(check::error_of(KindView::DuplicateRemote { name: name@ }))
                        } else {
                            keys
                        },
                    ),
                },
            },
        },
    }
}

/// The remotes of the first `n` entries, and what is wrong with them.
pub open spec fn remote_pass(env: Env, raw: Seq<RawRemote>, n: int) -> (
    Seq<RemoteView>,
    Seq<NoteView>,
)
    decreases n,
{
    if n <= 0 {
        (Seq::empty(), Seq::empty())
    } else {
        let (remotes, notes) = remote_pass(env, raw, n - 1);
        let (entry, more) = remote_step(env, remotes, raw[n - 1]);
        match entry {
            Some(entry) => (remotes.push(entry), notes + more),
            None => (remotes, notes + more),
        }
    }
}

fn knows_remote(remotes: &Vec<Remote>, name: &str) -> (out: bool)
    ensures
        out == has_remote(config::remote_views(remotes@), name@),
{
    let mut i: usize = 0;
    while i < remotes.len()
        invariant
            i <= remotes@.len(),
            forall|j: int| 0 <= j < i ==> (#[trigger] config::remote_views(remotes@)[j]).name != name@,
        decreases remotes@.len() - i,
    {
        assert(config::remote_views(remotes@)[i as int] == remotes@[i as int]@);
        if same(remotes[i].name.as_str(), name) {
            return true;
        }
        i += 1;
    }
    false
}

fn remote_one(
    remotes: &Vec<Remote>,
    raw: &RawRemote,
    home: Option<&str>,
    vars: &Vars,
    notes: &mut Vec<Note>,
) -> (out: Option<Remote>)
    ensures
        ({
            let env = Env { home: crate::primitives::path::view_str_opt(home), vars: *vars };
            let (entry, more) = remote_step(env, config::remote_views(remotes@), *raw);
            &&& check::note_views(final(notes)@) == check::note_views(old(notes)@) + more
            &&& match out {
                Some(r) => entry == Some(r@),
                None => entry is None,
            }
        }),
{
    let ghost env = Env { home: crate::primitives::path::view_str_opt(home), vars: *vars };
    let ghost start = check::note_views(notes@);
    let ghost keys = unknown_notes("a remote entry"@, text::views(raw.unknown@));
    let ghost more = remote_step(env, config::remote_views(remotes@), *raw).1;
    unknown_keys("a remote entry", &raw.unknown, notes);
    let raw_name = match &raw.name {
        Some(name) => name,
        None => {
            push_error(notes, DiagnosticKind::MissingRemoteName);
            assert(check::note_views(notes@) =~= start + more);
            return None;
        },
    };
    let name = match RemoteName::parse(raw_name) {
        Ok(name) => name,
        Err(reason) => {
            proof {
                lemma_slug_fault(raw_name@, reason);
            }
            push_error(
                notes,
                DiagnosticKind::InvalidRemoteName {
                    value: raw_name.clone(),
                    reason: reason.text(),
                },
            );
            assert(check::note_views(notes@) =~= start + more);
            return None;
        },
    };
    proof {
        lemma_slug_ok(raw_name@);
    }
    let raw_path = match &raw.path {
        Some(path) => path,
        None => {
            push_error(notes, DiagnosticKind::MissingRemotePath { name: raw_name.clone() });
            assert(check::note_views(notes@) =~= start + more);
            return None;
        },
    };
    let path = match resolve(raw_path, home, vars, notes) {
        Some(path) => path,
        None => {
            assert(check::note_views(notes@) =~= start + more);
            return None;
        },
    };
    if knows_remote(remotes, name.as_str()) {
        push_error(notes, DiagnosticKind::DuplicateRemote { name: name.as_str().to_owned() });
    }
    assert(check::note_views(notes@) =~= start + more);
    Some(
        Remote {
            name,
            path,
            optional: raw.optional.unwrap_or(false),
            behind_tolerance: raw.behind_tolerance.unwrap_or(4),
            trust_ownership: raw.trust_ownership.unwrap_or(false),
        },
    )
}

fn remote_all(raw: &Vec<RawRemote>, home: Option<&str>, vars: &Vars, notes: &mut Vec<Note>) -> (out:
    Vec<Remote>)
    ensures
        ({
            let env = Env { home: crate::primitives::path::view_str_opt(home), vars: *vars };
            let (remotes, more) = remote_pass(env, raw@, raw@.len() as int);
            &&& config::remote_views(out@) == remotes
            &&& check::note_views(final(notes)@) == check::note_views(old(notes)@) + more
        }),
{
    let ghost env = Env { home: crate::primitives::path::view_str_opt(home), vars: *vars };
    let ghost start = check::note_views(notes@);
    let mut out: Vec<Remote> = Vec::new();
    let mut i: usize = 0;
    proof {
        assert(config::remote_views(out@) =~= remote_pass(env, raw@, 0).0);
        assert(start + remote_pass(env, raw@, 0).1 =~= start);
    }
    while i < raw.len()
        invariant
            i <= raw@.len(),
            env == (Env { home: crate::primitives::path::view_str_opt(home), vars: *vars }),
            config::remote_views(out@) == remote_pass(env, raw@, i as int).0,
            check::note_views(notes@) == start + remote_pass(env, raw@, i as int).1,
        decreases raw@.len() - i,
    {
        let ghost before = config::remote_views(out@);
        let ghost noted = remote_pass(env, raw@, i as int).1;
        let ghost step = remote_step(env, before, raw@[i as int]);
        if let Some(entry) = remote_one(&out, &raw[i], home, vars, notes) {
            out.push(entry);
            assert(config::remote_views(out@) =~= before.push(entry@));
        }
        i += 1;
        proof {
            assert(start + noted + step.1 =~= start + (noted + step.1));
        }
    }
    out
}

// ---------------------------------------------------------------------------
// Schedule, store, and what lies where
// ---------------------------------------------------------------------------

/// What a schedule table says, or what is wrong with it.
pub open spec fn table_schedule(raw: RawSchedule) -> Result<Schedule, Seq<char>> {
    match raw {
        RawSchedule::Daily { at } => match schedule::time_of(at@) {
            Ok(at) => Ok(Schedule::Daily { at }),
            Err(e) => Err(e),
        },
        RawSchedule::Weekly { day, at } => match schedule::weekday_of(day@) {
            None => Err("'"@ + day@ + "' is not a day of the week"@),
            Some(day) => match schedule::time_of(at@) {
                Ok(at) => Ok(Schedule::Weekly { day, at }),
                Err(e) => Err(e),
            },
        },
        RawSchedule::Every(text) => match schedule::interval_of(text@) {
            Ok(every) => Ok(Schedule::Every(every)),
            Err(e) => Err(e),
        },
    }
}

fn to_schedule(raw: &RawSchedule) -> (out: Result<Schedule, String>)
    ensures
        match out {
            Ok(s) => table_schedule(*raw) == Ok::<Schedule, Seq<char>>(s),
            Err(e) => table_schedule(*raw) == Err::<Schedule, Seq<char>>(e@),
        },
{
    match raw {
        RawSchedule::Daily { at } => match TimeOfDay::parse(at) {
            Ok(at) => Ok(Schedule::Daily { at }),
            Err(e) => Err(e),
        },
        RawSchedule::Weekly { day, at } => {
            let day = match Weekday::parse(day) {
                Ok(day) => day,
                Err(e) => return Err(e),
            };
            match TimeOfDay::parse(at) {
                Ok(at) => Ok(Schedule::Weekly { day, at }),
                Err(e) => Err(e),
            }
        },
        RawSchedule::Every(text) => match parse_interval(text) {
            Ok(every) => Ok(Schedule::Every(every)),
            Err(e) => Err(e),
        },
    }
}

/// The schedule of a profile, and what is to be said of it.
pub open spec fn schedule_step(raw: Option<RawSchedule>) -> (Option<Schedule>, Seq<NoteView>) {
    match raw {
        None => (None, seq![check::warning_of(KindView::NoSchedule)]),
        Some(raw) => match table_schedule(raw) {
            Ok(schedule) => (Some(schedule), Seq::empty()),
            Err(reason) => (None, seq![check::error_of(KindView::InvalidSchedule { reason })]),
        },
    }
}

fn note_schedule(raw: &Option<RawSchedule>, notes: &mut Vec<Note>) -> (out: Option<Schedule>)
    ensures
        out == schedule_step(*raw).0,
        check::note_views(final(notes)@) == check::note_views(old(notes)@) + schedule_step(*raw).1,
{
    let ghost start = check::note_views(notes@);
    let out = match raw {
        None => {
            push_warning(notes, DiagnosticKind::NoSchedule);
            None
        },
        Some(raw) => match to_schedule(raw) {
            Ok(schedule) => Some(schedule),
            Err(reason) => {
                push_error(notes, DiagnosticKind::InvalidSchedule { reason });
                None
            },
        },
    };
    assert(check::note_views(notes@) =~= start + schedule_step(*raw).1);
    out
}

/// The store path of a profile, and what is wrong with it.
pub open spec fn store_step(env: Env, raw: Option<String>) -> (Option<Path>, Seq<NoteView>) {
    match raw {
        None => (None, Seq::empty()),
        Some(text) => match crate::primitives::path::resolved(text@, env.home, env.vars) {
            Ok(path) => (Some(path), Seq::empty()),
            Err(fault) => (None, seq![bad_path(text@, fault)]),
        },
    }
}

fn note_store(raw: &Option<String>, home: Option<&str>, vars: &Vars, notes: &mut Vec<Note>) -> (out:
    Option<AbsPath>)
    ensures
        ({
            let env = Env { home: crate::primitives::path::view_str_opt(home), vars: *vars };
            &&& config::path_view_opt(out) == store_step(env, *raw).0
            &&& check::note_views(final(notes)@) == check::note_views(old(notes)@) + store_step(env, *raw).1
        }),
{
    let ghost env = Env { home: crate::primitives::path::view_str_opt(home), vars: *vars };
    let ghost start = check::note_views(notes@);
    let out = match raw {
        None => None,
        Some(text) => resolve(text, home, vars, notes),
    };
    assert(check::note_views(notes@) =~= start + store_step(env, *raw).1);
    out
}

/// The findings about one path inside one of the first `n` watched roots.
pub open spec fn inside_row(watch: Seq<WatchView>, what: Seq<char>, path: Path, n: int) -> Seq<
    NoteView,
>
    decreases n,
{
    if n <= 0 {
        Seq::empty()
    } else if crate::primitives::path::holds_path(watch[n - 1].path, path) {
        inside_row(watch, what, path, n - 1).push(
            check::error_of(
                KindView::PathInsideWatchedRoot {
                    what,
                    path: shown(path),
                    root: shown(watch[n - 1].path),
                },
            ),
        )
    } else {
        inside_row(watch, what, path, n - 1)
    }
}

/// The findings about the first `n` remotes inside a watched root.
pub open spec fn inside_remotes(watch: Seq<WatchView>, remotes: Seq<RemoteView>, n: int) -> Seq<
    NoteView,
>
    decreases n,
{
    if n <= 0 {
        Seq::empty()
    } else {
        inside_remotes(watch, remotes, n - 1) + inside_row(
            watch,
            "remote path"@,
            remotes[n - 1].path,
            watch.len() as int,
        )
    }
}

/// Backing up the store or the remotes into themselves is unbounded.
pub open spec fn inside_notes(
    watch: Seq<WatchView>,
    store: Option<Path>,
    remotes: Seq<RemoteView>,
) -> Seq<NoteView> {
    let first = match store {
        Some(path) => inside_row(watch, "store_path"@, path, watch.len() as int),
        None => Seq::empty(),
    };
    first + inside_remotes(watch, remotes, remotes.len() as int)
}

fn note_inside_row(watch: &Vec<WatchEntry>, what: &str, path: &AbsPath, notes: &mut Vec<Note>)
    ensures
        check::note_views(final(notes)@) == check::note_views(old(notes)@) + inside_row(
            config::watch_views(watch@),
            what@,
            path@,
            watch@.len() as int,
        ),
{
    let ghost start = check::note_views(notes@);
    let ghost roots = config::watch_views(watch@);
    let mut i: usize = 0;
    assert(start + inside_row(roots, what@, path@, 0) =~= start);
    while i < watch.len()
        invariant
            i <= watch@.len(),
            roots == config::watch_views(watch@),
            check::note_views(notes@) == start + inside_row(roots, what@, path@, i as int),
        decreases watch@.len() - i,
    {
        assert(roots[i as int] == watch@[i as int]@);
        if watch[i].path().contains(path) {
            push_error(
                notes,
                DiagnosticKind::PathInsideWatchedRoot {
                    what: what.to_owned(),
                    path: path.text(),
                    root: watch[i].path().text(),
                },
            );
            assert(check::note_views(notes@) =~= start + inside_row(roots, what@, path@, i + 1));
        }
        i += 1;
    }
}

fn note_inside(
    watch: &Vec<WatchEntry>,
    store: &Option<AbsPath>,
    remotes: &Vec<Remote>,
    notes: &mut Vec<Note>,
)
    ensures
        check::note_views(final(notes)@) == check::note_views(old(notes)@) + inside_notes(
            config::watch_views(watch@),
            config::path_view_opt(*store),
            config::remote_views(remotes@),
        ),
{
    let ghost start = check::note_views(notes@);
    let ghost roots = config::watch_views(watch@);
    let ghost held = config::remote_views(remotes@);
    let ghost first = match config::path_view_opt(*store) {
        Some(path) => inside_row(roots, "store_path"@, path, roots.len() as int),
        None => Seq::empty(),
    };
    if let Some(path) = store {
        note_inside_row(watch, "store_path", path, notes);
    }
    assert(check::note_views(notes@) =~= start + first);
    let mut i: usize = 0;
    assert(start + (first + inside_remotes(roots, held, 0)) =~= start + first);
    while i < remotes.len()
        invariant
            i <= remotes@.len(),
            roots == config::watch_views(watch@),
            held == config::remote_views(remotes@),
            check::note_views(notes@) == start + (first + inside_remotes(roots, held, i as int)),
        decreases remotes@.len() - i,
    {
        let ghost before = inside_remotes(roots, held, i as int);
        assert(held[i as int] == remotes@[i as int]@);
        note_inside_row(watch, "remote path", &remotes[i].path, notes);
        proof {
            let row = inside_row(
                roots,
                "remote path"@,
                held[i as int].path,
                roots.len() as int,
            );
            assert(start + (first + before) + row =~= start + (first + (before + row)));
        }
        i += 1;
    }
}

/// What is wrong with the patterns of a profile.
pub open spec fn glob_notes(globs: Seq<Seq<char>>, use_default_ignores: bool) -> Seq<NoteView> {
    match rules::build_fault(globs, config::profile_junk(use_default_ignores)) {
        None => Seq::empty(),
        Some((pattern, reason)) => seq![
            check::error_of(
                KindView::InvalidGlob {
                    pattern: "'"@ + pattern + "' is not a valid glob: "@ + reason,
                    reason: "globset rejected it"@,
                },
            ),
        ],
    }
}

/// Compiling here is what turns an unusable glob into a config error rather than
/// a run-time surprise.
fn note_globs(profile: &Profile, notes: &mut Vec<Note>)
    ensures
        check::note_views(final(notes)@) == check::note_views(old(notes)@) + glob_notes(
            profile@.ignore_globs,
            profile.use_default_ignores,
        ),
{
    let ghost start = check::note_views(notes@);
    if let Err(error) = RuleTree::build(&profile.rule_set()) {
        push_error(
            notes,
            DiagnosticKind::InvalidGlob {
                pattern: error.text(),
                reason: "globset rejected it".to_owned(),
            },
        );
    }
    assert(check::note_views(notes@) =~= start + glob_notes(
        profile@.ignore_globs,
        profile.use_default_ignores,
    ));
}

/// Whether some ignored path lies inside a root.
pub open spec fn carved(ignore: Seq<Path>, root: Path) -> bool {
    exists|i: int| 0 <= i < ignore.len() && crate::primitives::path::holds_path(root, #[trigger] ignore[i])
}

/// The warnings about the root at `i` covered by one of the first `n`.
pub open spec fn redundant_row(watch: Seq<WatchView>, ignore: Seq<Path>, i: int, n: int) -> Seq<
    NoteView,
>
    decreases n,
{
    if n <= 0 {
        Seq::empty()
    } else if nested(watch, i, n - 1) && !carved(ignore, watch[n - 1].path) {
        redundant_row(watch, ignore, i, n - 1).push(
            check::warning_of(
                KindView::RedundantWatch {
                    path: shown(watch[i].path),
                    covered_by: shown(watch[n - 1].path),
                },
            ),
        )
    } else {
        redundant_row(watch, ignore, i, n - 1)
    }
}

/// The warnings about the first `n` roots covered by another.
pub open spec fn redundant_rows(watch: Seq<WatchView>, ignore: Seq<Path>, n: int) -> Seq<NoteView>
    decreases n,
{
    if n <= 0 {
        Seq::empty()
    } else {
        redundant_rows(watch, ignore, n - 1) + redundant_row(
            watch,
            ignore,
            n - 1,
            watch.len() as int,
        )
    }
}

fn is_carved(ignore: &Vec<AbsPath>, root: &AbsPath) -> (out: bool)
    ensures
        out == carved(rules::path_views(ignore@), root@),
{
    let mut i: usize = 0;
    while i < ignore.len()
        invariant
            i <= ignore@.len(),
            forall|j: int| 0 <= j < i ==> !crate::primitives::path::holds_path(root@, #[trigger] rules::path_views(ignore@)[j]),
        decreases ignore@.len() - i,
    {
        assert(rules::path_views(ignore@)[i as int] == ignore@[i as int]@);
        if root.contains(&ignore[i]) {
            return true;
        }
        i += 1;
    }
    false
}

fn note_redundant(watch: &Vec<WatchEntry>, ignore: &Vec<AbsPath>, notes: &mut Vec<Note>)
    ensures
        check::note_views(final(notes)@) == check::note_views(old(notes)@) + redundant_rows(
            config::watch_views(watch@),
            rules::path_views(ignore@),
            watch@.len() as int,
        ),
{
    let ghost start = check::note_views(notes@);
    let ghost all = config::watch_views(watch@);
    let ghost held = rules::path_views(ignore@);
    let mut i: usize = 0;
    assert(start + redundant_rows(all, held, 0) =~= start);
    while i < watch.len()
        invariant
            i <= watch@.len(),
            all == config::watch_views(watch@),
            held == rules::path_views(ignore@),
            check::note_views(notes@) == start + redundant_rows(all, held, i as int),
        decreases watch@.len() - i,
    {
        let ghost before = check::note_views(notes@);
        let mut j: usize = 0;
        assert(before + redundant_row(all, held, i as int, 0) =~= before);
        while j < watch.len()
            invariant
                i < watch@.len(),
                j <= watch@.len(),
                all == config::watch_views(watch@),
                held == rules::path_views(ignore@),
                check::note_views(notes@) == before + redundant_row(all, held, i as int, j as int),
            decreases watch@.len() - j,
        {
            assert(all[i as int] == watch@[i as int]@);
            assert(all[j as int] == watch@[j as int]@);
            if is_nested(watch, i, j) && !is_carved(ignore, watch[j].path()) {
                push_warning(
                    notes,
                    DiagnosticKind::RedundantWatch {
                        path: watch[i].path().text(),
                        covered_by: watch[j].path().text(),
                    },
                );
                assert(check::note_views(notes@) =~= before + redundant_row(
                    all,
                    held,
                    i as int,
                    j + 1,
                ));
            }
            j += 1;
        }
        proof {
            let row = redundant_row(all, held, i as int, watch@.len() as int);
            assert(start + redundant_rows(all, held, i as int) + row =~= start + (redundant_rows(
                all,
                held,
                i as int,
            ) + row));
        }
        i += 1;
    }
}

// ---------------------------------------------------------------------------
// A profile
// ---------------------------------------------------------------------------

/// What there is to say of a profile's lists, in order.
pub open spec fn rule_notes(watch: Seq<WatchView>, ignore: Seq<Path>, reinclude: Seq<Path>) -> Seq<
    NoteView,
> {
    let wanted = reinclude + config::watch_paths(watch);
    conflicts(ignore, wanted, wanted.len() as int) + outside_notes(
        watch,
        ignore,
        ignore.len() as int,
    )
}

/// The watched roots of a profile, and everything to say of them.
pub open spec fn roots_of(env: Env, raw: RawProfile) -> (Seq<WatchView>, Seq<NoteView>) {
    let (watch, notes) = watch_pass(env, raw.watch@, raw.watch@.len() as int);
    let empty = if watch.len() == 0 {
        seq![check::error_of(KindView::EmptyWatch)]
    } else {
        Seq::empty()
    };
    (watch, notes + empty + nested_rows(watch, watch.len() as int))
}

/// The remotes of a profile, and everything to say of them.
pub open spec fn remotes_of(env: Env, raw: RawProfile) -> (Seq<RemoteView>, Seq<NoteView>) {
    let (remotes, notes) = remote_pass(env, raw.remotes@, raw.remotes@.len() as int);
    let none = if remotes.len() == 0 && !or_else(raw.local_only, false) {
        seq![check::error_of(KindView::NoRemotes)]
    } else {
        Seq::empty()
    };
    (remotes, notes + none)
}

/// The profile a table describes, once its name is known to be one.
pub open spec fn profile_of(env: Env, name: Seq<char>, raw: RawProfile) -> ProfileView {
    let ignored = path_like(env.vars.drives, text::views(raw.ignore@));
    ProfileView {
        name,
        watch: roots_of(env, raw).0,
        ignore_paths: resolve_all(env, ignored, ignored.len() as int).0,
        ignore_globs: glob_like(env.vars.drives, text::views(raw.ignore@)),
        reinclude: resolve_all(env, text::views(raw.reinclude@), raw.reinclude@.len() as int).0,
        remotes: remotes_of(env, raw).0,
        schedule: schedule_step(raw.schedule).0,
        use_default_ignores: or_else(raw.use_default_ignores, true),
        store_path: store_step(env, raw.store_path).0,
        local_only: or_else(raw.local_only, false),
    }
}

/// Everything to say of a table whose name is one, in order.
pub open spec fn notes_of(env: Env, name: Seq<char>, raw: RawProfile) -> Seq<NoteView> {
    let p = profile_of(env, name, raw);
    let ignored = path_like(env.vars.drives, text::views(raw.ignore@));
    roots_of(env, raw).1
        + resolve_all(env, ignored, ignored.len() as int).1
        + resolve_all(env, text::views(raw.reinclude@), raw.reinclude@.len() as int).1
        + rule_notes(p.watch, p.ignore_paths, p.reinclude)
        + remotes_of(env, raw).1
        + schedule_step(raw.schedule).1
        + store_step(env, raw.store_path).1
        + inside_notes(p.watch, p.store_path, p.remotes)
        + glob_notes(p.ignore_globs, p.use_default_ignores)
        + redundant_rows(p.watch, p.ignore_paths, p.watch.len() as int)
}

/// The profile a table describes, and everything to say of it. A table without a usable name
/// describes none.
pub open spec fn profile_check(env: Env, raw: RawProfile) -> (Option<ProfileView>, Seq<NoteView>) {
    match raw.name {
        None => (None, seq![check::error_of(KindView::MissingProfileName)]),
        Some(name) => match profile_name_fault(name@) {
            Some(reason) => (
                None,
                seq![check::error_of(KindView::InvalidProfileName { value: name@, reason })],
            ),
            None => (Some(profile_of(env, name@, raw)), notes_of(env, name@, raw)),
        },
    }
}

fn profile_name(raw: &RawProfile, notes: &mut Vec<Note>) -> (out: Option<ProfileName>)
    ensures
        match raw.name {
            None => out is None && check::note_views(final(notes)@) == check::note_views(old(notes)@)
                + seq![check::error_of(KindView::MissingProfileName)],
            Some(name) => match profile_name_fault(name@) {
                Some(reason) => out is None && check::note_views(final(notes)@) == check::note_views(
                    old(notes)@,
                ) + seq![check::error_of(KindView::InvalidProfileName { value: name@, reason })],
                None => out is Some && out->0@ == name@ && final(notes)@ == old(notes)@,
            },
        },
{
    let ghost start = check::note_views(notes@);
    let raw_name = match &raw.name {
        Some(name) => name,
        None => {
            push_error(notes, DiagnosticKind::MissingProfileName);
            assert(check::note_views(notes@) =~= start + seq![check::error_of(KindView::MissingProfileName)]);
            return None;
        },
    };
    match ProfileName::parse(raw_name) {
        Ok(name) => {
            proof {
                lemma_slug_ok(raw_name@);
            }
            Some(name)
        },
        Err(reason) => {
            proof {
                if reason is Reserved {
                    lemma_slug_ok(raw_name@);
                } else {
                    lemma_slug_fault(raw_name@, reason);
                }
            }
            let ghost said = reason.message();
            push_error(
                notes,
                DiagnosticKind::InvalidProfileName {
                    value: raw_name.clone(),
                    reason: reason.text(),
                },
            );
            assert(check::note_views(notes@) =~= start + seq![
                check::error_of(KindView::InvalidProfileName { value: raw_name@, reason: said }),
            ]);
            None
        },
    }
}

fn note_roots(raw: &RawProfile, home: Option<&str>, vars: &Vars, notes: &mut Vec<Note>) -> (out: Vec<
    WatchEntry,
>)
    ensures
        ({
            let env = Env { home: crate::primitives::path::view_str_opt(home), vars: *vars };
            &&& config::watch_views(out@) == roots_of(env, *raw).0
            &&& check::note_views(final(notes)@) == check::note_views(old(notes)@) + roots_of(env, *raw).1
        }),
{
    let ghost env = Env { home: crate::primitives::path::view_str_opt(home), vars: *vars };
    let ghost start = check::note_views(notes@);
    let watch = watch_all(&raw.watch, home, vars, notes);
    if watch.len() == 0 {
        push_error(notes, DiagnosticKind::EmptyWatch);
    }
    // A watched root inside another has no answer for which alias its content is
    // stored under, so it is an error rather than a resolution rule.
    note_nested(&watch, notes);
    proof {
        assert(config::watch_views(watch@).len() == watch@.len());
        assert(check::note_views(notes@) =~= start + roots_of(env, *raw).1);
    }
    watch
}

fn note_remotes(raw: &RawProfile, home: Option<&str>, vars: &Vars, notes: &mut Vec<Note>) -> (out:
    Vec<Remote>)
    ensures
        ({
            let env = Env { home: crate::primitives::path::view_str_opt(home), vars: *vars };
            &&& config::remote_views(out@) == remotes_of(env, *raw).0
            &&& check::note_views(final(notes)@) == check::note_views(old(notes)@) + remotes_of(env, *raw).1
        }),
{
    let ghost env = Env { home: crate::primitives::path::view_str_opt(home), vars: *vars };
    let ghost start = check::note_views(notes@);
    let remotes = remote_all(&raw.remotes, home, vars, notes);
    if remotes.len() == 0 && !raw.local_only.unwrap_or(false) {
        push_error(notes, DiagnosticKind::NoRemotes);
    }
    proof {
        assert(config::remote_views(remotes@).len() == remotes@.len());
        assert(check::note_views(notes@) =~= start + remotes_of(env, *raw).1);
    }
    remotes
}

fn validate_profile(raw: &RawProfile, home: Option<&str>, vars: &Vars, notes: &mut Vec<Note>) -> (out:
    Option<Profile>)
    ensures
        ({
            let env = Env { home: crate::primitives::path::view_str_opt(home), vars: *vars };
            let (profile, more) = profile_check(env, *raw);
            &&& check::note_views(final(notes)@) == check::note_views(old(notes)@) + more
            &&& match out {
                Some(p) => profile == Some(p@),
                None => profile is None,
            }
        }),
{
    let ghost env = Env { home: crate::primitives::path::view_str_opt(home), vars: *vars };
    let ghost n0 = check::note_views(notes@);
    let name = match profile_name(raw, notes) {
        Some(name) => name,
        None => return None,
    };
    let ghost p = profile_of(env, name@, *raw);
    let watch = note_roots(raw, home, vars, notes);
    let ghost a1 = roots_of(env, *raw).1;
    let (ignored, ignore_globs) = part_entries(vars.drives, &raw.ignore);
    let ghost texts = path_like(env.vars.drives, text::views(raw.ignore@));
    let ignore_paths = resolve_list(&ignored, home, vars, notes);
    let ghost a2 = a1 + resolve_all(env, texts, texts.len() as int).1;
    proof {
        assert(text::views(ignored@).len() == ignored@.len());
        lemma_concat_associative(n0, a1, resolve_all(env, texts, texts.len() as int).1);
    }
    let reinclude = resolve_list(&raw.reinclude, home, vars, notes);
    let ghost back = resolve_all(env, text::views(raw.reinclude@), raw.reinclude@.len() as int).1;
    let ghost a3 = a2 + back;
    proof {
        lemma_concat_associative(n0, a2, back);
    }
    note_conflicts(&ignore_paths, &reinclude, &watch, notes);
    note_outside(&watch, &ignore_paths, notes);
    let ghost a4 = a3 + rule_notes(p.watch, p.ignore_paths, p.reinclude);
    proof {
        let wanted = p.reinclude + config::watch_paths(p.watch);
        let c = conflicts(p.ignore_paths, wanted, wanted.len() as int);
        let o = outside_notes(p.watch, p.ignore_paths, p.ignore_paths.len() as int);
        assert(rules::path_views(ignore_paths@).len() == ignore_paths@.len());
        lemma_concat_associative(n0 + a3, c, o);
        lemma_concat_associative(n0, a3, c + o);
    }
    let remotes = note_remotes(raw, home, vars, notes);
    let ghost a5 = a4 + remotes_of(env, *raw).1;
    proof {
        lemma_concat_associative(n0, a4, remotes_of(env, *raw).1);
    }
    let schedule = note_schedule(&raw.schedule, notes);
    let ghost a6 = a5 + schedule_step(raw.schedule).1;
    proof {
        lemma_concat_associative(n0, a5, schedule_step(raw.schedule).1);
    }
    let store_path = note_store(&raw.store_path, home, vars, notes);
    let ghost a7 = a6 + store_step(env, raw.store_path).1;
    proof {
        lemma_concat_associative(n0, a6, store_step(env, raw.store_path).1);
    }
    note_inside(&watch, &store_path, &remotes, notes);
    let ghost a8 = a7 + inside_notes(p.watch, p.store_path, p.remotes);
    proof {
        lemma_concat_associative(n0, a7, inside_notes(p.watch, p.store_path, p.remotes));
    }
    let profile = Profile {
        name,
        watch,
        ignore_paths,
        ignore_globs,
        reinclude,
        remotes,
        schedule,
        use_default_ignores: raw.use_default_ignores.unwrap_or(true),
        store_path,
        local_only: raw.local_only.unwrap_or(false),
    };
    assert(profile@ == p);
    note_globs(&profile, notes);
    let ghost a9 = a8 + glob_notes(p.ignore_globs, p.use_default_ignores);
    proof {
        lemma_concat_associative(n0, a8, glob_notes(p.ignore_globs, p.use_default_ignores));
    }
    note_redundant(&profile.watch, &profile.ignore_paths, notes);
    proof {
        assert(config::watch_views(profile.watch@).len() == profile.watch@.len());
        lemma_concat_associative(
            n0,
            a9,
            redundant_rows(p.watch, p.ignore_paths, p.watch.len() as int),
        );
    }
    Some(profile)
}

// ---------------------------------------------------------------------------
// The whole file
// ---------------------------------------------------------------------------

/// What a text says as a log level.
pub open spec fn level_of(text: Seq<char>) -> Option<LogLevel> {
    if text == "error"@ {
        Some(LogLevel::Error)
    } else if text == "warn"@ {
        Some(LogLevel::Warn)
    } else if text == "info"@ {
        Some(LogLevel::Info)
    } else if text == "debug"@ {
        Some(LogLevel::Debug)
    } else {
        None
    }
}

/// The log level of a file, and what is wrong with it. The level is `info` where none is given
/// or none can be read.
pub open spec fn level_step(raw: Option<String>) -> (LogLevel, Seq<NoteView>) {
    match raw {
        None => (LogLevel::Info, Seq::empty()),
        Some(text) => match level_of(text@) {
            Some(level) => (level, Seq::empty()),
            None => (
                LogLevel::Info,
                seq![check::error_of(KindView::InvalidLogLevel { value: text@ })],
            ),
        },
    }
}

/// Findings with the profile they are about.
pub open spec fn stamped(profile: Option<Seq<char>>, notes: Seq<NoteView>) -> Seq<DiagView> {
    notes.map_values(
        |n: NoteView| DiagView { severity: n.severity, profile, kind: n.kind },
    )
}

pub open spec fn has_profile(profiles: Seq<ProfileView>, name: Seq<char>) -> bool {
    exists|i: int| 0 <= i < profiles.len() && (#[trigger] profiles[i]).name == name
}

/// The last profile that keeps its store at this path.
pub open spec fn store_owner(profiles: Seq<ProfileView>, path: Path) -> Option<Seq<char>>
    decreases profiles.len(),
{
    if profiles.len() == 0 {
        None
    } else if profiles.last().store_path == Some(path) {
        Some(profiles.last().name)
    } else {
        store_owner(profiles.drop_last(), path)
    }
}

/// What one more profile collides with: its name, then its store.
pub open spec fn duplicate_notes(profiles: Seq<ProfileView>, p: ProfileView) -> Seq<NoteView> {
    let named = if has_profile(profiles, p.name) {
        seq![check::error_of(KindView::DuplicateProfile { name: p.name })]
    } else {
        Seq::empty()
    };
    let stored = match p.store_path {
        None => Seq::empty(),
        Some(path) => match store_owner(profiles, path) {
            None => Seq::empty(),
            Some(first) => seq![
                check::error_of(
                    KindView::DuplicateStorePath {
                        path: shown(path) + " (also "@ + first + ")"@,
                    },
                ),
            ],
        },
    };
    named + stored
}

/// The profile of one table and everything to say of it, given the profiles before it.
pub open spec fn table_step(env: Env, profiles: Seq<ProfileView>, raw: RawProfile) -> (
    Option<ProfileView>,
    Seq<DiagView>,
) {
    let keys = unknown_notes("[[profile]]"@, text::views(raw.unknown@));
    let (profile, notes) = profile_check(env, raw);
    let more = match profile {
        Some(p) => duplicate_notes(profiles, p),
        None => Seq::empty(),
    };
    (profile, stamped(text::view_opt(raw.name), keys + notes + more))
}

/// The profiles of the first `n` tables, and everything to say of them.
pub open spec fn table_pass(env: Env, raw: Seq<RawProfile>, n: int) -> (
    Seq<ProfileView>,
    Seq<DiagView>,
)
    decreases n,
{
    if n <= 0 {
        (Seq::empty(), Seq::empty())
    } else {
        let (profiles, diags) = table_pass(env, raw, n - 1);
        let (profile, more) = table_step(env, profiles, raw[n - 1]);
        match profile {
            Some(p) => (profiles.push(p), diags + more),
            None => (profiles, diags + more),
        }
    }
}

/// What there is to say of a file before its profiles.
pub open spec fn top_notes(raw: RawConfig) -> Seq<NoteView> {
    unknown_notes("the top-level table"@, text::views(raw.unknown@)) + unknown_notes(
        "[settings]"@,
        text::views(raw.settings.unknown@),
    ) + level_step(raw.settings.log_level).1
}

/// What there is to say of a file that defines nothing.
pub open spec fn empty_notes(raw: RawConfig) -> Seq<NoteView> {
    if raw.profile@.len() == 0 {
        seq![check::error_of(KindView::NoProfiles)]
    } else {
        Seq::empty()
    }
}

/// What validating a file gives: every readable profile, and every problem in order.
pub open spec fn is_validation(
    parsed: Parsed,
    raw: RawConfig,
    home: Option<Seq<char>>,
    vars: Vars,
) -> bool {
    let env = Env { home, vars };
    let (profiles, diags) = table_pass(env, raw.profile@, raw.profile@.len() as int);
    &&& parsed.config.log_level == level_step(raw.settings.log_level).0
    &&& config::profile_views(parsed.config.profiles@) == profiles
    &&& check::diag_views(parsed.diagnostics@) == stamped(None, top_notes(raw)) + diags + stamped(
        None,
        empty_notes(raw),
    )
}

fn note_level(raw: &Option<String>, notes: &mut Vec<Note>) -> (out: LogLevel)
    ensures
        out == level_step(*raw).0,
        check::note_views(final(notes)@) == check::note_views(old(notes)@) + level_step(*raw).1,
{
    let ghost start = check::note_views(notes@);
    let out = match raw {
        None => LogLevel::default(),
        Some(text) => {
            if same(text, "error") {
                LogLevel::Error
            } else if same(text, "warn") {
                LogLevel::Warn
            } else if same(text, "info") {
                LogLevel::Info
            } else if same(text, "debug") {
                LogLevel::Debug
            } else {
                push_error(notes, DiagnosticKind::InvalidLogLevel { value: text.clone() });
                LogLevel::default()
            }
        },
    };
    assert(check::note_views(notes@) =~= start + level_step(*raw).1);
    out
}

fn stamp(profile: &Option<String>, notes: Vec<Note>, out: &mut Vec<Diagnostic>)
    ensures
        check::diag_views(final(out)@) == check::diag_views(old(out)@) + stamped(
            text::view_opt(*profile),
            check::note_views(notes@),
        ),
{
    let ghost start = check::diag_views(out@);
    let ghost all = check::note_views(notes@);
    let ghost whole = stamped(text::view_opt(*profile), all);
    let mut rest = notes;
    let ghost mut done: int = 0;
    proof {
        assert(start + whole.take(0) =~= start);
        assert(rest@.skip(0) =~= rest@);
    }
    let ghost kept = rest@;
    while rest.len() > 0
        invariant
            0 <= done <= kept.len(),
            rest@ == kept.skip(done),
            all == check::note_views(kept),
            whole == stamped(text::view_opt(*profile), all),
            check::diag_views(out@) == start + whole.take(done),
        decreases rest@.len(),
    {
        let note = rest.remove(0);
        let ghost before = check::diag_views(out@);
        assert(note == kept[done]);
        let diagnostic = Diagnostic {
            severity: note.severity,
            profile: profile.clone(),
            kind: note.kind,
        };
        let ghost shown_as = diagnostic@;
        out.push(diagnostic);
        proof {
            assert(text::view_opt(diagnostic.profile) == text::view_opt(*profile));
            assert(check::diag_views(out@) =~= before.push(shown_as));
            assert(whole[done] == shown_as);
            assert(rest@ =~= kept.skip(done + 1));
            assert(check::diag_views(out@) =~= start + whole.take(done + 1));
            done = done + 1;
        }
    }
    assert(whole.take(done) =~= whole);
}

fn knows_profile(profiles: &Vec<Profile>, name: &str) -> (out: bool)
    ensures
        out == has_profile(config::profile_views(profiles@), name@),
{
    let mut i: usize = 0;
    while i < profiles.len()
        invariant
            i <= profiles@.len(),
            forall|j: int| 0 <= j < i ==> (#[trigger] config::profile_views(profiles@)[j]).name != name@,
        decreases profiles@.len() - i,
    {
        assert(config::profile_views(profiles@)[i as int] == profiles@[i as int]@);
        if same(profiles[i].name.as_str(), name) {
            return true;
        }
        i += 1;
    }
    false
}

fn find_owner(profiles: &Vec<Profile>, path: &AbsPath) -> (out: Option<String>)
    ensures
        text::view_opt(out) == store_owner(config::profile_views(profiles@), path@),
{
    let ghost all = config::profile_views(profiles@);
    let mut i: usize = profiles.len();
    assert(all.take(i as int) =~= all);
    while i > 0
        invariant
            i <= profiles@.len(),
            all == config::profile_views(profiles@),
            store_owner(all, path@) == store_owner(all.take(i as int), path@),
        decreases i,
    {
        i -= 1;
        proof {
            assert(all.take(i + 1).drop_last() =~= all.take(i as int));
            assert(all.take(i + 1).last() == profiles@[i as int]@);
        }
        if let Some(store) = &profiles[i].store_path {
            if store.same(path) {
                return Some(profiles[i].name.as_str().to_owned());
            }
        }
    }
    None
}

fn note_duplicates(profiles: &Vec<Profile>, profile: &Profile, notes: &mut Vec<Note>)
    ensures
        check::note_views(final(notes)@) == check::note_views(old(notes)@) + duplicate_notes(
            config::profile_views(profiles@),
            profile@,
        ),
{
    let ghost start = check::note_views(notes@);
    if knows_profile(profiles, profile.name.as_str()) {
        push_error(
            notes,
            DiagnosticKind::DuplicateProfile { name: profile.name.as_str().to_owned() },
        );
    }
    if let Some(store) = &profile.store_path {
        if let Some(first) = find_owner(profiles, store) {
            push_error(
                notes,
                DiagnosticKind::DuplicateStorePath {
                    path: cat4(&store.text(), " (also ", &first, ")"),
                },
            );
        }
    }
    assert(check::note_views(notes@) =~= start + duplicate_notes(config::profile_views(profiles@), profile@));
}

/// Checks a whole file: every readable profile, and every problem in order.
pub fn validate(raw: &RawConfig, home: Option<&str>, vars: &Vars) -> (out: Parsed)
    ensures
        is_validation(out, *raw, crate::primitives::path::view_str_opt(home), *vars),
{
    let ghost env = Env { home: crate::primitives::path::view_str_opt(home), vars: *vars };
    let none: Option<String> = None;
    let mut notes: Vec<Note> = Vec::new();
    let ghost n0 = check::note_views(notes@);
    unknown_keys("the top-level table", &raw.unknown, &mut notes);
    unknown_keys("[settings]", &raw.settings.unknown, &mut notes);
    let log_level = note_level(&raw.settings.log_level, &mut notes);
    assert(check::note_views(notes@) =~= top_notes(*raw));
    let mut diagnostics: Vec<Diagnostic> = Vec::new();
    stamp(&none, notes, &mut diagnostics);
    let ghost top = stamped(None, top_notes(*raw));
    let mut profiles: Vec<Profile> = Vec::new();
    let mut i: usize = 0;
    proof {
        assert(check::diag_views(diagnostics@) =~= top);
        assert(top + table_pass(env, raw.profile@, 0).1 =~= top);
        assert(config::profile_views(profiles@) =~= table_pass(env, raw.profile@, 0).0);
    }
    while i < raw.profile.len()
        invariant
            i <= raw.profile@.len(),
            env == (Env { home: crate::primitives::path::view_str_opt(home), vars: *vars }),
            config::profile_views(profiles@) == table_pass(env, raw.profile@, i as int).0,
            check::diag_views(diagnostics@) == top + table_pass(env, raw.profile@, i as int).1,
        decreases raw.profile@.len() - i,
    {
        let table = &raw.profile[i];
        let ghost before = config::profile_views(profiles@);
        let ghost said = table_pass(env, raw.profile@, i as int).1;
        let ghost step = table_step(env, before, *table);
        let mut notes: Vec<Note> = Vec::new();
        unknown_keys("[[profile]]", &table.unknown, &mut notes);
        let found = validate_profile(table, home, vars, &mut notes);
        match found {
            Some(profile) => {
                note_duplicates(&profiles, &profile, &mut notes);
                profiles.push(profile);
                assert(config::profile_views(profiles@) =~= before.push(profile@));
            },
            None => {},
        }
        proof {
            let keys = unknown_notes("[[profile]]"@, text::views(table.unknown@));
            let (profile, more) = profile_check(env, *table);
            let twice = match profile {
                Some(p) => duplicate_notes(before, p),
                None => Seq::empty(),
            };
            assert(check::note_views(notes@) =~= keys + more + twice);
        }
        stamp(&table.name, notes, &mut diagnostics);
        proof {
            assert(top + said + step.1 =~= top + (said + step.1));
        }
        i += 1;
    }
    let mut last: Vec<Note> = Vec::new();
    if raw.profile.len() == 0 {
        push_error(&mut last, DiagnosticKind::NoProfiles);
    }
    assert(check::note_views(last@) =~= empty_notes(*raw));
    stamp(&none, last, &mut diagnostics);
    Parsed { config: Config { log_level, profiles }, diagnostics }
}

} // verus!
