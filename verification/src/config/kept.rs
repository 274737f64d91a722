//! What a config file says is kept, or it is told what was lost.

use crate::config;
use crate::config::check;
use crate::config::check::{DiagView, KindView, NoteView, Severity};
use crate::config::findings;
use crate::config::raw::{RawConfig, RawProfile, RawRemote, RawWatch};
use crate::config::rules::Path;
use crate::config::validate;
use crate::config::validate::Env;
use crate::config::{LogLevel, Parsed, ProfileView, RemoteView, WatchView};
use crate::octets;
use crate::primitives::encode;
use crate::primitives::path;
use crate::primitives::path::{PathFault, Vars};
use crate::text;
use vstd::prelude::*;
use vstd::utf8::*;

verus! {

// ---------------------------------------------------------------------------
// Names
// ---------------------------------------------------------------------------

/// A lower-case word of letters, digits and hyphens, not beginning with a hyphen, of 64 bytes at
/// most.
pub open spec fn plain_slug(s: Seq<char>) -> bool {
    &&& 0 < s.len()
    &&& encode_utf8(s).len() <= 64
    &&& s[0] != '-'
    &&& forall|i: int|
        0 <= i < s.len() ==> {
            ||| 'a' <= #[trigger] s[i] && s[i] <= 'z'
            ||| '0' <= s[i] && s[i] <= '9'
            ||| s[i] == '-'
        }
}

/// A name is found fault with exactly where it is no such word, and a profile's also where it is
/// the one that is reserved.
pub proof fn only_a_plain_word_is_a_name(s: Seq<char>)
    ensures
        validate::slug_fault(s) is None == plain_slug(s),
        validate::profile_name_fault(s) is None == (plain_slug(s) && s != "catchup"@),
        crate::primitives::names::is_slug(s) == plain_slug(s),
        crate::primitives::names::is_profile_name(s) == (plain_slug(s) && s != "catchup"@),
{
    lemma_first_bad(s);
    let at = validate::first_bad(s);
    if at < s.len() {
        assert(!crate::primitives::names::slug_char(s[at]));
    } else if s.len() > 0 {
        assert(crate::primitives::names::slug_char(s[0]));
        assert forall|i: int| 0 <= i < s.len() implies {
            ||| 'a' <= #[trigger] s[i] && s[i] <= 'z'
            ||| '0' <= s[i] && s[i] <= '9'
            ||| s[i] == '-'
        } by {
            assert(crate::primitives::names::slug_char(s[i]));
        }
    }
}

proof fn lemma_first_bad(s: Seq<char>)
    ensures
        0 <= validate::first_bad(s) <= s.len(),
        validate::first_bad(s) < s.len() ==> !crate::primitives::names::slug_char(
            s[validate::first_bad(s)],
        ),
        forall|i: int|
            0 <= i < validate::first_bad(s) ==> crate::primitives::names::slug_char(
                #[trigger] s[i],
            ),
    decreases s.len(),
{
    if s.len() > 0 && crate::primitives::names::slug_char(s[0]) {
        lemma_first_bad(s.skip(1));
        assert forall|i: int| 0 <= i < validate::first_bad(
            s,
        ) implies crate::primitives::names::slug_char(#[trigger] s[i]) by {
            if i > 0 {
                assert(s.skip(1)[i - 1] == s[i]);
            }
        }
    }
}

/// A root can be stored under a name exactly where it is not empty, does not begin with a dot and
/// does not end with `.lock`; and one that is written out holds no separator of either host.
pub proof fn an_alias_is_one_safe_component(raw: Seq<u8>, name: Seq<char>)
    ensures
        validate::component_fault(raw) is None == (raw.len() > 0 && raw[0] != 46 && !seq![
            46u8,
            108u8,
            111u8,
            99u8,
            107u8,
        ].is_suffix_of(raw)),
        validate::explicit_fault(name) is None == (!name.contains('/') && !name.contains('\\')
            && validate::component_fault(encode_utf8(name)) is None),
{
    let lock = seq![46u8, 108u8, 111u8, 99u8, 107u8];
    assert(encode::lock_suffix() =~= lock);
    if text::has_suffix(raw, lock) {
        assert(lock =~= raw.subrange(raw.len() - 5, raw.len() as int));
    }
    if lock.is_suffix_of(raw) {
        assert(raw.skip(raw.len() - 5) =~= lock);
    }
    reveal_strlit(".tycho");
    is_ascii_chars_encode_utf8(".tycho"@);
    assert(encode_utf8(".tycho"@)[0] == 46);
}

// ---------------------------------------------------------------------------
// Lists
// ---------------------------------------------------------------------------

/// An ignore is a path where it begins as one, and else a glob: each is in one of the two lists, in
/// the order it was written.
pub proof fn an_ignore_is_a_path_or_a_glob(drives: bool, entries: Seq<Seq<char>>)
    ensures
        ({
            let rooted = |e: Seq<char>|
                e.len() > 0 && (e[0] == '~' || e[0] == '$' || e[0] == '/') || drives && (e.len() > 0
                    && e[0] == '\\' || e.len() > 1 && e[1] == ':' && ('a' <= e[0] && e[0] <= 'z'
                    || 'A' <= e[0] && e[0] <= 'Z'));
            &&& validate::path_like(drives, entries) == entries.filter(rooted)
            &&& validate::glob_like(drives, entries) == entries.filter(
                |e: Seq<char>| !rooted(e),
            )
        }),
    decreases entries.len(),
{
    reveal(Seq::filter);
    if entries.len() > 0 {
        an_ignore_is_a_path_or_a_glob(drives, entries.drop_last());
    }
}

/// Each of a list of paths is resolved and kept, or said to be none.
pub proof fn every_path_is_kept_or_told(env: Env, texts: Seq<Seq<char>>, n: int, i: int)
    requires
        0 <= i < n <= texts.len(),
    ensures
        ({
            let (paths, notes) = validate::resolve_all(env, texts, n);
            &&& paths.len() + notes.len() == n
            &&& match path::resolved(texts[i], env.home, env.vars) {
                Ok(p) => paths.contains(p),
                Err(fault) => notes.contains(
                    check::error_of(
                        KindView::BadPath { value: texts[i], reason: fault.message() },
                    ),
                ),
            }
        }),
    decreases n,
{
    let (paths, notes) = validate::resolve_all(env, texts, n - 1);
    let (now, told) = validate::resolve_all(env, texts, n);
    if n > 1 {
        every_path_is_kept_or_told(env, texts, n - 1, if i < n - 1 {
            i
        } else {
            0
        });
    }
    match path::resolved(texts[i], env.home, env.vars) {
        Ok(p) => {
            if i < n - 1 {
                let k = choose|k: int| 0 <= k < paths.len() && paths[k] == p;
                assert(now[k] == p);
            } else {
                assert(now[now.len() - 1] == p);
            }
        },
        Err(fault) => {
            let note = check::error_of(
                KindView::BadPath { value: texts[i], reason: fault.message() },
            );
            if i < n - 1 {
                let k = choose|k: int| 0 <= k < notes.len() && notes[k] == note;
                assert(told[k] == note);
            } else {
                assert(told[told.len() - 1] == note);
            }
        },
    }
}

/// Only what was written is kept.
pub proof fn only_a_written_path_is_kept(env: Env, texts: Seq<Seq<char>>, n: int, k: int)
    requires
        0 <= n <= texts.len(),
        0 <= k < validate::resolve_all(env, texts, n).0.len(),
    ensures
        exists|i: int|
            0 <= i < n && path::resolved(#[trigger] texts[i], env.home, env.vars) == Ok::<
                Path,
                PathFault,
            >(validate::resolve_all(env, texts, n).0[k]),
    decreases n,
{
    if n > 0 {
        let before = validate::resolve_all(env, texts, n - 1).0;
        let now = validate::resolve_all(env, texts, n).0;
        if k < before.len() {
            only_a_written_path_is_kept(env, texts, n - 1, k);
            assert(now[k] == before[k]);
        } else {
            assert(path::resolved(texts[n - 1], env.home, env.vars) == Ok::<Path, PathFault>(
                now[k],
            ));
        }
    }
}

// ---------------------------------------------------------------------------
// Watched roots
// ---------------------------------------------------------------------------

/// The root an entry stands for, where it stands for one: its path, and the explicit name it is
/// stored under where it has one.
pub open spec fn root_of(env: Env, raw: RawWatch) -> Option<WatchView> {
    match (path::resolved(raw.written_path(), env.home, env.vars), raw) {
        (Ok(p), RawWatch::Bare(_)) => Some(WatchView { path: p, name: None }),
        (Ok(p), RawWatch::Named { name, .. }) => if validate::explicit_fault(name@) is None {
            Some(WatchView { path: p, name: Some(encode::percent_encoded(encode_utf8(name@))) })
        } else {
            None
        },
        (Err(_), _) => None,
    }
}

/// The roots are those the entries stand for, in their order, and an entry that stands for none is
/// told of.
pub proof fn every_root_is_kept_or_told(env: Env, raw: Seq<RawWatch>, n: int)
    requires
        0 <= n <= raw.len(),
    ensures
        validate::watch_pass(env, raw, n).0 == kept(
            raw.take(n).map_values(|r: RawWatch| root_of(env, r)),
        ),
        forall|i: int|
            0 <= i < n && root_of(env, #[trigger] raw[i]) is None ==> exists|k: int|
                0 <= k < validate::watch_pass(env, raw, n).1.len() && (
                #[trigger] validate::watch_pass(env, raw, n).1[k]).severity == Severity::Error && (
                validate::watch_pass(env, raw, n).1[k].kind is BadPath || validate::watch_pass(
                    env,
                    raw,
                    n,
                ).1[k].kind is InvalidAlias),
    decreases n,
{
    let roots = raw.take(n).map_values(|r: RawWatch| root_of(env, r));
    if n > 0 {
        every_root_is_kept_or_told(env, raw, n - 1);
        let before = raw.take(n - 1).map_values(|r: RawWatch| root_of(env, r));
        assert(roots.drop_last() =~= before);
        assert(roots.last() == root_of(env, raw[n - 1]));
        let (watch, notes) = validate::watch_pass(env, raw, n - 1);
        let (entry, more) = validate::watch_step(env, watch, raw[n - 1]);
        let all = validate::watch_pass(env, raw, n).1;
        assert(all == notes + more);
        assert forall|i: int| 0 <= i < n && root_of(env, #[trigger] raw[i]) is None implies exists|
            k: int,
        |
            0 <= k < all.len() && (#[trigger] all[k]).severity == Severity::Error && (
            all[k].kind is BadPath || all[k].kind is InvalidAlias) by {
            if i < n - 1 {
                let k = choose|k: int|
                    0 <= k < notes.len() && (#[trigger] notes[k]).severity == Severity::Error && (
                    notes[k].kind is BadPath || notes[k].kind is InvalidAlias);
                assert(all[k] == notes[k]);
            } else {
                assert(more.len() > 0);
                assert(all[all.len() - 1] == more.last());
            }
        }
    }
}

/// What is there of a list, in order.
pub open spec fn kept<T>(list: Seq<Option<T>>) -> Seq<T>
    decreases list.len(),
{
    if list.len() == 0 {
        Seq::empty()
    } else {
        match list.last() {
            Some(x) => kept(list.drop_last()).push(x),
            None => kept(list.drop_last()),
        }
    }
}

/// Two roots that would be stored under one name are told of, by the name and the later root; and
/// what is told of collides.
pub proof fn a_shared_alias_is_told(env: Env, raw: Seq<RawWatch>, n: int, alias: Seq<char>)
    requires
        0 <= n <= raw.len(),
    ensures
        ({
            let (watch, notes) = validate::watch_pass(env, raw, n);
            (exists|i: int, j: int|
                0 <= i < j < watch.len() && (#[trigger] watch[i]).alias() == Some(alias) && (
                #[trigger] watch[j]).alias() == Some(alias)) == (exists|k: int|
                0 <= k < notes.len() && ((#[trigger] notes[k]).kind matches KindView::AliasCollision {
                    alias: a,
                    ..
                } && a == alias))
        }),
    decreases n,
{
    if n > 0 {
        a_shared_alias_is_told(env, raw, n - 1, alias);
        let (watch, notes) = validate::watch_pass(env, raw, n - 1);
        let (entry, more) = validate::watch_step(env, watch, raw[n - 1]);
        let (all, told) = validate::watch_pass(env, raw, n);
        let keys = validate::watch_key_notes(raw[n - 1]);
        assert forall|k: int| 0 <= k < keys.len() implies !((
        #[trigger] keys[k]).kind is AliasCollision) by {}
        if let Some(root) = entry {
            lemma_stored_under(watch, alias);
            let own = validate::alias_notes(watch, root);
            assert(more == keys + own);
            assert(all == watch.push(root));
            let clash = root.alias() == Some(alias) && exists|i: int|
                0 <= i < watch.len() && (#[trigger] watch[i]).alias() == Some(alias);
            if clash {
                let i = choose|i: int|
                    0 <= i < watch.len() && (#[trigger] watch[i]).alias() == Some(alias);
                assert(all[i].alias() == Some(alias) && all[watch.len() as int].alias() == Some(
                    alias,
                ));
                assert(own.len() == 1);
                assert(told[told.len() - 1] == own[0]);
            }
            assert forall|k: int| 0 <= k < more.len() && ((
            #[trigger] more[k]).kind matches KindView::AliasCollision { alias: a, .. } && a
                == alias) implies clash by {
                if k < keys.len() {
                    assert(more[k] == keys[k]);
                } else {
                    assert(more[k] == own[k - keys.len()]);
                }
            }
        } else {
            assert forall|k: int| 0 <= k < more.len() implies !((
            #[trigger] more[k]).kind is AliasCollision) by {
                if k < keys.len() {
                    assert(more[k] == keys[k]);
                }
            }
        }
        if exists|i: int, j: int|
            0 <= i < j < all.len() && (#[trigger] all[i]).alias() == Some(alias) && (
            #[trigger] all[j]).alias() == Some(alias) {
            let (i, j) = choose|i: int, j: int|
                0 <= i < j < all.len() && (#[trigger] all[i]).alias() == Some(alias) && (
                #[trigger] all[j]).alias() == Some(alias);
            assert(watch[i] == all[i]);
            if j < watch.len() {
                assert(watch[j] == all[j]);
                let k = choose|k: int|
                    0 <= k < notes.len() && ((
                    #[trigger] notes[k]).kind matches KindView::AliasCollision { alias: a, .. } && a
                        == alias);
                assert(told[k] == notes[k]);
            }
        }
        if exists|k: int|
            0 <= k < told.len() && ((#[trigger] told[k]).kind matches KindView::AliasCollision {
                alias: a,
                ..
            } && a == alias) {
            let k = choose|k: int|
                0 <= k < told.len() && ((#[trigger] told[k]).kind matches KindView::AliasCollision {
                    alias: a,
                    ..
                } && a == alias);
            if k < notes.len() {
                assert(notes[k] == told[k]);
                let (i, j) = choose|i: int, j: int|
                    0 <= i < j < watch.len() && (#[trigger] watch[i]).alias() == Some(alias) && (
                    #[trigger] watch[j]).alias() == Some(alias);
                assert(all[i] == watch[i] && all[j] == watch[j]);
            } else {
                assert(more[k - notes.len()] == told[k]);
            }
        }
    }
}

proof fn lemma_stored_under(watch: Seq<WatchView>, alias: Seq<char>)
    ensures
        validate::stored_under(watch, alias) is Some == exists|i: int|
            0 <= i < watch.len() && (#[trigger] watch[i]).alias() == Some(alias),
    decreases watch.len(),
{
    if watch.len() > 0 {
        let above = watch.drop_last();
        lemma_stored_under(above, alias);
        if watch.last().alias() == Some(alias) {
            assert(watch[watch.len() - 1].alias() == Some(alias));
        } else {
            if exists|i: int| 0 <= i < watch.len() && (#[trigger] watch[i]).alias() == Some(alias) {
                let i = choose|i: int|
                    0 <= i < watch.len() && (#[trigger] watch[i]).alias() == Some(alias);
                assert(above[i] == watch[i]);
            }
            if exists|i: int| 0 <= i < above.len() && (#[trigger] above[i]).alias() == Some(alias) {
                let i = choose|i: int|
                    0 <= i < above.len() && (#[trigger] above[i]).alias() == Some(alias);
                assert(watch[i] == above[i]);
            }
        }
    }
}

// ---------------------------------------------------------------------------
// Remotes
// ---------------------------------------------------------------------------

/// The remote an entry stands for, where it stands for one. A remote is needed, four runs behind
/// before that is said, and not trusted with another's files, unless the entry says otherwise.
pub open spec fn remote_of(env: Env, raw: RawRemote) -> Option<RemoteView> {
    match (raw.name, raw.path) {
        (Some(name), Some(written)) => match path::resolved(written@, env.home, env.vars) {
            Ok(p) => if plain_slug(name@) {
                Some(
                    RemoteView {
                        name: name@,
                        path: p,
                        optional: raw.optional == Some(true),
                        behind_tolerance: if raw.behind_tolerance is None {
                            4
                        } else {
                            raw.behind_tolerance->0
                        },
                        trust_ownership: raw.trust_ownership == Some(true),
                    },
                )
            } else {
                None
            },
            Err(_) => None,
        },
        _ => None,
    }
}

/// The remotes are those the entries stand for, in their order, and an entry that stands for none
/// is told of.
pub proof fn every_remote_is_kept_or_told(env: Env, raw: Seq<RawRemote>, n: int)
    requires
        0 <= n <= raw.len(),
    ensures
        validate::remote_pass(env, raw, n).0 == kept(
            raw.take(n).map_values(|r: RawRemote| remote_of(env, r)),
        ),
        forall|i: int|
            0 <= i < n && remote_of(env, #[trigger] raw[i]) is None ==> exists|k: int|
                0 <= k < validate::remote_pass(env, raw, n).1.len() && (
                #[trigger] validate::remote_pass(env, raw, n).1[k]).severity == Severity::Error,
    decreases n,
{
    let all = raw.take(n).map_values(|r: RawRemote| remote_of(env, r));
    if n > 0 {
        every_remote_is_kept_or_told(env, raw, n - 1);
        let before = raw.take(n - 1).map_values(|r: RawRemote| remote_of(env, r));
        assert(all.drop_last() =~= before);
        assert(all.last() == remote_of(env, raw[n - 1]));
        if let Some(name) = raw[n - 1].name {
            only_a_plain_word_is_a_name(name@);
        }
        let (remotes, notes) = validate::remote_pass(env, raw, n - 1);
        let (entry, more) = validate::remote_step(env, remotes, raw[n - 1]);
        assert(entry == remote_of(env, raw[n - 1]));
        let told = validate::remote_pass(env, raw, n).1;
        assert(told == notes + more);
        assert forall|i: int| 0 <= i < n && remote_of(
            env,
            #[trigger] raw[i],
        ) is None implies exists|k: int|
            0 <= k < told.len() && (#[trigger] told[k]).severity == Severity::Error by {
            if i < n - 1 {
                let k = choose|k: int|
                    0 <= k < notes.len() && (#[trigger] notes[k]).severity == Severity::Error;
                assert(told[k] == notes[k]);
            } else {
                assert(more.len() > 0);
                assert(told[told.len() - 1] == more.last());
            }
        }
    }
}

/// Two remotes of one name are told of, and what is told of is there twice.
pub proof fn a_shared_remote_name_is_told(env: Env, raw: Seq<RawRemote>, n: int, name: Seq<char>)
    requires
        0 <= n <= raw.len(),
    ensures
        ({
            let (remotes, notes) = validate::remote_pass(env, raw, n);
            (exists|i: int, j: int|
                0 <= i < j < remotes.len() && (#[trigger] remotes[i]).name == name && (
                #[trigger] remotes[j]).name == name) == notes.contains(
                check::error_of(KindView::DuplicateRemote { name }),
            )
        }),
    decreases n,
{
    if n > 0 {
        a_shared_remote_name_is_told(env, raw, n - 1, name);
        let (remotes, notes) = validate::remote_pass(env, raw, n - 1);
        let (entry, more) = validate::remote_step(env, remotes, raw[n - 1]);
        let (all, told) = validate::remote_pass(env, raw, n);
        let x = check::error_of(KindView::DuplicateRemote { name });
        let keys = validate::unknown_notes("a remote entry"@, text::views(raw[n - 1].unknown@));
        findings::lemma_either(notes, more, x);
        assert(!keys.contains(x)) by {
            if keys.contains(x) {
                let k = choose|k: int| 0 <= k < keys.len() && keys[k] == x;
                assert(keys[k].kind is UnknownKey);
            }
        }
        if more.len() > keys.len() {
            findings::lemma_one_more(keys, more.last(), x);
            assert(more =~= keys.push(more.last()));
        } else {
            assert(more == keys);
        }
        if let Some(r) = entry {
            assert(all == remotes.push(r));
            let clash = r.name == name && validate::has_remote(remotes, name);
            assert(more.contains(x) == clash);
            if clash {
                let i = choose|i: int| 0 <= i < remotes.len() && (#[trigger] remotes[i]).name
                    == name;
                assert(all[i].name == name && all[remotes.len() as int].name == name);
            }
        } else {
            assert(!more.contains(x));
        }
        if exists|i: int, j: int|
            0 <= i < j < all.len() && (#[trigger] all[i]).name == name && (#[trigger] all[j]).name
                == name {
            let (i, j) = choose|i: int, j: int|
                0 <= i < j < all.len() && (#[trigger] all[i]).name == name && (
                #[trigger] all[j]).name == name;
            assert(remotes[i] == all[i]);
            if j < remotes.len() {
                assert(remotes[j] == all[j]);
            }
        }
        if notes.contains(x) {
            let (i, j) = choose|i: int, j: int|
                0 <= i < j < remotes.len() && (#[trigger] remotes[i]).name == name && (
                #[trigger] remotes[j]).name == name;
            assert(all[i] == remotes[i] && all[j] == remotes[j]);
        }
    }
}

// ---------------------------------------------------------------------------
// Profiles
// ---------------------------------------------------------------------------

/// A profile holds what its table says: its name, the roots and the remotes its entries stand for,
/// its globs as they were written, and its switches. The default ignores are on and a store goes
/// somewhere unless the table says otherwise.
pub proof fn a_profile_is_as_its_table_says(env: Env, name: Seq<char>, raw: RawProfile)
    ensures
        ({
            let p = validate::profile_of(env, name, raw);
            &&& p.name == name
            &&& p.watch == kept(raw.watch@.map_values(|r: RawWatch| root_of(env, r)))
            &&& p.remotes == kept(raw.remotes@.map_values(|r: RawRemote| remote_of(env, r)))
            &&& p.use_default_ignores == (raw.use_default_ignores != Some(false))
            &&& p.local_only == (raw.local_only == Some(true))
            &&& raw.store_path is None ==> p.store_path is None
            &&& raw.store_path matches Some(written) ==> (path::resolved(
                written@,
                env.home,
                env.vars,
            ) matches Ok(at) ==> p.store_path == Some(at))
            &&& raw.schedule is None ==> p.schedule is None
            &&& raw.schedule matches Some(table) ==> (validate::table_schedule(
                table,
            ) matches Ok(schedule) ==> p.schedule == Some(schedule))
        }),
{
    every_root_is_kept_or_told(env, raw.watch@, raw.watch@.len() as int);
    every_remote_is_kept_or_told(env, raw.remotes@, raw.remotes@.len() as int);
    assert(raw.watch@.take(raw.watch@.len() as int) =~= raw.watch@);
    assert(raw.remotes@.take(raw.remotes@.len() as int) =~= raw.remotes@);
}

/// A profile without a schedule is warned about, and one whose schedule cannot be read is an error:
/// nothing runs unasked, and nothing is silently not run.
pub proof fn a_missing_schedule_is_told(env: Env, name: Seq<char>, raw: RawProfile)
    ensures
        ({
            let notes = validate::notes_of(env, name, raw);
            &&& raw.schedule is None ==> notes.contains(
                NoteView { severity: Severity::Warning, kind: KindView::NoSchedule },
            )
            &&& raw.schedule matches Some(table) ==> (validate::table_schedule(
                table,
            ) matches Err(reason) ==> notes.contains(
                NoteView { severity: Severity::Error, kind: KindView::InvalidSchedule { reason } },
            ))
            &&& raw.store_path matches Some(written) ==> (path::resolved(
                written@,
                env.home,
                env.vars,
            ) matches Err(fault) ==> notes.contains(
                NoteView {
                    severity: Severity::Error,
                    kind: KindView::BadPath { value: written@, reason: fault.message() },
                },
            ))
        }),
{
    let p = validate::profile_of(env, name, raw);
    let ignored = validate::path_like(env.vars.drives, text::views(raw.ignore@));
    let a = validate::roots_of(env, raw).1 + validate::resolve_all(
        env,
        ignored,
        ignored.len() as int,
    ).1 + validate::resolve_all(env, text::views(raw.reinclude@), raw.reinclude@.len() as int).1
        + validate::rule_notes(p.watch, p.ignore_paths, p.reinclude) + validate::remotes_of(
        env,
        raw,
    ).1;
    let s = validate::schedule_step(raw.schedule).1;
    let t = validate::store_step(env, raw.store_path).1;
    let b = validate::inside_notes(p.watch, p.store_path, p.remotes);
    let c = validate::glob_notes(p.ignore_globs, p.use_default_ignores);
    let d = validate::redundant_rows(p.watch, p.ignore_paths, p.watch.len() as int);
    let all = validate::notes_of(env, name, raw);
    assert(all == a + s + t + b + c + d);
    assert forall|x: NoteView| s.contains(x) || t.contains(x) implies #[trigger] all.contains(x) by {
        findings::lemma_either(a, s, x);
        findings::lemma_either(a + s, t, x);
        findings::lemma_either(a + s + t, b, x);
        findings::lemma_either(a + s + t + b, c, x);
        findings::lemma_either(a + s + t + b + c, d, x);
    }
    if s.len() > 0 {
        assert(s.contains(s[0]));
        assert(all.contains(s[0]));
    }
    if t.len() > 0 {
        assert(t.contains(t[0]));
        assert(all.contains(t[0]));
    }
}

/// The profile a table stands for, where its name is one.
pub open spec fn profile_named(env: Env, raw: RawProfile) -> Option<ProfileView> {
    match raw.name {
        Some(name) => if plain_slug(name@) && name@ != "catchup"@ {
            Some(validate::profile_of(env, name@, raw))
        } else {
            None
        },
        None => None,
    }
}

proof fn lemma_tables_kept(env: Env, raw: Seq<RawProfile>, n: int)
    requires
        0 <= n <= raw.len(),
    ensures
        validate::table_pass(env, raw, n).0 == kept(
            raw.take(n).map_values(|r: RawProfile| profile_named(env, r)),
        ),
    decreases n,
{
    let all = raw.take(n).map_values(|r: RawProfile| profile_named(env, r));
    if n > 0 {
        lemma_tables_kept(env, raw, n - 1);
        let before = raw.take(n - 1).map_values(|r: RawProfile| profile_named(env, r));
        assert(all.drop_last() =~= before);
        assert(all.last() == profile_named(env, raw[n - 1]));
        lemma_table_named(env, raw[n - 1]);
    }
}

proof fn lemma_table_named(env: Env, table: RawProfile)
    ensures
        validate::profile_check(env, table).0 == profile_named(env, table),
        profile_named(env, table) is None ==> {
            let notes = validate::profile_check(env, table).1;
            &&& notes.len() == 1
            &&& notes[0].severity == Severity::Error
            &&& notes[0].kind is MissingProfileName || notes[0].kind is InvalidProfileName
        },
{
    if let Some(name) = table.name {
        only_a_plain_word_is_a_name(name@);
    }
}

/// What is said of a table that is no profile's.
proof fn lemma_unnamed_told(env: Env, raw: Seq<RawProfile>, i: int) -> (x: DiagView)
    requires
        0 <= i < raw.len(),
        profile_named(env, raw[i]) is None,
    ensures
        validate::table_pass(env, raw, raw.len() as int).1.contains(x),
        x.severity == Severity::Error,
        x.profile == text::view_opt(raw[i].name),
        x.kind is MissingProfileName || x.kind is InvalidProfileName,
{
    let table = raw[i];
    let notes = validate::profile_check(env, table).1;
    lemma_table_named(env, table);
    let note = notes[0];
    assert(notes.contains(note));
    lemma_note_told(env, validate::table_pass(env, raw, i).0, table, note);
    let x = DiagView {
        severity: note.severity,
        profile: text::view_opt(table.name),
        kind: note.kind,
    };
    lemma_table_told(env, raw, raw.len() as int, i, x);
    x
}

/// Checking a file returns the profile of every table whose name is one, in the file's order, and
/// an error for every other table. Nothing else in a table costs its profile.
pub proof fn every_named_table_is_a_profile(
    parsed: Parsed,
    raw: RawConfig,
    home: Option<Seq<char>>,
    vars: Vars,
    i: int,
)
    requires
        validate::is_validation(parsed, raw, home, vars),
        0 <= i < raw.profile@.len(),
    ensures
        config::profile_views(parsed.config.profiles@) == kept(
            raw.profile@.map_values(|r: RawProfile| profile_named(Env { home, vars }, r)),
        ),
        profile_named(Env { home, vars }, raw.profile@[i]) is None ==> exists|k: int|
            0 <= k < parsed.diagnostics@.len() && (#[trigger] check::diag_views(
                parsed.diagnostics@,
            )[k]).severity == Severity::Error && check::diag_views(parsed.diagnostics@)[k].profile
                == text::view_opt(raw.profile@[i].name),
{
    let env = Env { home, vars };
    let n = raw.profile@.len() as int;
    lemma_tables_kept(env, raw.profile@, n);
    assert(raw.profile@.take(n) =~= raw.profile@);
    let all = check::diag_views(parsed.diagnostics@);
    if profile_named(env, raw.profile@[i]) is None {
        let x = lemma_unnamed_told(env, raw.profile@, i);
        lemma_whole(parsed, raw, env, x);
        let k = choose|k: int| 0 <= k < all.len() && all[k] == x;
        assert(all[k].severity == Severity::Error);
    }
}

/// The level a file asks for is the one whose word it writes; any other word is an error, and the
/// level is then the default, as it is where the file asks for none.
pub proof fn a_level_is_asked_for_by_its_word(
    parsed: Parsed,
    raw: RawConfig,
    home: Option<Seq<char>>,
    vars: Vars,
    level: LogLevel,
)
    requires
        validate::is_validation(parsed, raw, home, vars),
    ensures
        raw.settings.log_level is None ==> parsed.config.log_level == LogLevel::Info,
        raw.settings.log_level matches Some(word) ==> (word@ == level.word()
            ==> parsed.config.log_level == level),
        raw.settings.log_level matches Some(word) ==> ((forall|l: LogLevel|
            word@ != #[trigger] l.word()) ==> parsed.config.log_level == LogLevel::Info
            && check::diag_views(parsed.diagnostics@).contains(
            DiagView {
                severity: Severity::Error,
                profile: None,
                kind: KindView::InvalidLogLevel { value: word@ },
            },
        )),
        check::diag_views(parsed.diagnostics@).contains(
            DiagView { severity: Severity::Error, profile: None, kind: KindView::NoProfiles },
        ) || raw.profile@.len() > 0,
{
    let env = Env { home, vars };
    let n = raw.profile@.len() as int;
    let diags = validate::table_pass(env, raw.profile@, n).1;
    let top = validate::stamped(None, validate::top_notes(raw));
    let last = validate::stamped(None, validate::empty_notes(raw));
    if let Some(word) = raw.settings.log_level {
        if word@ == level.word() {
            let found = validate::level_of(word@)->0;
            assert(validate::level_of(word@) is Some && found.word() == word@);
            config::log_levels_have_distinct_words(level, found);
        }
        if forall|l: LogLevel| word@ != #[trigger] l.word() {
            assert(word@ != LogLevel::Error.word());
            assert(word@ != LogLevel::Warn.word());
            assert(word@ != LogLevel::Info.word());
            assert(word@ != LogLevel::Debug.word());
            let x = DiagView {
                severity: Severity::Error,
                profile: None,
                kind: KindView::InvalidLogLevel { value: word@ },
            };
            let note = check::error_of(KindView::InvalidLogLevel { value: word@ });
            let a = validate::unknown_notes("the top-level table"@, text::views(raw.unknown@));
            let b = validate::unknown_notes("[settings]"@, text::views(raw.settings.unknown@));
            let c = validate::level_step(raw.settings.log_level).1;
            assert(c[0] == note);
            assert(c.contains(note));
            findings::lemma_either(a + b, c, note);
            findings::lemma_stamped(None, validate::top_notes(raw), x);
            findings::lemma_diag_either(top, diags, x);
            findings::lemma_diag_either(top + diags, last, x);
        }
    }
    if n == 0 {
        let x = DiagView { severity: Severity::Error, profile: None, kind: KindView::NoProfiles };
        let note = check::error_of(KindView::NoProfiles);
        assert(validate::empty_notes(raw)[0] == note);
        assert(validate::empty_notes(raw).contains(note));
        findings::lemma_stamped(None, validate::empty_notes(raw), x);
        findings::lemma_diag_either(top + diags, last, x);
    }
}

// ---------------------------------------------------------------------------
// What two profiles share
// ---------------------------------------------------------------------------

/// Whether two of some profiles share a name.
pub open spec fn named_twice(profiles: Seq<ProfileView>, name: Seq<char>) -> bool {
    exists|i: int, j: int|
        0 <= i < j < profiles.len() && (#[trigger] profiles[i]).name == name && (
        #[trigger] profiles[j]).name == name
}

/// Whether two of some profiles would share a store.
pub open spec fn stored_twice(profiles: Seq<ProfileView>, at: Path) -> bool {
    exists|i: int, j: int|
        0 <= i < j < profiles.len() && (#[trigger] profiles[i]).store_path == Some(at) && (
        #[trigger] profiles[j]).store_path == Some(at)
}

proof fn lemma_store_owner(profiles: Seq<ProfileView>, at: Path)
    ensures
        validate::store_owner(profiles, at) is Some == exists|i: int|
            0 <= i < profiles.len() && (#[trigger] profiles[i]).store_path == Some(at),
    decreases profiles.len(),
{
    if profiles.len() > 0 {
        let above = profiles.drop_last();
        lemma_store_owner(above, at);
        if profiles.last().store_path == Some(at) {
            assert(profiles[profiles.len() - 1].store_path == Some(at));
        } else {
            if exists|i: int|
                0 <= i < profiles.len() && (#[trigger] profiles[i]).store_path == Some(at) {
                let i = choose|i: int|
                    0 <= i < profiles.len() && (#[trigger] profiles[i]).store_path == Some(at);
                assert(above[i] == profiles[i]);
            }
            if exists|i: int|
                0 <= i < above.len() && (#[trigger] above[i]).store_path == Some(at) {
                let i = choose|i: int|
                    0 <= i < above.len() && (#[trigger] above[i]).store_path == Some(at);
                assert(profiles[i] == above[i]);
            }
        }
    }
}

/// Two profiles of one name are told of.
pub proof fn a_shared_name_is_told(
    parsed: Parsed,
    raw: RawConfig,
    home: Option<Seq<char>>,
    vars: Vars,
    name: Seq<char>,
)
    requires
        validate::is_validation(parsed, raw, home, vars),
        named_twice(config::profile_views(parsed.config.profiles@), name),
    ensures
        check::diag_views(parsed.diagnostics@).contains(
            DiagView {
                severity: Severity::Error,
                profile: Some(name),
                kind: KindView::DuplicateProfile { name },
            },
        ),
{
    let env = Env { home, vars };
    let n = raw.profile@.len() as int;
    let x = DiagView {
        severity: Severity::Error,
        profile: Some(name),
        kind: KindView::DuplicateProfile { name },
    };
    lemma_names_told(env, raw.profile@, n, name);
    lemma_whole(parsed, raw, env, x);
}

/// Two profiles that would keep their stores at one path are told of.
pub proof fn a_shared_store_is_told(
    parsed: Parsed,
    raw: RawConfig,
    home: Option<Seq<char>>,
    vars: Vars,
    at: Path,
)
    requires
        validate::is_validation(parsed, raw, home, vars),
        stored_twice(config::profile_views(parsed.config.profiles@), at),
    ensures
        exists|k: int|
            0 <= k < parsed.diagnostics@.len() && (#[trigger] check::diag_views(
                parsed.diagnostics@,
            )[k]).severity == Severity::Error && (check::diag_views(
                parsed.diagnostics@,
            )[k].kind matches KindView::DuplicateStorePath { path } && validate::shown(
                at,
            ).is_prefix_of(path)),
{
    let env = Env { home, vars };
    let n = raw.profile@.len() as int;
    lemma_stores_told(env, raw.profile@, n, at);
    let diags = validate::table_pass(env, raw.profile@, n).1;
    let k = choose|k: int| 0 <= k < diags.len() && tells_of_store(#[trigger] diags[k], at);
    let top = validate::stamped(None, validate::top_notes(raw));
    let all = check::diag_views(parsed.diagnostics@);
    assert(all[top.len() + k] == diags[k]);
}

spec fn tells_of_store(x: DiagView, at: Path) -> bool {
    x.severity == Severity::Error && (x.kind matches KindView::DuplicateStorePath { path }
        && validate::shown(at).is_prefix_of(path))
}

proof fn lemma_whole(parsed: Parsed, raw: RawConfig, env: Env, x: DiagView)
    requires
        validate::is_validation(parsed, raw, env.home, env.vars),
        validate::table_pass(env, raw.profile@, raw.profile@.len() as int).1.contains(x),
    ensures
        check::diag_views(parsed.diagnostics@).contains(x),
{
    let diags = validate::table_pass(env, raw.profile@, raw.profile@.len() as int).1;
    let top = validate::stamped(None, validate::top_notes(raw));
    let last = validate::stamped(None, validate::empty_notes(raw));
    assert(env == Env { home: env.home, vars: env.vars });
    findings::lemma_diag_either(top, diags, x);
    findings::lemma_diag_either(top + diags, last, x);
}

proof fn lemma_names_told(env: Env, raw: Seq<RawProfile>, n: int, name: Seq<char>)
    requires
        0 <= n <= raw.len(),
        named_twice(validate::table_pass(env, raw, n).0, name),
    ensures
        validate::table_pass(env, raw, n).1.contains(
            DiagView {
                severity: Severity::Error,
                profile: Some(name),
                kind: KindView::DuplicateProfile { name },
            },
        ),
    decreases n,
{
    let x = DiagView {
        severity: Severity::Error,
        profile: Some(name),
        kind: KindView::DuplicateProfile { name },
    };
    let (profiles, diags) = validate::table_pass(env, raw, n - 1);
    let table = raw[n - 1];
    let (profile, more) = validate::table_step(env, profiles, table);
    let all = validate::table_pass(env, raw, n).0;
    findings::lemma_diag_either(diags, more, x);
    if named_twice(profiles, name) {
        lemma_names_told(env, raw, n - 1, name);
    } else {
        let (i, j) = choose|i: int, j: int|
            0 <= i < j < all.len() && (#[trigger] all[i]).name == name && (#[trigger] all[j]).name
                == name;
        let p = profile->0;
        assert(all == profiles.push(p));
        assert(profiles[i] == all[i]);
        if j < profiles.len() {
            assert(profiles[j] == all[j]);
        }
        assert(validate::has_profile(profiles, name));
        let keys = validate::unknown_notes("[[profile]]"@, text::views(table.unknown@));
        let notes = validate::profile_check(env, table).1;
        let twice = validate::duplicate_notes(profiles, p);
        let note = check::error_of(KindView::DuplicateProfile { name });
        assert(twice[0] == note);
        assert(twice.contains(note));
        findings::lemma_either(keys + notes, twice, note);
        findings::lemma_stamped(text::view_opt(table.name), keys + notes + twice, x);
    }
}

proof fn lemma_stores_told(env: Env, raw: Seq<RawProfile>, n: int, at: Path)
    requires
        0 <= n <= raw.len(),
        stored_twice(validate::table_pass(env, raw, n).0, at),
    ensures
        exists|k: int|
            0 <= k < validate::table_pass(env, raw, n).1.len() && tells_of_store(
                #[trigger] validate::table_pass(env, raw, n).1[k],
                at,
            ),
    decreases n,
{
    let (profiles, diags) = validate::table_pass(env, raw, n - 1);
    let table = raw[n - 1];
    let (profile, more) = validate::table_step(env, profiles, table);
    let (all, told) = validate::table_pass(env, raw, n);
    assert(told == diags + more);
    if stored_twice(profiles, at) {
        lemma_stores_told(env, raw, n - 1, at);
        let k = choose|k: int| 0 <= k < diags.len() && tells_of_store(#[trigger] diags[k], at);
        assert(told[k] == diags[k]);
    } else {
        let (i, j) = choose|i: int, j: int|
            0 <= i < j < all.len() && (#[trigger] all[i]).store_path == Some(at) && (
            #[trigger] all[j]).store_path == Some(at);
        let p = profile->0;
        assert(all == profiles.push(p));
        assert(profiles[i] == all[i]);
        if j < profiles.len() {
            assert(profiles[j] == all[j]);
        }
        lemma_store_owner(profiles, at);
        let keys = validate::unknown_notes("[[profile]]"@, text::views(table.unknown@));
        let notes = validate::profile_check(env, table).1;
        let twice = validate::duplicate_notes(profiles, p);
        let first = validate::store_owner(profiles, at)->0;
        let shown = validate::shown(at) + " (also "@ + first + ")"@;
        let note = check::error_of(KindView::DuplicateStorePath { path: shown });
        assert(twice.last() == note);
        let whole = keys + notes + twice;
        assert(whole.last() == note);
        assert(validate::shown(at) =~= shown.subrange(0, validate::shown(at).len() as int));
        assert(more.last() == (DiagView {
            severity: Severity::Error,
            profile: text::view_opt(table.name),
            kind: note.kind,
        }));
        assert(told[told.len() - 1] == more.last());
        assert(tells_of_store(told[told.len() - 1], at));
    }
}

// ---------------------------------------------------------------------------
// What a root is stored under
// ---------------------------------------------------------------------------

/// A root is stored under the name it was given, and else under its own, encoded; it has none only
/// where its own can be none.
pub proof fn a_root_is_stored_under_its_name(root: WatchView)
    ensures
        root.name matches Some(name) ==> root.alias() == Some(name),
        root.name is None ==> (root.alias() is Some <==> root.path.len() > 0 && !path::is_drive(
            root.path.last(),
        ) && root.path.last().len() > 0 && root.path.last()[0] != 46 && !seq![
            46u8,
            108u8,
            111u8,
            99u8,
            107u8,
        ].is_suffix_of(root.path.last())),
        root.name is None ==> (root.alias() matches Some(alias) ==> encode::percent_decoded(
            encode_utf8(alias),
        ) == Some(root.path.last())),
{
    if root.name is None && root.path.len() > 0 {
        let last = root.path.last();
        an_alias_is_one_safe_component(last, Seq::empty());
        encode::percent_round_trips(last);
        reveal_strlit(".tycho");
        is_ascii_chars_encode_utf8(".tycho"@);
        assert(encode_utf8(".tycho"@)[0] == 46);
    }
}

// ---------------------------------------------------------------------------
// Nothing written is passed over
// ---------------------------------------------------------------------------

proof fn lemma_table_told(env: Env, raw: Seq<RawProfile>, n: int, i: int, x: DiagView)
    requires
        0 <= i < n <= raw.len(),
        validate::table_step(env, validate::table_pass(env, raw, i).0, raw[i]).1.contains(x),
    ensures
        validate::table_pass(env, raw, n).1.contains(x),
    decreases n,
{
    let (profiles, diags) = validate::table_pass(env, raw, n - 1);
    let more = validate::table_step(env, profiles, raw[n - 1]).1;
    findings::lemma_diag_either(diags, more, x);
    if i < n - 1 {
        lemma_table_told(env, raw, n - 1, i, x);
    }
}

/// What is said of a table, as a file's findings hold it.
proof fn lemma_note_told(env: Env, profiles: Seq<ProfileView>, table: RawProfile, note: NoteView)
    requires
        ({
            let keys = validate::unknown_notes("[[profile]]"@, text::views(table.unknown@));
            keys.contains(note) || validate::profile_check(env, table).1.contains(note)
        }),
    ensures
        validate::table_step(env, profiles, table).1.contains(
            DiagView {
                severity: note.severity,
                profile: text::view_opt(table.name),
                kind: note.kind,
            },
        ),
{
    let keys = validate::unknown_notes("[[profile]]"@, text::views(table.unknown@));
    let (profile, notes) = validate::profile_check(env, table);
    let more = match profile {
        Some(p) => validate::duplicate_notes(profiles, p),
        None => Seq::empty(),
    };
    findings::lemma_either(keys, notes, note);
    findings::lemma_either(keys + notes, more, note);
    findings::lemma_stamped(
        text::view_opt(table.name),
        keys + notes + more,
        DiagView {
            severity: note.severity,
            profile: text::view_opt(table.name),
            kind: note.kind,
        },
    );
}

/// The finding of a key that means nothing.
pub open spec fn unknown_key(profile: Option<Seq<char>>, table: Seq<char>, key: Seq<char>) -> DiagView {
    DiagView {
        severity: Severity::Error,
        profile,
        kind: KindView::UnknownKey { table, key },
    }
}

proof fn lemma_unknown(table: Seq<char>, keys: Seq<String>, i: int)
    requires
        0 <= i < keys.len(),
    ensures
        validate::unknown_notes(table, text::views(keys)).contains(
            check::error_of(KindView::UnknownKey { table, key: keys[i]@ }),
        ),
{
    let notes = validate::unknown_notes(table, text::views(keys));
    assert(notes[i] == check::error_of(KindView::UnknownKey { table, key: keys[i]@ }));
}

/// A key that means nothing is an error wherever it stands in a file's tables, and the one it stands
/// in is named: it is never silently ignored.
pub proof fn an_unknown_key_is_told(
    parsed: Parsed,
    raw: RawConfig,
    home: Option<Seq<char>>,
    vars: Vars,
    i: int,
    k: int,
)
    requires
        validate::is_validation(parsed, raw, home, vars),
    ensures
        0 <= k < raw.unknown@.len() ==> check::diag_views(parsed.diagnostics@).contains(
            unknown_key(None, "the top-level table"@, raw.unknown@[k]@),
        ),
        0 <= k < raw.settings.unknown@.len() ==> check::diag_views(parsed.diagnostics@).contains(
            unknown_key(None, "[settings]"@, raw.settings.unknown@[k]@),
        ),
        0 <= i < raw.profile@.len() && 0 <= k < raw.profile@[i].unknown@.len()
            ==> check::diag_views(parsed.diagnostics@).contains(
            unknown_key(
                text::view_opt(raw.profile@[i].name),
                "[[profile]]"@,
                raw.profile@[i].unknown@[k]@,
            ),
        ),
{
    let env = Env { home, vars };
    let n = raw.profile@.len() as int;
    let diags = validate::table_pass(env, raw.profile@, n).1;
    let top = validate::stamped(None, validate::top_notes(raw));
    let last = validate::stamped(None, validate::empty_notes(raw));
    let a = validate::unknown_notes("the top-level table"@, text::views(raw.unknown@));
    let b = validate::unknown_notes("[settings]"@, text::views(raw.settings.unknown@));
    let c = validate::level_step(raw.settings.log_level).1;
    if 0 <= k < raw.unknown@.len() {
        let x = unknown_key(None, "the top-level table"@, raw.unknown@[k]@);
        let note = NoteView { severity: x.severity, kind: x.kind };
        lemma_unknown("the top-level table"@, raw.unknown@, k);
        findings::lemma_either(a, b, note);
        findings::lemma_either(a + b, c, note);
        findings::lemma_stamped(None, validate::top_notes(raw), x);
        findings::lemma_diag_either(top, diags, x);
        findings::lemma_diag_either(top + diags, last, x);
    }
    if 0 <= k < raw.settings.unknown@.len() {
        let x = unknown_key(None, "[settings]"@, raw.settings.unknown@[k]@);
        let note = NoteView { severity: x.severity, kind: x.kind };
        lemma_unknown("[settings]"@, raw.settings.unknown@, k);
        findings::lemma_either(a, b, note);
        findings::lemma_either(a + b, c, note);
        findings::lemma_stamped(None, validate::top_notes(raw), x);
        findings::lemma_diag_either(top, diags, x);
        findings::lemma_diag_either(top + diags, last, x);
    }
    if 0 <= i < n && 0 <= k < raw.profile@[i].unknown@.len() {
        let table = raw.profile@[i];
        let x = unknown_key(text::view_opt(table.name), "[[profile]]"@, table.unknown@[k]@);
        let note = NoteView { severity: x.severity, kind: x.kind };
        lemma_unknown("[[profile]]"@, table.unknown@, k);
        lemma_note_told(env, validate::table_pass(env, raw.profile@, i).0, table, note);
        lemma_table_told(env, raw.profile@, n, i, x);
        lemma_whole(parsed, raw, env, x);
    }
}

proof fn lemma_watch_keys_told(env: Env, raw: Seq<RawWatch>, n: int, i: int, note: NoteView)
    requires
        0 <= i < n <= raw.len(),
        validate::watch_key_notes(raw[i]).contains(note),
    ensures
        validate::watch_pass(env, raw, n).1.contains(note),
    decreases n,
{
    let (watch, notes) = validate::watch_pass(env, raw, n - 1);
    let (entry, more) = validate::watch_step(env, watch, raw[n - 1]);
    findings::lemma_either(notes, more, note);
    if i < n - 1 {
        lemma_watch_keys_told(env, raw, n - 1, i, note);
    } else {
        let keys = validate::watch_key_notes(raw[i]);
        let k = choose|k: int| 0 <= k < keys.len() && keys[k] == note;
        assert(more[k] == note);
    }
}

proof fn lemma_remote_keys_told(env: Env, raw: Seq<RawRemote>, n: int, i: int, note: NoteView)
    requires
        0 <= i < n <= raw.len(),
        validate::unknown_notes("a remote entry"@, text::views(raw[i].unknown@)).contains(note),
    ensures
        validate::remote_pass(env, raw, n).1.contains(note),
    decreases n,
{
    let (remotes, notes) = validate::remote_pass(env, raw, n - 1);
    let (entry, more) = validate::remote_step(env, remotes, raw[n - 1]);
    findings::lemma_either(notes, more, note);
    if i < n - 1 {
        lemma_remote_keys_told(env, raw, n - 1, i, note);
    } else {
        let keys = validate::unknown_notes("a remote entry"@, text::views(raw[i].unknown@));
        let k = choose|k: int| 0 <= k < keys.len() && keys[k] == note;
        assert(more[k] == note);
    }
}

/// A key that means nothing is an error in an entry of `watch` and in one of `remotes` too, and so
/// is a pattern that cannot be read.
pub proof fn an_entrys_unknown_key_is_told(
    env: Env,
    name: Seq<char>,
    raw: RawProfile,
    i: int,
    k: int,
)
    ensures
        0 <= i < raw.watch@.len() ==> (raw.watch@[i] matches RawWatch::Named { unknown, .. } ==> (0
            <= k < unknown@.len() ==> validate::notes_of(env, name, raw).contains(
            check::error_of(
                KindView::UnknownKey { table: "a watch entry"@, key: unknown@[k]@ },
            ),
        ))),
        0 <= i < raw.remotes@.len() && 0 <= k < raw.remotes@[i].unknown@.len()
            ==> validate::notes_of(env, name, raw).contains(
            check::error_of(
                KindView::UnknownKey {
                    table: "a remote entry"@,
                    key: raw.remotes@[i].unknown@[k]@,
                },
            ),
        ),
        crate::config::rules::build_fault(
            validate::profile_of(env, name, raw).ignore_globs,
            config::profile_junk(raw.use_default_ignores != Some(false)),
        ) is Some ==> exists|j: int|
            0 <= j < validate::notes_of(env, name, raw).len() && (#[trigger] validate::notes_of(
                env,
                name,
                raw,
            )[j]).severity == Severity::Error && validate::notes_of(
                env,
                name,
                raw,
            )[j].kind is InvalidGlob,
{
    let p = validate::profile_of(env, name, raw);
    let ignored = validate::path_like(env.vars.drives, text::views(raw.ignore@));
    let a = validate::roots_of(env, raw).1;
    let b = validate::resolve_all(env, ignored, ignored.len() as int).1;
    let c = validate::resolve_all(env, text::views(raw.reinclude@), raw.reinclude@.len() as int).1;
    let d = validate::rule_notes(p.watch, p.ignore_paths, p.reinclude);
    let e = validate::remotes_of(env, raw).1;
    let f = validate::schedule_step(raw.schedule).1;
    let g = validate::store_step(env, raw.store_path).1;
    let h = validate::inside_notes(p.watch, p.store_path, p.remotes);
    let j = validate::glob_notes(p.ignore_globs, p.use_default_ignores);
    let l = validate::redundant_rows(p.watch, p.ignore_paths, p.watch.len() as int);
    let all = validate::notes_of(env, name, raw);
    assert(all == a + b + c + d + e + f + g + h + j + l);
    assert forall|x: NoteView|
        a.contains(x) || e.contains(x) || j.contains(x) implies #[trigger] all.contains(x) by {
        findings::lemma_either(a, b, x);
        findings::lemma_either(a + b, c, x);
        findings::lemma_either(a + b + c, d, x);
        findings::lemma_either(a + b + c + d, e, x);
        findings::lemma_either(a + b + c + d + e, f, x);
        findings::lemma_either(a + b + c + d + e + f, g, x);
        findings::lemma_either(a + b + c + d + e + f + g, h, x);
        findings::lemma_either(a + b + c + d + e + f + g + h, j, x);
        findings::lemma_either(a + b + c + d + e + f + g + h + j, l, x);
    }
    if 0 <= i < raw.watch@.len() {
        if let RawWatch::Named { unknown, .. } = raw.watch@[i] {
            if 0 <= k < unknown@.len() {
                let note = check::error_of(
                    KindView::UnknownKey { table: "a watch entry"@, key: unknown@[k]@ },
                );
                lemma_unknown("a watch entry"@, unknown@, k);
                let n = raw.watch@.len() as int;
                lemma_watch_keys_told(env, raw.watch@, n, i, note);
                let (watch, notes) = validate::watch_pass(env, raw.watch@, n);
                let none = if watch.len() == 0 {
                    seq![check::error_of(KindView::EmptyWatch)]
                } else {
                    Seq::empty()
                };
                findings::lemma_either(notes, none, note);
                findings::lemma_either(
                    notes + none,
                    validate::nested_rows(watch, watch.len() as int),
                    note,
                );
                assert(a.contains(note));
                assert(all.contains(note));
            }
        }
    }
    if 0 <= i < raw.remotes@.len() && 0 <= k < raw.remotes@[i].unknown@.len() {
        let note = check::error_of(
            KindView::UnknownKey { table: "a remote entry"@, key: raw.remotes@[i].unknown@[k]@ },
        );
        lemma_unknown("a remote entry"@, raw.remotes@[i].unknown@, k);
        let n = raw.remotes@.len() as int;
        lemma_remote_keys_told(env, raw.remotes@, n, i, note);
        let (remotes, notes) = validate::remote_pass(env, raw.remotes@, n);
        let none = if remotes.len() == 0 && !validate::or_else(raw.local_only, false) {
            seq![check::error_of(KindView::NoRemotes)]
        } else {
            Seq::empty()
        };
        findings::lemma_either(notes, none, note);
        assert(e.contains(note));
        assert(all.contains(note));
    }
    if j.len() > 0 {
        let note = j[0];
        assert(j.contains(note));
        assert(all.contains(note));
        let at = choose|at: int| 0 <= at < all.len() && all[at] == note;
        assert(all[at].severity == Severity::Error && all[at].kind is InvalidGlob);
    }
}

} // verus!
