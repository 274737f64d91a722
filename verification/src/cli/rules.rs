//! `tycho watch`, `tycho ignore` and `tycho reinclude`: the same three verbs over
//! three lists, so one implementation serves all of them. Also `tycho rules explain`, and where
//! a rule inside a tree belongs.

use crate::cli::report::{at_file, at_file_line, Diagnostic, DiagnosticView, LocationView};
use crate::cli::remote;
use crate::cli::run;
use crate::cli::run::ReadFault;
use crate::cli::RuleAction;
use crate::config;
use crate::config::local::{LocalRuleError, LocalRules};
use crate::config::rules;
use crate::config::rules::{
    Decision, Origin, Path, RuleTree, Source, SourceView, Tier, TreeModel, Verdict,
};
use crate::config::{Profile, WatchEntry};
use crate::config_edit;
use crate::config_edit::document;
use crate::config_edit::document::{Node, Table};
use crate::config_edit::{EditFault, Editing, List};
use crate::lines;
use crate::octets;
use crate::plan;
use crate::primitives::path;
use crate::primitives::path::{
    drive_bytes, forward_bytes, AbsPath, Vars, BACKSLASH, SLASH,
};
use crate::text;
use crate::text::{cat2, cat3, cat4, cat5, cat7, decimal, join_text, left, same};
use vstd::prelude::*;
use vstd::utf8::*;

verus! {

// ---------------------------------------------------------------------------
// Opening the file
// ---------------------------------------------------------------------------

/// Opens the config file a rule command edits, given what reading it came to.
///
/// A missing file is the first thing anyone hits after installing, so it is answered with the
/// command that creates one.
///
/// # Errors
///
/// If it is not there, could not be read, or is not TOML.
pub fn open(shown: &str, read: Result<String, ReadFault>) -> (out: Result<Editing, Diagnostic>)
    ensures
        ({
            let at = LocationView::File { path: shown@, line: None };
            match read {
                Err(fault) => out matches Err(d) && d@ == if fault.missing {
                    run::no_file(shown@)
                } else {
                    DiagnosticView::error("reading "@ + shown@ + ": "@ + fault.message@).at(at)
                },
                Ok(text) => match document::document_read(text@) {
                    Ok(document) => out matches Ok(editing) && editing.document() == document
                        && editing.file() == shown@,
                    Err(source) => out matches Err(d) && d@ == DiagnosticView::error(
                        (EditFault::Malformed { path: shown@, source }).message(),
                    ).at(at),
                },
            }
        }),
{
    let opened = match read {
        Ok(text) => Editing::open(shown, Ok(text)),
        Err(fault) => {
            if fault.missing {
                return Err(run::missing(shown));
            }
            Editing::open(shown, Err(fault.message))
        },
    };
    match opened {
        Ok(editing) => Ok(editing),
        Err(error) => Err(Diagnostic::error(&error.text()).location(at_file(shown))),
    }
}

/// Resolves which profile a rule command means.
///
/// # Errors
///
/// If it means none.
pub fn chosen(editing: &Editing, wanted: Option<&str>) -> (out: Result<usize, Diagnostic>)
    ensures
        match config_edit::which_of(
            config_edit::profile_names(editing.root()),
            path::view_str_opt(wanted),
        ) {
            Ok(index) => out matches Ok(i) && i == index,
            Err(fault) => out matches Err(d) && d@ == DiagnosticView::error(
                fault.message(),
            ).recovery_with("tycho profile list"@, "names every profile this config defines"@),
        },
{
    match editing.which(wanted) {
        Ok(index) => Ok(index),
        Err(error) => Err(
            Diagnostic::error(&error.text()).recovery_with(
                "tycho profile list",
                "names every profile this config defines",
            ),
        ),
    }
}

// ---------------------------------------------------------------------------
// The three lists
// ---------------------------------------------------------------------------

/// What a rule command came to before the file is written.
#[derive(Debug, PartialEq, Eq)]
pub enum Ruled {
    /// There is only something to print.
    Printed(String),
    /// The file is to be written, and this is what was done.
    Changed(&'static str),
    /// The config is left alone: the rule belongs in a file inside the tree.
    Local,
}

pub open spec fn listed(entries: Seq<Seq<char>>, n: int) -> Seq<char>
    decreases n,
{
    if n <= 0 {
        Seq::empty()
    } else {
        listed(entries, n - 1) + entries[n - 1] + "\n"@
    }
}

fn list_text(entries: &[String]) -> (out: String)
    ensures
        out@ == listed(text::views(entries@), entries@.len() as int),
{
    let ghost all = text::views(entries@);
    let mut out = String::new();
    assert(out@ =~= Seq::empty());
    let mut i: usize = 0;
    while i < entries.len()
        invariant
            i <= entries@.len(),
            all == text::views(entries@),
            out@ == listed(all, i as int),
        decreases entries@.len() - i,
    {
        assert(all[i as int] == entries@[i as int]@);
        out = cat3(&out, &entries[i], "\n");
        i += 1;
    }
    out
}

/// The file with a list of a profile replaced.
pub open spec fn with_items(root: Table, profile: int, key: Seq<char>, items: Seq<Node>) -> Table {
    document::with_node(
        config_edit::with_list(root, profile, key),
        profile,
        key,
        Node::List(items),
    )
}

/// Runs one of the three verbs on one of the three lists.
///
/// A value is stored as written, not expanded: `~` and `$HOME` in the file are what
/// makes it portable between machines, and resolving them on the way in
/// would bake this machine's home directory into it.
///
/// # Errors
///
/// If the list cannot be edited, or does not hold what is to go.
pub fn dispatch(editing: &mut Editing, profile: usize, list: List, action: &RuleAction) -> (out:
    Result<Ruled, Diagnostic>)
    ensures
        final(editing).file() == old(editing).file(),
        ({
            let root = old(editing).root();
            let at = profile as int;
            let key = list.name();
            let items = config_edit::list_edited(root, at, key);
            match *action {
                RuleAction::Add { local: true, .. } | RuleAction::Rm { local: true, .. } => {
                    &&& final(editing).root() == root
                    &&& if list == List::Watch {
                        out matches Err(d) && d@ == no_local_watch()
                    } else {
                        out == Ok::<Ruled, Diagnostic>(Ruled::Local)
                    }
                },
                RuleAction::List => {
                    let entries = config_edit::entries_in(root, at, key);
                    final(editing).root() == root && (out matches Ok(Ruled::Printed(s)) && s@
                        == listed(entries, entries.len() as int))
                },
                RuleAction::Add { value, .. } => match config_edit::list_fault(root, at, key) {
                    Some(fault) => out matches Err(d) && d@ == DiagnosticView::error(
                        fault.message(),
                    ),
                    None => if items.contains(Node::Text(value@)) {
                        out matches Ok(Ruled::Printed(s)) && s@ == "already there  "@ + value@
                            + "\n"@
                    } else {
                        final(editing).root() == with_items(
                            root,
                            at,
                            key,
                            items.push(Node::Text(value@)),
                        ) && (out matches Ok(Ruled::Changed(verb)) && verb@ == "added"@)
                    },
                },
                RuleAction::Rm { value, .. } => match config_edit::list_fault(root, at, key) {
                    Some(fault) => out matches Err(d) && d@ == DiagnosticView::error(
                        fault.message(),
                    ),
                    None => {
                        let found = text::position(items, Node::Text(value@));
                        if found < items.len() {
                            final(editing).root() == with_items(root, at, key, items.remove(found))
                                && (out matches Ok(Ruled::Changed(verb)) && verb@ == "removed"@)
                        } else {
                            out matches Err(d) && d@ == DiagnosticView::error(
                                "'"@ + value@ + "' is not in "@ + key,
                            )
                        }
                    },
                },
            }
        }),
        ({
            let document = old(editing).document();
            let at = profile as int;
            let made = config_edit::opened(document, at, list.name());
            let items = config_edit::list_edited(old(editing).root(), at, list.name());
            let changed = out matches Ok(Ruled::Changed(_));
            final(editing).document() == match *action {
                RuleAction::List => document,
                RuleAction::Add { value, local } => if local {
                    document
                } else if changed {
                    config_edit::line_added(made, at, list.name(), value@)
                } else {
                    made
                },
                RuleAction::Rm { value, local } => if local {
                    document
                } else if changed {
                    document::item_removed(
                        made,
                        at,
                        list.name(),
                        text::position(items, Node::Text(value@)),
                    )
                } else {
                    made
                },
            }
        }),
{
    match action {
        RuleAction::List => {
            let entries = editing.entries(profile, list);
            assert(text::views(entries@).len() == entries@.len());
            Ok(Ruled::Printed(list_text(&entries)))
        },
        RuleAction::Add { local: true, .. } | RuleAction::Rm { local: true, .. } => {
            match local_allowed(list) {
                Ok(()) => Ok(Ruled::Local),
                Err(said) => Err(said),
            }
        },
        RuleAction::Add { value, .. } => match editing.add(profile, list, value) {
            Ok(false) => Ok(Ruled::Printed(cat3("already there  ", value, "\n"))),
            Ok(true) => Ok(Ruled::Changed("added")),
            Err(error) => Err(Diagnostic::error(&error.text())),
        },
        RuleAction::Rm { value, .. } => match editing.remove(profile, list, value) {
            Ok(()) => Ok(Ruled::Changed("removed")),
            Err(error) => Err(Diagnostic::error(&error.text())),
        },
    }
}

// ---------------------------------------------------------------------------
// Overlap
// ---------------------------------------------------------------------------

/// Whether two roots have something in common.
pub open spec fn overlaps(a: Path, b: Path) -> bool {
    path::holds_path(a, b) || path::holds_path(b, a)
}

/// Whether a root of another profile has something in common with an added one.
pub open spec fn clashes(profiles: Seq<Profile>, ours: int, added: Path, i: int, j: int) -> bool {
    &&& 0 <= i < profiles.len()
    &&& 0 <= j < profiles[i].watch@.len()
    &&& profiles[i].name@ != profiles[ours].name@
    &&& overlaps(profiles[i].watch@[j]@.path, added)
}

/// Whether one root comes before another, in the config's order.
pub open spec fn sooner(i: int, j: int, k: int, l: int) -> bool {
    i < k || i == k && j < l
}

fn clash_in(watch: &[WatchEntry], added: &AbsPath) -> (out: Option<usize>)
    ensures
        match out {
            Some(j) => j < watch@.len() && overlaps(watch@[j as int]@.path, added@) && forall|k: int|
                0 <= k < j ==> !overlaps((#[trigger] watch@[k])@.path, added@),
            None => forall|k: int|
                0 <= k < watch@.len() ==> !overlaps((#[trigger] watch@[k])@.path, added@),
        },
{
    let mut j: usize = 0;
    while j < watch.len()
        invariant
            j <= watch@.len(),
            forall|k: int| 0 <= k < j ==> !overlaps((#[trigger] watch@[k])@.path, added@),
        decreases watch@.len() - j,
    {
        let theirs = watch[j].path();
        if theirs.contains(added) || added.contains(theirs) {
            return Some(j);
        }
        j += 1;
    }
    None
}

/// The first root of another profile that an added one overlaps, as the profile's index and the
/// root's. Overlap across profiles is double coverage into two stores - legitimate, but worth a
/// pause when someone is at the keyboard to answer for it.
pub fn overlap(profiles: &[Profile], ours: usize, added: &AbsPath) -> (out: Option<(usize, usize)>)
    requires
        ours < profiles@.len(),
    ensures
        match out {
            Some((i, j)) => clashes(profiles@, ours as int, added@, i as int, j as int) && forall|
                k: int,
                l: int,
            | #[trigger]
                clashes(profiles@, ours as int, added@, k, l) ==> !sooner(
                    k,
                    l,
                    i as int,
                    j as int,
                ),
            None => forall|k: int, l: int| !#[trigger]
                clashes(profiles@, ours as int, added@, k, l),
        },
{
    let mut i: usize = 0;
    while i < profiles.len()
        invariant
            i <= profiles@.len(),
            ours < profiles@.len(),
            forall|k: int, l: int| #[trigger]
                clashes(profiles@, ours as int, added@, k, l) ==> k >= i,
        decreases profiles@.len() - i,
    {
        let other = &profiles[i];
        if !same(other.name.as_str(), profiles[ours].name.as_str()) {
            if let Some(j) = clash_in(&other.watch, added) {
                assert(clashes(profiles@, ours as int, added@, i as int, j as int));
                return Some((i, j));
            }
        }
        i += 1;
    }
    None
}

/// What is said of an overlap.
pub open spec fn overlap_text(value: Seq<char>, theirs: Path, name: Seq<char>) -> Seq<char> {
    "warning: "@ + value + " overlaps "@ + plan::shown(theirs) + ", watched by profile '"@ + name
        + "'\n         both profiles will capture it, each into its own store\n"@
}

#[must_use]
pub fn overlap_said(value: &str, theirs: &AbsPath, name: &str) -> (out: String)
    ensures
        out@ == overlap_text(value@, theirs@, name@),
{
    cat7(
        "warning: ",
        value,
        " overlaps ",
        &theirs.text(),
        ", watched by profile '",
        name,
        "'\n         both profiles will capture it, each into its own store\n",
    )
}

/// Whether an answer is a yes: `y` or `yes`, in any case, with any white space around it.
pub open spec fn is_yes(answer: Seq<char>) -> bool {
    let said = text::ascii_lower_text(lines::trimmed(answer));
    said == "y"@ || said == "yes"@
}

/// Whether an overlap is fine. Where nobody is at the keyboard it is; where an answer could not
/// be read it is not.
#[must_use]
pub fn overlap_accepted(at_keyboard: bool, answer: Option<&str>) -> (out: bool)
    ensures
        out == (!at_keyboard || (answer matches Some(a) && is_yes(a@))),
{
    if !at_keyboard {
        return true;
    }
    match answer {
        Some(answer) => {
            let said = text::string_of(&config::schedule::lower_ascii(&lines::trim(answer)));
            same(&said, "y") || same(&said, "yes")
        },
        None => false,
    }
}

/// What is printed where an overlap was not accepted.
#[must_use]
pub fn left_unchanged(value: &str) -> (out: String)
    ensures
        out@ == "left unchanged  "@ + value@ + "\n"@,
{
    cat3("left unchanged  ", value, "\n")
}

// ---------------------------------------------------------------------------
// Targets
// ---------------------------------------------------------------------------

/// A name beneath a directory that is not cleaned yet. An absolute name is itself; where paths
/// begin with a drive, so is one with a drive, and one that is rooted alone takes the directory's.
pub open spec fn joined(drives: bool, dir: Seq<u8>, name: Seq<u8>) -> Seq<u8> {
    if drives && path::drive_length(path::forward(name)) is Some {
        name
    } else if name.len() > 0 && separates(drives, name[0]) {
        match path::drive_length(path::forward(dir)) {
            Some(n) if drives => dir.take(n) + name,
            _ => name,
        }
    } else if dir.len() > 0 && !separates(drives, dir.last()) {
        dir + seq![SLASH] + name
    } else {
        dir + name
    }
}

/// Whether a byte separates components.
pub open spec fn separates(drives: bool, byte: u8) -> bool {
    byte == SLASH || drives && byte == BACKSLASH
}

/// The target as an absolute path: expanded like a config entry, with a bare
/// relative argument resolved against the working directory.
pub open spec fn target_of(
    value: Seq<char>,
    cwd: Result<Seq<u8>, Seq<char>>,
    home: Option<Seq<char>>,
    vars: Vars,
) -> Result<Path, Seq<char>> {
    match path::resolved(value, home, vars) {
        Ok(p) => Ok(p),
        Err(_) => match cwd {
            Err(reason) => Err(reason),
            Ok(cwd) => {
                let raw = joined(vars.drives, cwd, encode_utf8(value));
                match path::cleaned_on(vars.drives, raw, octets::lossy(raw)) {
                    Ok(p) => Ok(p),
                    Err(fault) => Err(fault.message()),
                }
            },
        },
    }
}

pub open spec fn cwd_view(cwd: Result<Vec<u8>, String>) -> Result<Seq<u8>, Seq<char>> {
    match cwd {
        Ok(v) => Ok(v@),
        Err(e) => Err(e@),
    }
}

/// # Errors
///
/// If it names no path.
pub fn expand(
    value: &str,
    cwd: &Result<Vec<u8>, String>,
    home: Option<&str>,
    vars: &Vars,
) -> (out: Result<AbsPath, String>)
    ensures
        match out {
            Ok(p) => target_of(value@, cwd_view(*cwd), path::view_str_opt(home), *vars) == Ok::<
                Path,
                Seq<char>,
            >(p@),
            Err(e) => target_of(value@, cwd_view(*cwd), path::view_str_opt(home), *vars) == Err::<
                Path,
                Seq<char>,
            >(e@),
        },
{
    if let Ok(p) = AbsPath::parse_in(value, home, vars) {
        return Ok(p);
    }
    let cwd = match cwd {
        Ok(cwd) => cwd,
        Err(reason) => return Err(reason.clone()),
    };
    let name = value.as_bytes();
    let mut raw: Vec<u8> = Vec::new();
    let ghost whole = joined(vars.drives, cwd@, name@);
    let drives = vars.drives;
    let named = drive_bytes(&forward_bytes(name));
    if drives && named.is_some() {
        octets::extend(&mut raw, name);
    } else if name.len() > 0 && (name[0] == SLASH || drives && name[0] == BACKSLASH) {
        if drives {
            if let Some(n) = drive_bytes(&forward_bytes(cwd)) {
                octets::extend(&mut raw, &octets::range(cwd, 0, n));
            }
        }
        octets::extend(&mut raw, name);
    } else {
        octets::extend(&mut raw, cwd);
        if cwd.len() > 0 {
            let last: u8 = cwd[cwd.len() - 1];
            if !(last == SLASH || drives && last == BACKSLASH) {
                raw.push(SLASH);
            }
        }
        octets::extend(&mut raw, name);
    }
    assert(raw@ =~= whole);
    match AbsPath::from_absolute_on(drives, &raw) {
        Ok(p) => Ok(p),
        Err(error) => Err(error.text()),
    }
}

/// Whether a profile watches a path.
pub open spec fn watches(profile: Profile, target: Path) -> bool {
    exists|i: int|
        0 <= i < profile.watch@.len() && path::holds_path(
            (#[trigger] profile.watch@[i])@.path,
            target,
        )
}

/// The profiles that watch a path.
pub open spec fn owners(profiles: Seq<Profile>, target: Path) -> Seq<Profile>
    decreases profiles.len(),
{
    if profiles.len() == 0 {
        Seq::empty()
    } else {
        let before = owners(profiles.drop_last(), target);
        if watches(profiles.last(), target) {
            before.push(profiles.last())
        } else {
            before
        }
    }
}

/// The first watched root that holds a path, or the number of roots where none does.
pub open spec fn holding(watch: Seq<WatchEntry>, target: Path) -> int
    decreases watch.len(),
{
    if watch.len() == 0 {
        0
    } else if path::holds_path(watch[0]@.path, target) {
        0
    } else {
        1 + holding(watch.skip(1), target)
    }
}

fn root_of(watch: &[WatchEntry], target: &AbsPath) -> (out: usize)
    ensures
        out == holding(watch@, target@),
        out <= watch@.len(),
        out < watch@.len() ==> path::holds_path(watch@[out as int]@.path, target@),
        forall|k: int|
            0 <= k < out ==> !path::holds_path((#[trigger] watch@[k])@.path, target@),
{
    let mut i: usize = 0;
    assert(watch@.skip(0) =~= watch@);
    while i < watch.len()
        invariant
            i <= watch@.len(),
            holding(watch@, target@) == i + holding(watch@.skip(i as int), target@),
            forall|k: int|
                0 <= k < i ==> !path::holds_path((#[trigger] watch@[k])@.path, target@),
        decreases watch@.len() - i,
    {
        assert(watch@.skip(i as int)[0] == watch@[i as int]);
        assert(watch@.skip(i as int).skip(1) =~= watch@.skip(i + 1));
        if watch[i].path().contains(target) {
            return i;
        }
        i += 1;
    }
    i
}

pub open spec fn does_not_watch(name: Seq<char>, target: Path) -> DiagnosticView {
    DiagnosticView::error(
        "profile '"@ + name + "' does not watch "@ + plan::shown(target),
    ).recovery_with("tycho profile list"@, "names every profile"@)
}

pub open spec fn unwatched(target: Path) -> DiagnosticView {
    DiagnosticView::error("no watched root contains "@ + plan::shown(target)).note(
        "rules only apply beneath a watched root"@,
    )
}

pub open spec fn watched_twice(target: Path, names: Seq<Seq<char>>) -> DiagnosticView {
    DiagnosticView::error(
        "more than one profile watches "@ + plan::shown(target) + ": "@ + text::join(names, ", "@),
    ).recovery("tycho rules explain <path> -p <profile>"@)
}

/// The profile whose watch tree holds the path - named, or found by
/// looking, in which case exactly one must match.
pub open spec fn owner(profiles: Seq<Profile>, target: Path, wanted: Option<Seq<char>>) -> Result<
    Profile,
    DiagnosticView,
> {
    let found = owners(profiles, target);
    match wanted {
        Some(name) => {
            let at = text::position(run::profile_names(found), name);
            if 0 <= at < found.len() {
                Ok(found[at])
            } else {
                Err(does_not_watch(name, target))
            }
        },
        None => if found.len() == 0 {
            Err(unwatched(target))
        } else if found.len() == 1 {
            Ok(found[0])
        } else {
            Err(watched_twice(target, run::profile_names(found)))
        },
    }
}

fn find_owners<'a>(profiles: &'a [Profile], target: &AbsPath) -> (out: Vec<&'a Profile>)
    ensures
        run::behind_refs(out@) == owners(profiles@, target@),
{
    let mut out: Vec<&'a Profile> = Vec::new();
    assert(run::behind_refs(out@) =~= Seq::empty());
    assert(profiles@.take(0) =~= Seq::empty());
    let mut i: usize = 0;
    while i < profiles.len()
        invariant
            i <= profiles@.len(),
            run::behind_refs(out@) == owners(profiles@.take(i as int), target@),
        decreases profiles@.len() - i,
    {
        assert(profiles@.take(i + 1).drop_last() =~= profiles@.take(i as int));
        let profile = &profiles[i];
        let at = root_of(&profile.watch, target);
        if at < profile.watch.len() {
            assert(watches(*profile, target@));
            let ghost before = run::behind_refs(out@);
            out.push(profile);
            assert(run::behind_refs(out@) =~= before.push(*profile));
        }
        i += 1;
    }
    assert(profiles@.take(i as int) =~= profiles@);
    out
}

/// # Errors
///
/// If none watches it, or more than one does and none was named.
pub fn owning_profile<'a>(
    profiles: &'a [Profile],
    target: &AbsPath,
    wanted: Option<&str>,
) -> (out: Result<&'a Profile, Diagnostic>)
    ensures
        match out {
            Ok(profile) => owner(profiles@, target@, path::view_str_opt(wanted)) == Ok::<
                Profile,
                DiagnosticView,
            >(*profile),
            Err(d) => owner(profiles@, target@, path::view_str_opt(wanted)) == Err::<
                Profile,
                DiagnosticView,
            >(d@),
        },
{
    let found = find_owners(profiles, target);
    let ghost all = owners(profiles@, target@);
    let ghost names = run::profile_names(all);
    assert(all.len() == found@.len());
    let shown = target.text();
    if let Some(name) = wanted {
        let mut i: usize = 0;
        while i < found.len()
            invariant
                i <= found@.len(),
                all == run::behind_refs(found@),
                all == owners(profiles@, target@),
                names == run::profile_names(all),
                wanted matches Some(w) && w@ == name@,
                forall|k: int| 0 <= k < i ==> names[k] != name@,
            decreases found@.len() - i,
        {
            assert(names[i as int] == found@[i as int].name@);
            if same(found[i].name.as_str(), name) {
                proof {
                    text::lemma_position(names, name@, i as int);
                }
                return Ok(found[i]);
            }
            i += 1;
        }
        proof {
            text::lemma_position(names, name@, i as int);
        }
        return Err(
            Diagnostic::error(
                &cat4("profile '", name, "' does not watch ", &shown),
            ).recovery_with("tycho profile list", "names every profile"),
        );
    }
    if found.len() == 0 {
        return Err(
            Diagnostic::error(&cat2("no watched root contains ", &shown)).note(
                "rules only apply beneath a watched root",
            ),
        );
    }
    if found.len() == 1 {
        assert(all[0] == *found@[0]);
        return Ok(found[0]);
    }
    let mut texts: Vec<String> = Vec::new();
    let mut i: usize = 0;
    while i < found.len()
        invariant
            i <= found@.len(),
            texts@.len() == i,
            forall|k: int| 0 <= k < i ==> (#[trigger] texts@[k])@ == found@[k].name@,
        decreases found@.len() - i,
    {
        texts.push(found[i].name.as_str().to_owned());
        i += 1;
    }
    assert(text::views(texts@) =~= names);
    Err(
        Diagnostic::error(
            &cat4("more than one profile watches ", &shown, ": ", &join_text(&texts, ", ")),
        ).recovery("tycho rules explain <path> -p <profile>"),
    )
}

// ---------------------------------------------------------------------------
// The chain
// ---------------------------------------------------------------------------

/// `.tycho`, as a path's component.
pub open spec fn rules_dir() -> Seq<u8> {
    seq![46u8, 116u8, 121u8, 99u8, 104u8, 111u8]
}

/// `rules.toml`, as a path's component.
pub open spec fn rules_name() -> Seq<u8> {
    seq![114u8, 117u8, 108u8, 101u8, 115u8, 46u8, 116u8, 111u8, 109u8, 108u8]
}

/// Where a directory's own rules stand.
pub fn rules_file(dir: &AbsPath) -> (out: AbsPath)
    ensures
        out@ == dir@.push(rules_dir()).push(rules_name()),
{
    let below: Vec<u8> = vec![46, 116, 121, 99, 104, 111];
    let name: Vec<u8> = vec![114, 117, 108, 101, 115, 46, 116, 111, 109, 108];
    assert(below@ =~= rules_dir());
    assert(name@ =~= rules_name());
    proof {
        assert(rules_dir()[1] == 116u8);
        assert(rules_name()[1] == 117u8);
        assert(forall|i: int| 0 <= i < rules_dir().len() ==> rules_dir()[i] != SLASH);
        assert(forall|i: int| 0 <= i < rules_name().len() ==> rules_name()[i] != SLASH);
        assert(rules_dir() != path::dot_dot());
        assert(rules_name() != path::dot_dot());
        assert(path::is_component(rules_dir()));
        assert(path::is_component(rules_name()));
    }
    proof {
        assert(forall|i: int| 0 <= i < rules_dir().len() ==> rules_dir()[i] != BACKSLASH);
        assert(forall|i: int| 0 <= i < rules_name().len() ==> rules_name()[i] != BACKSLASH);
    }
    dir.join(&below).join(&name)
}

/// What reading a directory's own rules came to: nothing where there is no file.
pub type Local = Option<Result<LocalRules, LocalRuleError>>;

/// Where a bad local file is bad, where it says.
pub open spec fn bad_line(error: LocalRuleError) -> Option<u32> {
    match error {
        LocalRuleError::WatchKey { line } => Some(line),
        LocalRuleError::Escapes { line, .. } => Some(line),
        _ => None,
    }
}

pub open spec fn bad_file(dir: Path, error: LocalRuleError) -> DiagnosticView {
    DiagnosticView::error(error.message()).at(
        LocationView::File {
            path: plan::shown(dir.push(rules_dir()).push(rules_name())),
            line: bad_line(error),
        },
    )
}

fn file_refused(dir: &AbsPath, error: &LocalRuleError) -> (out: Diagnostic)
    ensures
        out@ == bad_file(dir@, *error),
{
    let shown = rules_file(dir).text();
    let said = Diagnostic::error(&error.text());
    match error {
        LocalRuleError::WatchKey { line } => said.location(at_file_line(&shown, *line)),
        LocalRuleError::Escapes { line, .. } => said.location(at_file_line(&shown, *line)),
        _ => said.location(at_file(&shown)),
    }
}

/// A tree with a directory's own rules folded in, or the glob that did not compile.
pub open spec fn folded(tree: TreeModel, dir: Path, local: LocalRules) -> Result<
    TreeModel,
    (Seq<char>, Seq<char>),
> {
    let file = dir.push(rules_dir()).push(rules_name());
    let depth = (dir.len() + 1) as usize;
    let paths = rules::with_local_paths(tree, depth, file, local);
    if local.globs@.len() == 0 {
        Ok(paths)
    } else {
        match rules::compile_fault(rules::all_rooted(dir, rules::glob_entry_texts(local.globs@))) {
            None => Ok(rules::with_local_globs(paths, dir, depth, file, local.globs@, true)),
            Some(fault) => Err(fault),
        }
    }
}

pub open spec fn bad_glob(dir: Path, fault: (Seq<char>, Seq<char>)) -> DiagnosticView {
    DiagnosticView::error("'"@ + fault.0 + "' is not a valid glob: "@ + fault.1).at(
        LocationView::File {
            path: plan::shown(dir.push(rules_dir()).push(rules_name())),
            line: None,
        },
    )
}

/// The tree after the directories from depth `from` up to `to` on the way to the target, and the
/// deepest of them that is captured. Only a captured directory's file is read, as the walk
/// would read it.
pub open spec fn chain(
    tree: TreeModel,
    target: Path,
    locals: Seq<Local>,
    from: int,
    to: int,
) -> Result<(TreeModel, Option<Path>), DiagnosticView>
    decreases to - from,
{
    if to <= from {
        Ok((tree, None))
    } else {
        match chain(tree, target, locals, from, to - 1) {
            Err(d) => Err(d),
            Ok((tree, anchor)) => {
                let dir = target.take(to - 1);
                if tree.resolved(dir).verdict != Verdict::Capture {
                    Ok((tree, anchor))
                } else {
                    match locals[to - 1 - from] {
                        None => Ok((tree, Some(dir))),
                        Some(Err(error)) => Err(bad_file(dir, error)),
                        Some(Ok(local)) => match folded(tree, dir, local) {
                            Ok(more) => Ok((more, Some(dir))),
                            Err(fault) => Err(bad_glob(dir, fault)),
                        },
                    }
                }
            },
        }
    }
}

proof fn lemma_chain_stops(
    tree: TreeModel,
    target: Path,
    locals: Seq<Local>,
    from: int,
    to: int,
    end: int,
)
    requires
        from <= to <= end,
        chain(tree, target, locals, from, to) is Err,
    ensures
        chain(tree, target, locals, from, end) == chain(tree, target, locals, from, to),
    decreases end - to,
{
    if to < end {
        lemma_chain_stops(tree, target, locals, from, to, end - 1);
    }
}

/// A profile's own tree, or the glob that did not compile.
pub open spec fn own_tree(profile: Profile) -> Result<TreeModel, (Seq<char>, Seq<char>)> {
    let p = profile@;
    let junk = config::profile_junk(profile.use_default_ignores);
    match rules::build_fault(p.ignore_globs, junk) {
        Some(fault) => Err(fault),
        None => Ok(
            rules::built(
                config::watch_paths(p.watch),
                p.reinclude,
                p.ignore_paths,
                p.ignore_globs,
                junk,
            ),
        ),
    }
}

/// How deep the watched root is that holds the target, where one does.
pub open spec fn root_depth(profile: Profile, target: Path) -> Option<int> {
    let at = holding(profile.watch@, target);
    if 0 <= at < profile.watch@.len() {
        Some(profile.watch@[at]@.path.len() as int)
    } else {
        None
    }
}

/// What the target's chain comes to: the tree as far as the target is concerned, and where a
/// rule for it belongs.
pub open spec fn chain_of(profile: Profile, target: Path, locals: Seq<Local>) -> Result<
    (TreeModel, Path),
    DiagnosticView,
> {
    match own_tree(profile) {
        Err(fault) => Err(
            DiagnosticView::error("'"@ + fault.0 + "' is not a valid glob: "@ + fault.1),
        ),
        Ok(tree) => match root_depth(profile, target) {
            None => Err(DiagnosticView::error("no watched root contains "@ + plan::shown(target))),
            Some(from) => match chain(tree, target, locals, from, target.len() as int) {
                Err(d) => Err(d),
                Ok((tree, Some(anchor))) => Ok((tree, anchor)),
                Ok((_, None)) => Err(
                    DiagnosticView::error(
                        "no captured directory sits between the watched root and "@ + plan::shown(
                            target,
                        ),
                    ),
                ),
            },
        },
    }
}

/// The directories whose own rules bear on a target, from the watched root that holds it down to
/// its parent.
pub fn chain_dirs(profile: &Profile, target: &AbsPath) -> (out: Vec<AbsPath>)
    ensures
        match root_depth(*profile, target@) {
            None => out@.len() == 0,
            Some(from) => out@.len() == target@.len() - from && forall|k: int|
                0 <= k < out@.len() ==> (#[trigger] out@[k])@ == target@.take(from + k),
        },
{
    let mut out: Vec<AbsPath> = Vec::new();
    let at = root_of(&profile.watch, target);
    if at >= profile.watch.len() {
        return out;
    }
    let from: usize = profile.watch[at].path().depth();
    let n: usize = target.depth();
    let mut k: usize = from;
    while k < n
        invariant
            from <= k <= n,
            n == target@.len(),
            out@.len() == k - from,
            forall|i: int| 0 <= i < out@.len() ==> (#[trigger] out@[i])@ == target@.take(from + i),
        decreases n - k,
    {
        out.push(target.ancestor(k));
        k += 1;
    }
    out
}

/// Builds the profile's tree and folds in the target's ancestor chain of
/// rule files, under the walk's own read condition. Containment
/// means nothing outside this chain can affect the target, so this is the whole
/// tree as far as the target is concerned. Also returns the deepest ancestor
/// whose verdict is Capture - where a local rule for the target belongs.
///
/// # Errors
///
/// If a glob does not compile, a file on the way is bad, or nothing on the way is captured.
pub fn load_chain(profile: &Profile, target: &AbsPath, locals: &[Local]) -> (out: Result<
    (RuleTree, AbsPath),
    Diagnostic,
>)
    requires
        target@.len() < usize::MAX,
        root_depth(*profile, target@) matches Some(from) ==> locals@.len() == target@.len() - from,
    ensures
        match chain_of(*profile, target@, locals@) {
            Ok((tree, anchor)) => out matches Ok((t, a)) && t@ == tree && t@.wf() && a@ == anchor,
            Err(d) => out matches Err(e) && e@ == d,
        },
{
    let mut tree = match RuleTree::build(&profile.rule_set()) {
        Ok(tree) => tree,
        Err(error) => return Err(Diagnostic::error(&error.text())),
    };
    let ghost first = tree@;
    let at = root_of(&profile.watch, target);
    if at >= profile.watch.len() {
        return Err(Diagnostic::error(&cat2("no watched root contains ", &target.text())));
    }
    let from: usize = profile.watch[at].path().depth();
    let n: usize = target.depth();
    let mut anchor: Option<AbsPath> = None;
    let mut k: usize = from;
    while k < n
        invariant
            from <= k <= n,
            n == target@.len(),
            n < usize::MAX,
            locals@.len() == n - from,
            tree@.wf(),
            chain(first, target@, locals@, from as int, k as int) == Ok::<
                (TreeModel, Option<Path>),
                DiagnosticView,
            >((tree@, config::path_view_opt(anchor))),
            own_tree(*profile) == Ok::<TreeModel, (Seq<char>, Seq<char>)>(first),
            root_depth(*profile, target@) == Some(from as int),
        decreases n - k,
    {
        let dir = target.ancestor(k);
        if tree.captures(&dir) {
            match &locals[k - from] {
                None => {},
                Some(Err(error)) => {
                    proof {
                        lemma_chain_stops(
                            first,
                            target@,
                            locals@,
                            from as int,
                            k + 1,
                            n as int,
                        );
                    }
                    return Err(file_refused(&dir, error));
                },
                Some(Ok(local)) => {
                    let file = rules_file(&dir);
                    match tree.add_local(&dir, &file, local) {
                        Ok(()) => {},
                        Err(error) => {
                            proof {
                                lemma_chain_stops(
                                    first,
                                    target@,
                                    locals@,
                                    from as int,
                                    k + 1,
                                    n as int,
                                );
                            }
                            return Err(
                                Diagnostic::error(&error.text()).location(at_file(&file.text())),
                            );
                        },
                    }
                },
            }
            anchor = Some(dir);
        }
        k += 1;
    }
    match anchor {
        Some(anchor) => Ok((tree, anchor)),
        None => Err(
            Diagnostic::error(
                &cat2(
                    "no captured directory sits between the watched root and ",
                    &target.text(),
                ),
            ),
        ),
    }
}

// ---------------------------------------------------------------------------
// A rule inside the tree
// ---------------------------------------------------------------------------

pub open spec fn lossy_parts(parts: Seq<Seq<u8>>) -> Seq<Seq<char>> {
    parts.map_values(|p: Seq<u8>| octets::lossy(p))
}

/// What a rule for a target is written as in its anchor's own file.
pub open spec fn local_entry(target: Path, anchor: Path) -> Result<Seq<char>, DiagnosticView> {
    if !path::holds_path(anchor, target) {
        Err(
            DiagnosticView::error(
                plan::shown(target) + " is not under "@ + plan::shown(anchor),
            ),
        )
    } else {
        let entry = text::join(lossy_parts(target.skip(anchor.len() as int)), "/"@);
        if entry.len() == 0 {
            Err(
                DiagnosticView::error(
                    plan::shown(target) + " is the nearest captured directory itself"@,
                ).note(
                    "a local rule names something beneath its own directory; to act on this path, write the rule one level up or in the config"@,
                ),
            )
        } else {
            Ok(entry)
        }
    }
}

/// The rule goes in a file inside the tree, not in the
/// config. The file sits at the deepest still-captured ancestor of the target -
/// for an ignore that is simply the parent, and for a re-include under an
/// ignored directory it is the nearest ancestor above the ignore, the only
/// placement at which the rule would ever be read.
///
/// # Errors
///
/// If the target is not beneath the anchor, or is the anchor.
pub fn local_edit(target: &AbsPath, anchor: &AbsPath) -> (out: Result<String, Diagnostic>)
    ensures
        match local_entry(target@, anchor@) {
            Ok(entry) => out matches Ok(e) && e@ == entry,
            Err(d) => out matches Err(e) && e@ == d,
        },
{
    if !anchor.contains(target) {
        return Err(
            Diagnostic::error(&cat3(&target.text(), " is not under ", &anchor.text())),
        );
    }
    let parts = target.parts();
    let from: usize = anchor.depth();
    let n: usize = parts.len();
    assert(octets::byte_views(parts@).len() == n);
    let mut shown: Vec<String> = Vec::new();
    let mut i: usize = from;
    while i < n
        invariant
            from <= i <= n,
            n == parts@.len(),
            octets::byte_views(parts@) == target@,
            shown@.len() == i - from,
            forall|k: int|
                0 <= k < shown@.len() ==> (#[trigger] shown@[k])@ == octets::lossy(
                    target@[from + k],
                ),
        decreases n - i,
    {
        assert(target@[i as int] == parts@[i as int]@);
        shown.push(octets::lossy_text(&parts[i]));
        i += 1;
    }
    assert(text::views(shown@) =~= lossy_parts(target@.skip(from as int)));
    let entry = join_text(&shown, "/");
    if text::chars_of(&entry).len() == 0 {
        return Err(
            Diagnostic::error(
                &cat2(&target.text(), " is the nearest captured directory itself"),
            ).note(
                "a local rule names something beneath its own directory; to act on this path, write the rule one level up or in the config",
            ),
        );
    }
    Ok(entry)
}

/// What to say of a value that names no path.
pub fn no_path(value: &str, reason: &str) -> (out: Diagnostic)
    ensures
        out@ == DiagnosticView::error("'"@ + value@ + "' is not a path: "@ + reason@),
{
    Diagnostic::error(&cat4("'", value, "' is not a path: ", reason))
}

/// What is printed of an edit of a directory's own rules: what was done to the entry and in which
/// file, or that there was nothing to do.
pub open spec fn local_echo_text(
    entry: Seq<char>,
    place: Seq<char>,
    changed: bool,
    gained: bool,
) -> Seq<char> {
    if !changed {
        "already there  "@ + entry + "\n"@
    } else {
        remote::echo_text(
            if gained {
                "added"@
            } else {
                "removed"@
            },
            entry,
        ) + "               in "@ + place + "\n"@
    }
}

/// [`local_echo_text`], of an entry that was to be `gained` or else to go, in the file at `place`.
pub fn local_echo(entry: &str, place: &str, changed: bool, gained: bool) -> (out: String)
    ensures
        out@ == local_echo_text(entry@, place@, changed, gained),
{
    if !changed {
        return cat3("already there  ", entry, "\n");
    }
    let verb = if gained {
        "added"
    } else {
        "removed"
    };
    let done = cat4(&left(verb, 14), " ", entry, "\n");
    cat4(&done, "               in ", place, "\n")
}

pub open spec fn no_local_watch() -> DiagnosticView {
    DiagnosticView::error("a local file cannot declare `watch`"@).note(
        "it scopes a watch, it cannot create one"@,
    )
}

/// A local file scopes a watch, it cannot create one.
///
/// # Errors
///
/// If the list is the watched roots.
pub fn local_allowed(list: List) -> (out: Result<(), Diagnostic>)
    ensures
        match list {
            List::Watch => out matches Err(d) && d@ == no_local_watch(),
            _ => out is Ok,
        },
{
    match list {
        List::Watch => Err(
            Diagnostic::error("a local file cannot declare `watch`").note(
                "it scopes a watch, it cannot create one",
            ),
        ),
        List::Ignore => Ok(()),
        List::Reinclude => Ok(()),
    }
}

// ---------------------------------------------------------------------------
// Explain
// ---------------------------------------------------------------------------

pub open spec fn verdict_word(verdict: Verdict) -> Seq<char> {
    match verdict {
        Verdict::Capture => "capture"@,
        Verdict::Skip => "skip"@,
    }
}

pub open spec fn tier_word(tier: Tier) -> Seq<char> {
    match tier {
        Tier::ExplicitPath => "explicit-path"@,
        Tier::Glob => "glob"@,
        Tier::Junk => "junk"@,
    }
}

pub open spec fn origin_word(origin: Origin) -> Seq<char> {
    match origin {
        Origin::Global => "global"@,
        Origin::Local(_) => "local"@,
        Origin::Junk => "junk"@,
    }
}

pub open spec fn source_text(source: SourceView) -> Seq<char> {
    match source {
        SourceView::Junk => "the built-in junk list"@,
        SourceView::Global => "the profile config"@,
        SourceView::Local { file, line } => plan::shown(file) + ":"@ + text::decimal_text(
            line as nat,
        ),
    }
}

/// What is printed of one rule that bears on a path. A decision no rule made prints nothing.
pub open spec fn decision_text(tree: TreeModel, decision: Decision, label: Option<Seq<char>>) -> Seq<
    char,
> {
    match decision.rule {
        None => ""@,
        Some(id) => {
            let meta = tree.metas[id.0 as int];
            let head = match label {
                None => text::padded_right(verdict_word(decision.verdict), 9),
                Some(label) => text::padded_right(label, 9) + text::padded_right(
                    verdict_word(decision.verdict),
                    8,
                ),
            };
            head + meta.text + "\n         "@ + source_text(meta.source) + "\n         depth "@
                + text::decimal_text(decision.depth as nat) + ", tier "@ + tier_word(decision.tier)
                + ", origin "@ + origin_word(decision.origin) + "\n"@
        },
    }
}

#[must_use]
pub fn print_decision(tree: &RuleTree, decision: Decision, label: Option<&str>) -> (out: String)
    requires
        decision.rule matches Some(id) ==> id.0 < tree@.metas.len(),
    ensures
        out@ == decision_text(tree@, decision, path::view_str_opt(label)),
{
    let id = match decision.rule {
        Some(id) => id,
        None => return "".to_owned(),
    };
    let verdict = match decision.verdict {
        Verdict::Capture => "capture",
        Verdict::Skip => "skip",
    };
    let head = match label {
        None => left(verdict, 9),
        Some(label) => cat2(&left(label, 9), &left(verdict, 8)),
    };
    let source = match tree.rule_source(id) {
        Source::Junk => "the built-in junk list".to_owned(),
        Source::Global => "the profile config".to_owned(),
        Source::Local { file, line } => cat3(&file.text(), ":", &decimal(*line as u64)),
    };
    let tier = match decision.tier {
        Tier::ExplicitPath => "explicit-path",
        Tier::Glob => "glob",
        Tier::Junk => "junk",
    };
    let origin = match decision.origin {
        Origin::Global => "global",
        Origin::Local(_) => "local",
        Origin::Junk => "junk",
    };
    let above = cat5(&head, tree.rule_text(id), "\n         ", &source, "\n         depth ");
    cat7(&above, &decimal(decision.depth as u64), ", tier ", tier, ", origin ", origin, "\n")
}

/// The rules that bear on a path, the one that decides first.
pub open spec fn explanation(tree: TreeModel, candidates: Seq<Decision>, n: int) -> Seq<char>
    decreases n,
{
    if n <= 0 {
        Seq::empty()
    } else if n == 1 {
        decision_text(tree, candidates[0], None)
    } else {
        explanation(tree, candidates, n - 1) + decision_text(
            tree,
            candidates[n - 1],
            Some("beaten"@),
        )
    }
}

/// `tycho rules explain PATH`, given the decisions the rules come to, the strongest first.
///
/// # Errors
///
/// If no rule matches.
pub fn explain_dispatch(tree: &RuleTree, candidates: &[Decision], target: &AbsPath) -> (out: Result<
    String,
    Diagnostic,
>)
    requires
        forall|i: int|
            0 <= i < candidates@.len() ==> ((#[trigger] candidates@[i]).rule matches Some(id)
                ==> id.0 < tree@.metas.len()),
    ensures
        if candidates@.len() == 0 {
            out matches Err(d) && d@ == DiagnosticView::error(
                "no rule matches "@ + plan::shown(target@),
            ).note(
                "only paths under a watched root are captured, and this one is under none"@,
            )
        } else {
            out matches Ok(s) && s@ == explanation(tree@, candidates@, candidates@.len() as int)
        },
{
    if candidates.len() == 0 {
        return Err(
            Diagnostic::error(&cat2("no rule matches ", &target.text())).note(
                "only paths under a watched root are captured, and this one is under none",
            ),
        );
    }
    let mut out = print_decision(tree, candidates[0], None);
    let mut i: usize = 1;
    while i < candidates.len()
        invariant
            1 <= i <= candidates@.len(),
            forall|k: int|
                0 <= k < candidates@.len() ==> ((#[trigger] candidates@[k]).rule matches Some(id)
                    ==> id.0 < tree@.metas.len()),
            out@ == explanation(tree@, candidates@, i as int),
        decreases candidates@.len() - i,
    {
        out = cat2(&out, &print_decision(tree, candidates[i], Some("beaten")));
        i += 1;
    }
    Ok(out)
}

// ---------------------------------------------------------------------------
// Laws
// ---------------------------------------------------------------------------

/// Where a local rule belongs is captured and lies on the way to the target, beneath its root.
pub proof fn the_anchor_is_on_the_way(
    tree: TreeModel,
    target: Path,
    locals: Seq<Local>,
    from: int,
    to: int,
)
    requires
        0 <= from <= to <= target.len(),
    ensures
        chain(tree, target, locals, from, to) matches Ok((_, Some(anchor))) ==> path::holds_path(
            anchor,
            target,
        ) && from <= anchor.len() < to,
    decreases to - from,
{
    if from < to {
        the_anchor_is_on_the_way(tree, target, locals, from, to - 1);
        let dir = target.take(to - 1);
        assert(dir.len() == to - 1);
        assert(target.take(dir.len() as int) =~= dir);
    }
}

/// A file in a directory that is not captured is never read: whatever it holds, it changes
/// nothing.
pub proof fn an_uncaptured_file_is_never_read(
    tree: TreeModel,
    target: Path,
    locals: Seq<Local>,
    other: Local,
    from: int,
    to: int,
)
    requires
        0 <= from < to <= target.len(),
        locals.len() == to - from,
        chain(tree, target, locals, from, to - 1) matches Ok((t, _)) && t.resolved(
            target.take(to - 1),
        ).verdict != Verdict::Capture,
    ensures
        chain(tree, target, locals.update(to - 1 - from, other), from, to) == chain(
            tree,
            target,
            locals,
            from,
            to,
        ),
{
    lemma_chain_prefix(tree, target, locals, locals.update(to - 1 - from, other), from, to - 1);
}

proof fn lemma_chain_prefix(
    tree: TreeModel,
    target: Path,
    a: Seq<Local>,
    b: Seq<Local>,
    from: int,
    to: int,
)
    requires
        from <= to,
        forall|i: int| 0 <= i < to - from ==> #[trigger] a[i] == b[i],
    ensures
        chain(tree, target, a, from, to) == chain(tree, target, b, from, to),
    decreases to - from,
{
    if from < to {
        lemma_chain_prefix(tree, target, a, b, from, to - 1);
        assert(a[to - 1 - from] == b[to - 1 - from]);
    }
}

/// Two roots that overlap do so both ways round.
pub proof fn overlap_is_mutual(a: Path, b: Path)
    ensures
        overlaps(a, b) == overlaps(b, a),
        overlaps(a, a),
{
    assert(a.take(a.len() as int) =~= a);
}

/// A profile owns a path where it watches a root that the path is or lies beneath; the owners of a
/// path are all of those, in the config's order.
pub proof fn owners_are_the_profiles_that_watch(profiles: Seq<Profile>, target: Path)
    ensures
        owners(profiles, target) == profiles.filter(
            |p: Profile|
                exists|i: int|
                    0 <= i < p.watch@.len() && (#[trigger] p.watch@[i])@.path.is_prefix_of(target),
        ),
    decreases profiles.len(),
{
    reveal(Seq::filter);
    if profiles.len() > 0 {
        let p = profiles.last();
        owners_are_the_profiles_that_watch(profiles.drop_last(), target);
        if watches(p, target) {
            let i = choose|i: int|
                0 <= i < p.watch@.len() && path::holds_path((#[trigger] p.watch@[i])@.path, target);
            path::containing_is_beginning_alike(p.watch@[i]@.path, target);
            assert(p.watch@[i]@.path.is_prefix_of(target));
        }
        if exists|i: int|
            0 <= i < p.watch@.len() && (#[trigger] p.watch@[i])@.path.is_prefix_of(target) {
            let i = choose|i: int|
                0 <= i < p.watch@.len() && (#[trigger] p.watch@[i])@.path.is_prefix_of(target);
            path::containing_is_beginning_alike(p.watch@[i]@.path, target);
            assert(watches(p, target));
        }
    }
}

/// A path has one owner: the one of the name given that watches it, or the only one that does.
/// Neither none nor one of several is picked.
pub proof fn a_path_has_one_owner(
    profiles: Seq<Profile>,
    target: Path,
    wanted: Option<Seq<char>>,
)
    ensures
        owner(profiles, target, wanted) matches Ok(p) ==> owners(profiles, target).contains(p) && (
        wanted matches Some(name) ==> p.name@ == name),
        wanted is None ==> (owner(profiles, target, wanted) is Ok <==> owners(
            profiles,
            target,
        ).len() == 1),
        wanted matches Some(name) ==> (owner(profiles, target, wanted) is Ok <==> exists|i: int|
            0 <= i < owners(profiles, target).len() && (#[trigger] owners(
                profiles,
                target,
            )[i]).name@ == name),
{
    let found = owners(profiles, target);
    if let Some(name) = wanted {
        let names = run::profile_names(found);
        text::lemma_position_bounds(names, name);
        let at = text::position(names, name);
        if at < found.len() {
            assert(names[at] == found[at].name@);
            assert(found.contains(found[at]));
        }
        if exists|i: int| 0 <= i < found.len() && (#[trigger] found[i]).name@ == name {
            let i = choose|i: int| 0 <= i < found.len() && (#[trigger] found[i]).name@ == name;
            assert(names[i] == name);
        }
    } else if found.len() == 1 {
        assert(found.contains(found[0]));
    }
}

/// The root a path belongs to is the first that holds it.
pub proof fn the_first_root_holds_a_path(watch: Seq<WatchEntry>, target: Path)
    ensures
        0 <= holding(watch, target) <= watch.len(),
        holding(watch, target) < watch.len() ==> watch[holding(watch, target)]@.path.is_prefix_of(
            target,
        ),
        forall|i: int|
            0 <= i < holding(watch, target) ==> !(#[trigger] watch[i])@.path.is_prefix_of(target),
    decreases watch.len(),
{
    if watch.len() > 0 {
        path::containing_is_beginning_alike(watch[0]@.path, target);
        if !path::holds_path(watch[0]@.path, target) {
            let rest = watch.skip(1);
            the_first_root_holds_a_path(rest, target);
            if holding(watch, target) < watch.len() {
                assert(watch[holding(watch, target)] == rest[holding(rest, target)]);
            }
            assert forall|i: int| 0 <= i < holding(watch, target) implies !(
            #[trigger] watch[i])@.path.is_prefix_of(target) by {
                if i > 0 {
                    assert(rest[i - 1] == watch[i]);
                }
            }
        }
    }
}

/// A name that begins at the root stands for itself, and any other for what it names beneath the
/// working directory.
pub proof fn a_relative_name_is_taken_from_the_directory(dir: Seq<u8>, name: Seq<u8>)
    ensures
        name.len() > 0 && name[0] == SLASH ==> joined(false, dir, name) == name,
        dir.len() > 0 && (name.len() == 0 || name[0] != SLASH) ==> path::components(
            joined(false, dir, name),
        ) == path::components(dir) + path::components(name),
{
    if dir.len() > 0 && (name.len() == 0 || name[0] != SLASH) {
        let front = if dir.last() == SLASH {
            dir.drop_last()
        } else {
            dir
        };
        let out = joined(false, dir, name);
        assert(out =~= front + seq![SLASH] + name);
        path::lemma_split_around(front, SLASH, name);
        path::lemma_named_add(text::split(front, SLASH), text::split(name, SLASH));
        if dir.last() == SLASH {
            let none = Seq::<u8>::empty();
            assert(dir =~= front + seq![SLASH] + none);
            path::lemma_split_around(front, SLASH, none);
            text::lemma_position(none, SLASH, 0);
            assert(text::split(none, SLASH) =~= seq![none]);
            path::lemma_named_add(text::split(front, SLASH), seq![none]);
            assert(seq![none].drop_last() =~= Seq::<Seq<u8>>::empty());
            assert(!path::names_something(seq![none].last()));
            assert(path::named(Seq::<Seq<u8>>::empty()) =~= Seq::<Seq<u8>>::empty());
            assert(path::named(seq![none]) =~= Seq::<Seq<u8>>::empty());
            assert(path::components(dir) =~= path::components(front));
        }
    }
}

/// A rule for something beneath a directory is written as the way down to it, and there is none for
/// the directory itself nor for what is elsewhere.
pub proof fn a_local_entry_is_the_way_down(target: Path, anchor: Path)
    requires
        forall|i: int|
            0 <= i < target.len() ==> octets::lossy(#[trigger] target[i]).len() > 0
                && !octets::lossy(target[i]).contains('/'),
    ensures
        local_entry(target, anchor) is Ok <==> anchor.is_prefix_of(target) && target != anchor,
        local_entry(target, anchor) matches Ok(entry) ==> text::split(entry, '/') == target.skip(
            anchor.len() as int,
        ).map_values(|p: Seq<u8>| octets::lossy(p)),
{
    path::containing_is_beginning_alike(anchor, target);
    let below = target.skip(anchor.len() as int);
    let shown = lossy_parts(below);
    reveal_strlit("/");
    assert("/"@ =~= seq!['/']);
    if path::holds_path(anchor, target) {
        if below.len() == 0 {
            assert(target.take(anchor.len() as int) =~= target);
            assert(text::join(shown, "/"@).len() == 0);
        } else {
            assert forall|i: int| 0 <= i < shown.len() implies !(#[trigger] shown[i]).contains(
                '/',
            ) by {
                assert(below[i] == target[anchor.len() + i]);
            }
            path::lemma_split_join(shown, '/');
            let entry = text::join(shown, "/"@);
            assert(shown[0].len() > 0) by {
                assert(below[0] == target[anchor.len() as int]);
            }
            if entry.len() == 0 {
                text::lemma_position(entry, '/', 0);
                assert(text::split(entry, '/') =~= seq![entry]);
                assert(shown[0] == entry);
            }
            assert(shown =~= below.map_values(|p: Seq<u8>| octets::lossy(p)));
        }
    }
}

/// Two roots overlap exactly where one of them is the other or lies beneath it.
pub proof fn overlapping_is_lying_beneath(a: Path, b: Path)
    ensures
        overlaps(a, b) <==> a.is_prefix_of(b) || b.is_prefix_of(a),
{
    path::containing_is_beginning_alike(a, b);
    path::containing_is_beginning_alike(b, a);
}

/// A yes is `y` or `yes`, in capitals or small letters, with any white space around it; nothing else
/// is.
pub proof fn only_a_yes_is_a_yes(before: Seq<char>, word: Seq<char>, after: Seq<char>)
    requires
        forall|i: int| 0 <= i < before.len() ==> lines::is_white(#[trigger] before[i]),
        forall|i: int| 0 <= i < after.len() ==> lines::is_white(#[trigger] after[i]),
        word.len() > 0,
        !lines::is_white(word[0]),
        !lines::is_white(word.last()),
    ensures
        is_yes(before + word + after) <==> {
            ||| word.len() == 1 && (word[0] == 'y' || word[0] == 'Y')
            ||| word.len() == 3 && (word[0] == 'y' || word[0] == 'Y') && (word[1] == 'e' || word[1]
                == 'E') && (word[2] == 's' || word[2] == 'S')
        },
{
    lines::trimming_takes_only_white_space(before, word, after);
    reveal_strlit("y");
    reveal_strlit("yes");
    let said = text::ascii_lower_text(word);
    assert(said.len() == word.len());
    assert forall|i: int| 0 <= i < word.len() implies #[trigger] said[i] == text::ascii_lower(
        word[i],
    ) by {}
    if word.len() == 1 {
        if said[0] == 'y' {
            assert(said =~= "y"@);
        }
        assert("yes"@.len() == 3);
    } else if word.len() == 3 {
        if said[0] == 'y' && said[1] == 'e' && said[2] == 's' {
            assert(said =~= "yes"@);
        }
        assert("y"@.len() == 1);
    } else {
        assert("yes"@.len() == 3 && "y"@.len() == 1);
    }
}

/// A target that is written as a config's path would be is that path; any other is taken from the
/// working directory.
pub proof fn a_target_is_read_as_a_config_would(
    value: Seq<char>,
    cwd: Result<Seq<u8>, Seq<char>>,
    home: Option<Seq<char>>,
    vars: Vars,
)
    ensures
        path::resolved(value, home, vars) matches Ok(p) ==> target_of(value, cwd, home, vars)
            == Ok::<Path, Seq<char>>(p),
        path::resolved(value, home, vars) is Err && cwd is Err ==> target_of(value, cwd, home, vars)
            == Err::<Path, Seq<char>>(cwd->Err_0),
        path::resolved(value, home, vars) is Err && !vars.drives && (cwd matches Ok(dir) && dir.len()
            > 0 && dir[0] == SLASH && !path::components(dir).contains(seq![46u8, 46u8]))
            && !path::components(encode_utf8(value)).contains(seq![46u8, 46u8]) && (encode_utf8(
            value,
        ).len() == 0 || encode_utf8(value)[0] != SLASH) ==> target_of(value, cwd, home, vars)
            == Ok::<Path, Seq<char>>(
            path::components(cwd->Ok_0) + path::components(encode_utf8(value)),
        ),
{
    if path::resolved(value, home, vars) is Err && !vars.drives {
        if let Ok(dir) = cwd {
            let name = encode_utf8(value);
            let raw = joined(false, dir, name);
            a_relative_name_is_taken_from_the_directory(dir, name);
            if dir.len() > 0 && dir[0] == SLASH && (name.len() == 0 || name[0] != SLASH) {
                let all = path::components(dir) + path::components(name);
                assert(raw[0] == SLASH);
                assert(path::dot_dot() =~= seq![46u8, 46u8]);
                if all.contains(path::dot_dot()) {
                    let i = choose|i: int| 0 <= i < all.len() && all[i] == path::dot_dot();
                    if i < path::components(dir).len() {
                        assert(path::components(dir)[i] == path::dot_dot());
                    } else {
                        assert(path::components(name)[i - path::components(dir).len()]
                            == path::dot_dot());
                    }
                }
            }
        }
    }
}

/// What decides is printed first and without a label, and what it beat behind it.
pub proof fn what_decides_is_printed_first(
    tree: TreeModel,
    candidates: Seq<Decision>,
    n: int,
)
    requires
        0 < n <= candidates.len(),
    ensures
        decision_text(tree, candidates[0], None).is_prefix_of(explanation(tree, candidates, n)),
        n > 1 ==> explanation(tree, candidates, n) == explanation(tree, candidates, n - 1)
            + decision_text(tree, candidates[n - 1], Some("beaten"@)),
    decreases n,
{
    let first = decision_text(tree, candidates[0], None);
    let all = explanation(tree, candidates, n);
    if n > 1 {
        what_decides_is_printed_first(tree, candidates, n - 1);
        let before = explanation(tree, candidates, n - 1);
        assert(first =~= before.subrange(0, first.len() as int));
        assert(first =~= all.subrange(0, first.len() as int));
    } else {
        assert(first =~= all.subrange(0, first.len() as int));
    }
}

/// A directory's own rules are folded in as the walk folds them, or refused for a glob that the walk
/// could not use either.
pub proof fn folding_is_what_the_walk_does(tree: TreeModel, dir: Path, local: LocalRules)
    ensures
        ({
            let file = dir.push(rules_dir()).push(rules_name());
            let fault = rules::compile_fault(
                rules::all_rooted(dir, rules::glob_entry_texts(local.globs@)),
            );
            &&& folded(tree, dir, local) is Ok <==> local.globs@.len() == 0 || fault is None
            &&& folded(tree, dir, local) matches Ok(t) ==> t == rules::with_local(
                tree,
                dir,
                file,
                local,
            )
        }),
{
}

/// Where no directory on the way has rules of its own the tree is the profile's, and a rule for the
/// target belongs in the deepest directory that is captured.
pub proof fn a_rule_belongs_in_the_deepest_captured_directory(
    tree: TreeModel,
    target: Path,
    locals: Seq<Local>,
    from: int,
    to: int,
)
    requires
        0 <= from <= to <= target.len(),
        locals.len() == target.len() - from,
        forall|i: int| 0 <= i < locals.len() ==> (#[trigger] locals[i]) is None,
    ensures
        chain(tree, target, locals, from, to) matches Ok((same, anchor)) && same == tree
            && match anchor {
            Some(dir) => from <= dir.len() < to && dir == target.take(dir.len() as int)
                && tree.resolved(dir).verdict == Verdict::Capture && forall|k: int|
                dir.len() < k < to ==> tree.resolved(#[trigger] target.take(k)).verdict
                    == Verdict::Skip,
            None => forall|k: int|
                from <= k < to ==> tree.resolved(#[trigger] target.take(k)).verdict
                    == Verdict::Skip,
        },
    decreases to - from,
{
    if from < to {
        a_rule_belongs_in_the_deepest_captured_directory(tree, target, locals, from, to - 1);
        assert(locals[to - 1 - from] is None);
        let dir = target.take(to - 1);
        assert(dir.len() == to - 1);
        assert(target.take(dir.len() as int) =~= dir);
    }
}

/// What a profile lists is what its tree says: an ignored path is skipped, and a watched or
/// re-included one that is not ignored is captured.
pub proof fn a_profiles_tree_says_what_it_lists(profile: Profile, p: Path)
    requires
        own_tree(profile) is Ok,
        p.len() < usize::MAX,
        profile.watch@.len() + profile.reinclude@.len() + profile.ignore_paths@.len()
            + config::profile_junk(profile.use_default_ignores).len() + profile.ignore_globs@.len()
            <= usize::MAX,
    ensures
        ({
            let t = own_tree(profile)->Ok_0;
            &&& profile@.ignore_paths.contains(p) ==> t.resolved(p).verdict == Verdict::Skip
            &&& !profile@.ignore_paths.contains(p) && (profile@.reinclude.contains(p) || exists|i: int|
                0 <= i < profile.watch@.len() && (#[trigger] profile.watch@[i])@.path == p)
                ==> t.resolved(p).verdict == Verdict::Capture
        }),
{
    let v = profile@;
    let watch = config::watch_paths(v.watch);
    crate::config::precedence::a_listed_path_gets_its_verdict(
        watch,
        v.reinclude,
        v.ignore_paths,
        v.ignore_globs,
        config::profile_junk(profile.use_default_ignores),
        p,
    );
    if exists|i: int| 0 <= i < profile.watch@.len() && (#[trigger] profile.watch@[i])@.path == p {
        let i = choose|i: int|
            0 <= i < profile.watch@.len() && (#[trigger] profile.watch@[i])@.path == p;
        assert(v.watch[i] == profile.watch@[i]@);
        assert(watch[i] == p);
    }
}

/// An added root clashes with those of other profiles alone, and with any of theirs that it is,
/// holds or lies beneath.
pub proof fn a_clash_is_with_another_profiles_root(
    profiles: Seq<Profile>,
    ours: int,
    added: Path,
    i: int,
    j: int,
)
    requires
        0 <= ours < profiles.len(),
        0 <= i < profiles.len(),
        0 <= j < profiles[i].watch@.len(),
    ensures
        !clashes(profiles, ours, added, ours, j),
        clashes(profiles, ours, added, i, j) <==> profiles[i].name@ != profiles[ours].name@ && (
        added.is_prefix_of(profiles[i].watch@[j]@.path)
            || profiles[i].watch@[j]@.path.is_prefix_of(added)),
{
    overlapping_is_lying_beneath(profiles[i].watch@[j]@.path, added);
}

} // verus!
