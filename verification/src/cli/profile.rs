//! `tycho profile`: list, add and remove profiles in the config file.

use crate::cli::page::{Page, PageView, Tint};
use crate::cli::remote;
use crate::cli::remote::{check_ownership, refused, remote_name, worse, Adding};
use crate::cli::render;
use crate::cli::render::rule;
use crate::cli::report;
use crate::cli::report::{at_profile, say, Diagnostic, DiagnosticView, LocationView};
use crate::cli::words;
use crate::cli::words::{clip, plural};
use crate::cli::{Exit, ProfileAddArgs, ProfileRmArgs};
use crate::config::copy_strings;
use crate::config::schedule;
use crate::config::schedule::Schedule;
use crate::config_edit;
use crate::config_edit::document;
use crate::config_edit::document::Table;
use crate::config_edit::{EditFault, Editing, List, NewProfile, NewRemote};
use crate::primitives::names;
use crate::primitives::names::ProfileName;
use crate::text;
use crate::text::{any_same, cat3, cat4, left, same, split_once};
use vstd::prelude::*;

verus! {

// ---------------------------------------------------------------------------
// List
// ---------------------------------------------------------------------------

/// One profile's row.
pub open spec fn profile_row(
    p: PageView,
    name: Seq<char>,
    roots: nat,
    remotes: nat,
    scheduled: bool,
) -> PageView {
    let p = p.put("  "@).put(text::padded_right(words::clipped(name, 13), 14)).put(
        text::padded_right(words::plural_text(roots, "root"@), 14),
    );
    let p = if remotes == 0 {
        p.ink(text::padded_right("local only"@, 14), Tint::Yellow)
    } else {
        p.put(text::padded_right(words::plural_text(remotes, "remote"@), 14))
    };
    let p = if scheduled {
        p.ink("set"@, Tint::Green)
    } else {
        p.ink("none"@, Tint::Yellow)
    };
    p.put("\n"@)
}

pub open spec fn scheduled_in(root: Table, profile: int) -> bool {
    document::has_table(root, profile) && document::table_at(root, profile).dom().contains(
        "schedule"@,
    )
}

pub open spec fn profile_rows(p: PageView, root: Table, names: Seq<Seq<char>>, n: int) -> PageView
    decreases n,
{
    if n <= 0 {
        p
    } else {
        profile_row(
            profile_rows(p, root, names, n - 1),
            names[n - 1],
            config_edit::entries_in(root, n - 1, "watch"@).len(),
            config_edit::remotes_in(root, n - 1).len(),
            scheduled_in(root, n - 1),
        )
    }
}

pub open spec fn list_page(root: Table) -> PageView {
    let p = PageView::empty();
    let names = config_edit::profile_names(root);
    if names.len() == 0 {
        p.line("no profiles"@)
    } else {
        profile_rows(
            render::ruled(
                p.put(text::padded_right("name"@, 16)).put(text::padded_right("watch"@, 14)).put(
                    text::padded_right("remotes"@, 14),
                ).line("schedule"@),
            ),
            root,
            names,
            names.len() as int,
        )
    }
}

fn put_row(page: &mut Page, name: &str, roots: usize, remotes: usize, scheduled: bool)
    ensures
        final(page)@ == profile_row(
            old(page)@,
            name@,
            roots as nat,
            remotes as nat,
            scheduled,
        ),
{
    page.put("  ");
    page.put(&left(&clip(name, 13), 14));
    page.put(&left(&plural(roots, "root"), 14));
    // Painted after padding, so colour never changes a column's width.
    if remotes == 0 {
        page.ink(&left("local only", 14), Tint::Yellow);
    } else {
        page.put(&left(&plural(remotes, "remote"), 14));
    }
    if scheduled {
        page.ink("set", Tint::Green);
    } else {
        page.ink("none", Tint::Yellow);
    }
    page.put("\n");
}

/// Every profile in the file.
#[must_use]
pub fn list(editing: &Editing, colour: bool) -> (out: String)
    ensures
        out@ == list_page(editing.root()).shown(colour),
{
    let ghost root = editing.root();
    let names = editing.profiles();
    let ghost all = config_edit::profile_names(root);
    assert(text::views(names@).len() == names@.len());
    let mut page = Page::new();
    if names.len() == 0 {
        page.line("no profiles");
        return page.show(colour);
    }
    page.put(&left("name", 16));
    page.put(&left("watch", 14));
    page.put(&left("remotes", 14));
    page.line("schedule");
    rule(&mut page);
    let ghost start = page@;
    let mut i: usize = 0;
    while i < names.len()
        invariant
            i <= names@.len(),
            root == editing.root(),
            all == text::views(names@),
            page@ == profile_rows(start, root, all, i as int),
        decreases names@.len() - i,
    {
        assert(all[i as int] == names@[i as int]@);
        let roots = editing.entries(i, List::Watch);
        let remotes = editing.remotes(i);
        assert(text::views(roots@).len() == roots@.len());
        assert(config_edit::remote_entry_views(remotes@).len() == remotes@.len());
        put_row(&mut page, &names[i], roots.len(), remotes.len(), editing.has_schedule(i));
        i += 1;
    }
    page.show(colour)
}

// ---------------------------------------------------------------------------
// Add
// ---------------------------------------------------------------------------

/// One `--remote NAME=PATH` after splitting, before the ownership check that
/// decides whether it may be written.
pub struct RemoteSpec {
    pub name: String,
    pub path: String,
}

pub open spec fn spec_names(specs: Seq<(Seq<char>, Seq<char>)>) -> Seq<Seq<char>> {
    specs.map_values(|s: (Seq<char>, Seq<char>)| s.0)
}

pub open spec fn spec_views(specs: Seq<RemoteSpec>) -> Seq<(Seq<char>, Seq<char>)> {
    specs.map_values(|s: RemoteSpec| (s.name@, s.path@))
}

pub open spec fn not_a_pair(raw: Seq<char>) -> DiagnosticView {
    DiagnosticView::error("'"@ + raw + "' is not NAME=PATH"@).help(
        "example: --remote drive=/Volumes/Drive/Backups"@,
    )
}

pub open spec fn given_twice(name: Seq<char>) -> DiagnosticView {
    DiagnosticView::error("'"@ + name + "' is given more than once in --remote"@)
}

/// The remotes that the first `n` of some `NAME=PATH` name, or what is wrong with the first bad
/// one.
pub open spec fn specs_of(raws: Seq<Seq<char>>, n: int) -> Result<
    Seq<(Seq<char>, Seq<char>)>,
    DiagnosticView,
>
    decreases n,
{
    if n <= 0 {
        Ok(Seq::empty())
    } else {
        match specs_of(raws, n - 1) {
            Err(d) => Err(d),
            Ok(before) => match text::split_first(raws[n - 1], '=') {
                None => Err(not_a_pair(raws[n - 1])),
                Some((name, path)) => if !names::is_slug(name) {
                    Err(remote::not_a_remote_name(name))
                } else if spec_names(before).contains(name) {
                    Err(given_twice(name))
                } else {
                    Ok(before.push((name, path)))
                },
            },
        }
    }
}

proof fn lemma_specs_fail(raws: Seq<Seq<char>>, n: int, m: int)
    requires
        0 <= n <= m,
        specs_of(raws, n) is Err,
    ensures
        specs_of(raws, m) == specs_of(raws, n),
    decreases m - n,
{
    if n < m {
        lemma_specs_fail(raws, n, m - 1);
    }
}

fn read_specs(raws: &[String]) -> (out: Result<Vec<RemoteSpec>, Diagnostic>)
    ensures
        match out {
            Ok(specs) => specs_of(text::views(raws@), raws@.len() as int) == Ok::<
                Seq<(Seq<char>, Seq<char>)>,
                DiagnosticView,
            >(spec_views(specs@)),
            Err(d) => specs_of(text::views(raws@), raws@.len() as int) == Err::<
                Seq<(Seq<char>, Seq<char>)>,
                DiagnosticView,
            >(d@),
        },
{
    let ghost all = text::views(raws@);
    let mut specs: Vec<RemoteSpec> = Vec::new();
    assert(spec_views(specs@) =~= Seq::empty());
    let mut i: usize = 0;
    while i < raws.len()
        invariant
            i <= raws@.len(),
            all == text::views(raws@),
            specs_of(all, i as int) == Ok::<Seq<(Seq<char>, Seq<char>)>, DiagnosticView>(
                spec_views(specs@),
            ),
        decreases raws@.len() - i,
    {
        assert(all[i as int] == raws@[i as int]@);
        let ghost before = spec_views(specs@);
        match next_spec(&raws[i], &specs) {
            Ok(spec) => {
                specs.push(spec);
                assert(spec_views(specs@) =~= before.push((spec.name@, spec.path@)));
            },
            Err(d) => {
                proof {
                    assert(specs_of(all, i + 1) == Err::<
                        Seq<(Seq<char>, Seq<char>)>,
                        DiagnosticView,
                    >(d@));
                    lemma_specs_fail(all, i + 1, raws@.len() as int);
                }
                return Err(d);
            },
        }
        i += 1;
    }
    Ok(specs)
}

fn next_spec(raw: &str, specs: &[RemoteSpec]) -> (out: Result<RemoteSpec, Diagnostic>)
    ensures
        match text::split_first(raw@, '=') {
            None => out matches Err(d) && d@ == not_a_pair(raw@),
            Some((name, path)) => if !names::is_slug(name) {
                out matches Err(d) && d@ == remote::not_a_remote_name(name)
            } else if spec_names(spec_views(specs@)).contains(name) {
                out matches Err(d) && d@ == given_twice(name)
            } else {
                out matches Ok(spec) && spec.name@ == name && spec.path@ == path
            },
        },
{
    let (name, path) = match split_once(raw, '=') {
        Some(pair) => pair,
        None => return Err(
            Diagnostic::error(&cat3("'", raw, "' is not NAME=PATH")).help(
                "example: --remote drive=/Volumes/Drive/Backups",
            ),
        ),
    };
    match remote_name(&name) {
        Ok(_) => {},
        Err(d) => return Err(d),
    }
    if has_spec(specs, &name) {
        return Err(
            Diagnostic::error(&cat3("'", &name, "' is given more than once in --remote")),
        );
    }
    Ok(RemoteSpec { name, path })
}

fn has_spec(specs: &[RemoteSpec], name: &str) -> (out: bool)
    ensures
        out == spec_names(spec_views(specs@)).contains(name@),
{
    let ghost names = spec_names(spec_views(specs@));
    let mut i: usize = 0;
    while i < specs.len()
        invariant
            i <= specs@.len(),
            names == spec_names(spec_views(specs@)),
            forall|k: int| 0 <= k < i ==> #[trigger] names[k] != name@,
        decreases specs@.len() - i,
    {
        assert(names[i as int] == specs@[i as int].name@);
        if same(&specs[i].name, name) {
            return true;
        }
        i += 1;
    }
    false
}

/// The first of some names that is none of the remotes', where there is one.
pub open spec fn first_stray(names: Seq<Seq<char>>, wanted: Seq<Seq<char>>) -> Option<Seq<char>>
    decreases wanted.len(),
{
    if wanted.len() == 0 {
        None
    } else if !names.contains(wanted[0]) {
        Some(wanted[0])
    } else {
        first_stray(names, wanted.skip(1))
    }
}

pub open spec fn stray(name: Seq<char>) -> DiagnosticView {
    DiagnosticView::error("'"@ + name + "' does not match any --remote NAME=PATH given"@).help(
        "the name before '=' in --remote is what --optional and --trust-ownership refer to"@,
    )
}

fn no_stray(specs: &[RemoteSpec], wanted: &[String]) -> (out: Result<(), Diagnostic>)
    ensures
        match first_stray(spec_names(spec_views(specs@)), text::views(wanted@)) {
            None => out is Ok,
            Some(name) => out matches Err(d) && d@ == stray(name),
        },
{
    let ghost names = spec_names(spec_views(specs@));
    let ghost all = text::views(wanted@);
    let mut i: usize = 0;
    assert(all.skip(0) =~= all);
    while i < wanted.len()
        invariant
            i <= wanted@.len(),
            names == spec_names(spec_views(specs@)),
            all == text::views(wanted@),
            first_stray(names, all) == first_stray(names, all.skip(i as int)),
        decreases wanted@.len() - i,
    {
        assert(all.skip(i as int)[0] == wanted@[i as int]@);
        assert(all.skip(i as int).skip(1) =~= all.skip(i + 1));
        let name = wanted[i].as_str();
        if !has_spec(specs, name) {
            return Err(
                Diagnostic::error(
                    &cat3("'", name, "' does not match any --remote NAME=PATH given"),
                ).help(
                    "the name before '=' in --remote is what --optional and --trust-ownership refer to",
                ),
            );
        }
        i += 1;
    }
    Ok(())
}

pub open spec fn not_a_profile_name(name: Seq<char>) -> DiagnosticView {
    DiagnosticView::error("'"@ + name + "' is not a valid profile name"@).note(
        names::profile_fault(name),
    )
}

pub open spec fn exactly_one(name: Seq<char>, both: bool) -> DiagnosticView {
    DiagnosticView::error(
        "profile add needs exactly one of --remote or --local-only"@,
    ).note(
        if both {
            "both --remote and --local-only were given"@
        } else {
            "neither --remote nor --local-only was given"@
        },
    ).help(
        "a profile with neither fails `config check`: it would have nowhere to send its backups and nothing marking that as deliberate"@,
    ).recovery(
        "tycho profile add "@ + name + " --remote drive=/Volumes/Drive/Backups"@,
    ).recovery("tycho profile add "@ + name + " --local-only"@)
}

pub open spec fn not_a_schedule(given: Seq<char>, reason: Seq<char>) -> DiagnosticView {
    DiagnosticView::error("'"@ + given + "' is not a schedule"@).note(reason).help(
        "accepted forms: daily:HH:MM, weekly:<weekday>:HH:MM, every:<N>h, every:<N>m"@,
    )
}

/// What `--schedule` says, where it was given.
pub open spec fn schedule_given(given: Option<Seq<char>>) -> Result<
    Option<Schedule>,
    DiagnosticView,
> {
    match given {
        None => Ok(None),
        Some(spec) => match schedule::schedule_of(spec) {
            Ok(wanted) => Ok(Some(wanted)),
            Err(reason) => Err(not_a_schedule(spec, reason)),
        },
    }
}

/// What is wrong with what `profile add` was given, where something is, found in this order: the
/// name, where the backups go, each remote, the names the flags refer to, and the schedule.
pub open spec fn add_fault(args: ProfileAddArgs) -> Option<DiagnosticView> {
    let raws = text::views(args.remote@);
    if !names::is_profile_name(args.name@) {
        Some(not_a_profile_name(args.name@))
    } else if (raws.len() > 0) == args.local_only {
        Some(exactly_one(args.name@, raws.len() > 0))
    } else {
        match specs_of(raws, raws.len() as int) {
            Err(d) => Some(d),
            Ok(specs) => match first_stray(spec_names(specs), text::views(args.optional@)) {
                Some(name) => Some(stray(name)),
                None => match first_stray(
                    spec_names(specs),
                    text::views(args.trust_ownership@),
                ) {
                    Some(name) => Some(stray(name)),
                    None => match schedule_given(text::view_opt(args.schedule)) {
                        Err(d) => Some(d),
                        Ok(_) => None,
                    },
                },
            },
        }
    }
}

/// Whether a remote is the one that a `NAME=PATH` and the flags describe.
pub open spec fn described(
    new: NewRemote,
    spec: (Seq<char>, Seq<char>),
    optional: Seq<Seq<char>>,
    trusted: Seq<Seq<char>>,
) -> bool {
    &&& new.name@ == spec.0
    &&& new.path@ == spec.1
    &&& new.optional == optional.contains(spec.0)
    &&& new.trust_ownership == trusted.contains(spec.0)
    &&& new.behind_tolerance is None
}

/// Whether a profile is the one that `profile add` was given.
pub open spec fn asked_for(new: NewProfile, args: ProfileAddArgs) -> bool {
    let raws = text::views(args.remote@);
    match specs_of(raws, raws.len() as int) {
        Err(_) => false,
        Ok(specs) => {
            &&& new.name@ == args.name@
            &&& text::views(new.watch@) == text::views(args.watch@)
            &&& new.remotes@.len() == specs.len()
            &&& forall|i: int|
                0 <= i < specs.len() ==> #[trigger] described(
                    new.remotes@[i],
                    specs[i],
                    text::views(args.optional@),
                    text::views(args.trust_ownership@),
                )
            &&& schedule_given(text::view_opt(args.schedule)) == Ok::<
                Option<Schedule>,
                DiagnosticView,
            >(new.schedule)
            &&& new.local_only == args.local_only
        },
    }
}

fn contains(list: &[String], name: &str) -> (out: bool)
    ensures
        out == text::views(list@).contains(name@),
{
    let out = any_same(list, name);
    proof {
        let all = text::views(list@);
        if all.contains(name@) {
            let i = choose|i: int| 0 <= i < all.len() && all[i] == name@;
            assert(list@[i]@ == name@);
        }
        if out {
            let i = choose|i: int| 0 <= i < list@.len() && (#[trigger] list@[i])@ == name@;
            assert(all[i] == name@);
        }
    }
    out
}

fn new_remotes(specs: Vec<RemoteSpec>, optional: &[String], trusted: &[String]) -> (out: Vec<
    NewRemote,
>)
    ensures
        out@.len() == specs@.len(),
        forall|i: int|
            0 <= i < specs@.len() ==> #[trigger] described(
                out@[i],
                spec_views(specs@)[i],
                text::views(optional@),
                text::views(trusted@),
            ),
{
    let mut out: Vec<NewRemote> = Vec::new();
    let mut i: usize = 0;
    while i < specs.len()
        invariant
            i <= specs@.len(),
            out@.len() == i,
            forall|k: int|
                0 <= k < i ==> #[trigger] described(
                    out@[k],
                    spec_views(specs@)[k],
                    text::views(optional@),
                    text::views(trusted@),
                ),
        decreases specs@.len() - i,
    {
        let spec = &specs[i];
        let new = NewRemote {
            name: spec.name.clone(),
            path: spec.path.clone(),
            optional: contains(optional, &spec.name),
            trust_ownership: contains(trusted, &spec.name),
            behind_tolerance: None,
        };
        assert(spec_views(specs@)[i as int] == (spec.name@, spec.path@));
        assert(described(
            new,
            spec_views(specs@)[i as int],
            text::views(optional@),
            text::views(trusted@),
        ));
        out.push(new);
        i += 1;
    }
    out
}

/// The profile that `profile add` was given, before any file is touched.
///
/// # Errors
///
/// If what it was given describes none.
pub fn wanted_profile(args: &ProfileAddArgs) -> (out: Result<NewProfile, Diagnostic>)
    ensures
        match add_fault(*args) {
            Some(d) => out matches Err(e) && e@ == d,
            None => out matches Ok(new) && asked_for(new, *args),
        },
{
    let raw_name = args.name.as_str();
    match ProfileName::parse(raw_name) {
        Ok(_) => {},
        Err(reason) => {
            proof {
                if !(reason is Reserved) {
                    names::lemma_slug_fault(raw_name@, reason);
                } else if !names::is_slug(raw_name@) {
                    names::lemma_slug_fault(raw_name@, reason);
                }
            }
            return Err(
                Diagnostic::error(&cat3("'", raw_name, "' is not a valid profile name")).note(
                    &reason.text(),
                ),
            );
        },
    }
    assert(text::views(args.remote@).len() == args.remote@.len());
    let has_remote = args.remote.len() > 0;
    if has_remote == args.local_only {
        let detail = if has_remote {
            "both --remote and --local-only were given"
        } else {
            "neither --remote nor --local-only was given"
        };
        return Err(
            Diagnostic::error(
                "profile add needs exactly one of --remote or --local-only",
            ).note(detail).help(
                "a profile with neither fails `config check`: it would have nowhere to send its backups and nothing marking that as deliberate",
            ).recovery(
                &cat3(
                    "tycho profile add ",
                    raw_name,
                    " --remote drive=/Volumes/Drive/Backups",
                ),
            ).recovery(&cat3("tycho profile add ", raw_name, " --local-only")),
        );
    }
    let specs = match read_specs(&args.remote) {
        Ok(specs) => specs,
        Err(d) => return Err(d),
    };
    match no_stray(&specs, &args.optional) {
        Ok(()) => {},
        Err(d) => return Err(d),
    }
    match no_stray(&specs, &args.trust_ownership) {
        Ok(()) => {},
        Err(d) => return Err(d),
    }
    let wanted = match &args.schedule {
        Some(given) => match Schedule::parse(given) {
            Ok(wanted) => Some(wanted),
            Err(reason) => return Err(schedule_refused(given, &reason)),
        },
        None => None,
    };
    let ghost views = spec_views(specs@);
    let remotes = new_remotes(specs, &args.optional, &args.trust_ownership);
    Ok(
        NewProfile {
            name: raw_name.to_owned(),
            watch: copy_strings(&args.watch),
            remotes,
            schedule: wanted,
            local_only: args.local_only,
        },
    )
}

pub(crate) fn schedule_refused(given: &str, reason: &str) -> (out: Diagnostic)
    ensures
        out@ == not_a_schedule(given@, reason@),
{
    Diagnostic::error(&cat3("'", given, "' is not a schedule")).note(reason).help(
        "accepted forms: daily:HH:MM, weekly:<weekday>:HH:MM, every:<N>h, every:<N>m",
    )
}

/// What the ownership checks of the first `n` remotes say, and what they come to: `None` once
/// one of them refuses, and nothing after it is looked at.
pub open spec fn ownerships(
    remotes: Seq<NewRemote>,
    probes: Seq<Option<Result<bool, String>>>,
    n: int,
) -> (Seq<DiagnosticView>, Option<Exit>)
    decreases n,
{
    if n <= 0 {
        (Seq::empty(), Some(Exit::Success))
    } else {
        let (said, floor) = ownerships(remotes, probes, n - 1);
        match floor {
            None => (said, None),
            Some(floor) => {
                let new = remotes[n - 1];
                match remote::ownership(new.name@, new.path@, new.trust_ownership, probes[n - 1]) {
                    Ok(None) => (said, Some(floor)),
                    Ok(Some(d)) => (
                        said.push(d),
                        Some(crate::cli::run::worse_of(floor, Exit::Warning)),
                    ),
                    Err(d) => (said.push(d), None),
                }
            },
        }
    }
}

proof fn lemma_ownerships_stop(
    remotes: Seq<NewRemote>,
    probes: Seq<Option<Result<bool, String>>>,
    n: int,
    m: int,
)
    requires
        0 <= n <= m,
        ownerships(remotes, probes, n).1 is None,
    ensures
        ownerships(remotes, probes, m) == ownerships(remotes, probes, n),
    decreases m - n,
{
    if n < m {
        lemma_ownerships_stop(remotes, probes, n, m - 1);
    }
}

fn check_all(remotes: &[NewRemote], probes: &[Option<Result<bool, String>>]) -> (out: Adding)
    requires
        probes@.len() == remotes@.len(),
    ensures
        (report::diagnostic_views(out.said@), out.floor) == ownerships(
            remotes@,
            probes@,
            remotes@.len() as int,
        ),
{
    let mut said: Vec<Diagnostic> = Vec::new();
    assert(report::diagnostic_views(said@) =~= Seq::empty());
    let mut floor = Exit::Success;
    let mut i: usize = 0;
    while i < remotes.len()
        invariant
            i <= remotes@.len(),
            probes@.len() == remotes@.len(),
            ownerships(remotes@, probes@, i as int) == (
                report::diagnostic_views(said@),
                Some(floor),
            ),
        decreases remotes@.len() - i,
    {
        let new = &remotes[i];
        match check_ownership(&new.name, &new.path, new.trust_ownership, &probes[i]) {
            Ok(None) => {},
            Ok(Some(d)) => {
                say(&mut said, d);
                floor = worse(floor, Exit::Warning);
            },
            Err(d) => {
                say(&mut said, d);
                proof {
                    lemma_ownerships_stop(remotes@, probes@, i + 1, remotes@.len() as int);
                }
                return Adding { said, floor: None };
            },
        }
        i += 1;
    }
    Adding { said, floor: Some(floor) }
}

/// The file with a profile behind the others, or what refuses it.
pub open spec fn with_profile(root: Table, new: Table) -> Result<Table, EditFault> {
    if !root.dom().contains("profile"@) {
        Ok(document::with_tables(root, seq![new]))
    } else {
        match document::tables_in(root) {
            Some(tables) => Ok(document::with_tables(root, tables.push(new))),
            None => Err(EditFault::NoProfiles),
        }
    }
}

pub open spec fn already_exists(name: Seq<char>) -> DiagnosticView {
    DiagnosticView::error("'"@ + name + "' already exists"@).at(
        LocationView::Profile(name),
    ).recovery_with("tycho profile list"@, "names every profile in this file"@)
}

/// Adds a profile to the file, where nothing refuses it. A dry run leaves the file alone:
/// [`preview_profile`] is what it prints.
pub fn add_profile(
    editing: &mut Editing,
    new: &NewProfile,
    probes: &[Option<Result<bool, String>>],
    dry_run: bool,
) -> (out: Adding)
    requires
        probes@.len() == new.remotes@.len(),
    ensures
        final(editing).file() == old(editing).file(),
        ({
            let said = report::diagnostic_views(out.said@);
            let checked = ownerships(new.remotes@, probes@, new.remotes@.len() as int);
            if config_edit::profile_names(old(editing).root()).contains(new.name@) {
                &&& out.floor is None
                &&& said == seq![already_exists(new.name@)]
                &&& final(editing).document() == old(editing).document()
            } else if checked.1 is None || dry_run {
                &&& (said, out.floor) == checked
                &&& final(editing).document() == old(editing).document()
            } else {
                match with_profile(old(editing).root(), config_edit::profile_table(*new)) {
                    Ok(root) => (said, out.floor) == checked && final(editing).root() == root
                        && final(editing).document() == config_edit::profile_added(
                        old(editing).document(),
                        *new,
                    ),
                    Err(fault) => out.floor is None && said == checked.0.push(
                        DiagnosticView::error(fault.message()),
                    ) && final(editing).document() == old(editing).document(),
                }
            }
        }),
{
    let existing = editing.profiles();
    let name = new.name.as_str();
    if contains(&existing, name) {
        return refused(
            Diagnostic::error(&cat3("'", name, "' already exists")).location(
                at_profile(name),
            ).recovery_with("tycho profile list", "names every profile in this file"),
        );
    }
    let checked = check_all(&new.remotes, probes);
    if dry_run {
        return checked;
    }
    match checked.floor {
        None => return checked,
        Some(_) => {},
    }
    match editing.add_profile(new) {
        Ok(()) => checked,
        Err(error) => {
            let mut said = checked.said;
            say(&mut said, Diagnostic::error(&error.text()));
            Adding { said, floor: None }
        },
    }
}

// ---------------------------------------------------------------------------
// Remove
// ---------------------------------------------------------------------------

pub open spec fn only_profile(name: Seq<char>) -> DiagnosticView {
    DiagnosticView::error("'"@ + name + "' is the only profile in this file"@).at(
        LocationView::Profile(name),
    ).note(
        "a config with no profiles fails `config check`, and this tool refuses to leave one behind"@,
    ).recovery_with(
        "tycho profile add <name> --local-only"@,
        "add a replacement first, if you want one"@,
    )
}

pub open spec fn store_in_question(name: Seq<char>, shown: Seq<char>) -> DiagnosticView {
    DiagnosticView::error("'"@ + name + "' has a local store at "@ + shown).at(
        LocationView::Profile(name),
    ).note(
        "removing the profile never touches a remote's own copy - every remote keeps its own '"@
            + name + ".git', only this machine's local store is in question"@,
    ).recovery_with(
        "tycho profile rm "@ + name + " --keep-store"@,
        "leave the local store on disk"@,
    ).recovery_with("tycho profile rm "@ + name + " --delete-store"@, "delete it, permanently"@)
}

/// Which profile to remove and whether its store goes with it, or what to say instead. The last
/// profile never goes, and a store is never left or deleted without the word for it.
pub open spec fn profile_removal(
    root: Table,
    rm: ProfileRmArgs,
    store: Option<Seq<char>>,
) -> Result<(int, bool), DiagnosticView> {
    match remote::aimed(root, Some(rm.name@)) {
        Err(d) => Err(d),
        Ok(index) => if config_edit::profile_names(root).len() <= 1 {
            Err(only_profile(rm.name@))
        } else {
            match store {
                Some(shown) => if !rm.keep_store && !rm.delete_store {
                    Err(store_in_question(rm.name@, shown))
                } else {
                    Ok((index, rm.delete_store))
                },
                None => Ok((index, false)),
            }
        },
    }
}

/// What `profile rm` may do, given where the local store is, where there is one: the profile's
/// index, and whether the store is deleted first.
///
/// # Errors
///
/// If there is no such profile, it is the only one, or nothing said what becomes of its store.
pub fn remove_profile(editing: &Editing, rm: &ProfileRmArgs, store: Option<&str>) -> (out: Result<
    (usize, bool),
    Diagnostic,
>)
    ensures
        match profile_removal(
            editing.root(),
            *rm,
            crate::primitives::path::view_str_opt(store),
        ) {
            Ok((index, delete)) => out matches Ok((i, d)) && i == index && d == delete,
            Err(d) => out matches Err(e) && e@ == d,
        },
{
    let name = rm.name.as_str();
    let index = match remote::open(editing, Some(name)) {
        Ok(index) => index,
        Err(d) => return Err(d),
    };
    let existing = editing.profiles();
    assert(text::views(existing@).len() == existing@.len());
    if existing.len() <= 1 {
        return Err(
            Diagnostic::error(&cat3("'", name, "' is the only profile in this file")).location(
                at_profile(name),
            ).note(
                "a config with no profiles fails `config check`, and this tool refuses to leave one behind",
            ).recovery_with(
                "tycho profile add <name> --local-only",
                "add a replacement first, if you want one",
            ),
        );
    }
    match store {
        Some(shown) => {
            if !rm.keep_store && !rm.delete_store {
                return Err(
                    Diagnostic::error(
                        &cat4("'", name, "' has a local store at ", shown),
                    ).location(at_profile(name)).note(
                        &cat3(
                            "removing the profile never touches a remote's own copy - every remote keeps its own '",
                            name,
                            ".git', only this machine's local store is in question",
                        ),
                    ).recovery_with(
                        &cat3("tycho profile rm ", name, " --keep-store"),
                        "leave the local store on disk",
                    ).recovery_with(
                        &cat3("tycho profile rm ", name, " --delete-store"),
                        "delete it, permanently",
                    ),
                );
            }
            Ok((index, rm.delete_store))
        },
        None => Ok((index, false)),
    }
}

/// What deleting the store came to: a line to print, or what to say.
///
/// # Errors
///
/// If it could not be deleted.
pub fn store_deleted(shown: &str, outcome: Result<(), String>) -> (out: Result<String, Diagnostic>)
    ensures
        match outcome {
            Ok(()) => out matches Ok(line) && line@ == "deleted        "@ + shown@ + "\n"@,
            Err(error) => out matches Err(d) && d@ == DiagnosticView::error(
                "removing the store at "@ + shown@ + ": "@ + error@,
            ),
        },
{
    match outcome {
        Ok(()) => Ok(cat3("deleted        ", shown, "\n")),
        Err(error) => Err(
            Diagnostic::error(&cat4("removing the store at ", shown, ": ", &error)),
        ),
    }
}

// ---------------------------------------------------------------------------
// Laws
// ---------------------------------------------------------------------------

/// A profile is added only with somewhere for its backups to go, or the word that they stay.
pub proof fn an_added_profile_has_a_destination(args: ProfileAddArgs, new: NewProfile)
    requires
        add_fault(args) is None,
        asked_for(new, args),
    ensures
        new.local_only <==> new.remotes@.len() == 0,
{
    lemma_specs_len(text::views(args.remote@), args.remote@.len() as int);
}

proof fn lemma_specs_len(raws: Seq<Seq<char>>, n: int)
    requires
        0 <= n <= raws.len(),
    ensures
        specs_of(raws, n) matches Ok(specs) ==> specs.len() == n,
    decreases n,
{
    if n > 0 {
        lemma_specs_len(raws, n - 1);
    }
}

/// No two of the remotes that are added at once share a name.
pub proof fn added_remotes_have_distinct_names(raws: Seq<Seq<char>>, n: int, i: int, j: int)
    requires
        0 <= n <= raws.len(),
        specs_of(raws, n) is Ok,
        0 <= i < j < specs_of(raws, n)->Ok_0.len(),
    ensures
        specs_of(raws, n)->Ok_0[i].0 != specs_of(raws, n)->Ok_0[j].0,
    decreases n,
{
    lemma_specs_len(raws, n);
    lemma_specs_len(raws, n - 1);
    let before = specs_of(raws, n - 1)->Ok_0;
    if j < n - 1 {
        added_remotes_have_distinct_names(raws, n - 1, i, j);
    } else {
        assert(spec_names(before)[i] == before[i].0);
    }
}

/// The last profile of a file never goes, and a store is deleted only on the word for it.
pub proof fn removal_is_guarded(root: Table, rm: ProfileRmArgs, store: Option<Seq<char>>)
    ensures
        config_edit::profile_names(root).len() <= 1 ==> profile_removal(root, rm, store) is Err,
        profile_removal(root, rm, store) matches Ok((_, delete)) ==> (delete ==> rm.delete_store
            && store is Some),
        profile_removal(root, rm, store) is Ok ==> (store is Some ==> rm.keep_store
            || rm.delete_store),
{
}

/// Each `NAME=PATH` is taken apart at its first `=`, in order, and accepted exactly where it has one,
/// its name is a word that can be a remote's, and no other before it has it.
pub proof fn each_pair_is_taken_apart(raws: Seq<Seq<char>>, n: int)
    requires
        0 <= n <= raws.len(),
    ensures
        specs_of(raws, n) matches Ok(specs) ==> specs.len() == n && forall|i: int|
            0 <= i < n ==> raws[i] == (#[trigger] specs[i]).0 + seq!['='] + specs[i].1
                && !specs[i].0.contains('=') && names::is_slug(specs[i].0),
        specs_of(raws, n) is Err ==> exists|i: int|
            0 <= i < n && (!(#[trigger] raws[i]).contains('=') || !names::is_slug(
                raws[i].take(text::position(raws[i], '=')),
            ) || exists|j: int|
                0 <= j < i && (#[trigger] raws[j]).take(text::position(raws[j], '='))
                    == raws[i].take(text::position(raws[i], '='))),
    decreases n,
{
    if n > 0 {
        each_pair_is_taken_apart(raws, n - 1);
        let raw = raws[n - 1];
        text::lemma_position_bounds(raw, '=');
        let at = text::position(raw, '=');
        if specs_of(raws, n - 1) is Ok {
            let before = specs_of(raws, n - 1)->Ok_0;
            if at == raw.len() {
                assert(!raw.contains('=')) by {
                    if raw.contains('=') {
                        let i = choose|i: int| 0 <= i < raw.len() && raw[i] == '=';
                        assert(raw[i] != '=');
                    }
                }
            } else {
                let name = raw.take(at);
                assert(raw =~= name + seq!['='] + raw.skip(at + 1));
                assert(!name.contains('=')) by {
                    if name.contains('=') {
                        let i = choose|i: int| 0 <= i < name.len() && name[i] == '=';
                        assert(raw[i] != '=');
                    }
                }
                if spec_names(before).contains(name) {
                    let j = choose|j: int|
                        0 <= j < spec_names(before).len() && spec_names(before)[j] == name;
                    assert(before[j].0 == name);
                    lemma_at_equals(raws[j], before[j].0, before[j].1);
                    assert(raws[j].take(text::position(raws[j], '=')) == name);
                }
            }
        }
    }
}

proof fn lemma_at_equals(raw: Seq<char>, name: Seq<char>, rest: Seq<char>)
    requires
        raw == name + seq!['='] + rest,
        !name.contains('='),
    ensures
        raw.take(text::position(raw, '=')) == name,
{
    assert forall|i: int| 0 <= i < name.len() implies raw[i] != '=' by {
        assert(raw[i] == name[i]);
        if name[i] == '=' {
            assert(name.contains('='));
        }
    }
    text::lemma_position(raw, '=', name.len() as int);
    assert(raw.take(name.len() as int) =~= name);
}

/// A flag may name only remotes that are added with it, and the first that is none of them is the
/// one complained of.
pub proof fn the_first_stray_is_named(names: Seq<Seq<char>>, wanted: Seq<Seq<char>>)
    ensures
        match first_stray(names, wanted) {
            Some(name) => exists|i: int|
                0 <= i < wanted.len() && #[trigger] wanted[i] == name && !names.contains(name)
                    && forall|j: int| 0 <= j < i ==> names.contains(#[trigger] wanted[j]),
            None => forall|i: int| 0 <= i < wanted.len() ==> names.contains(#[trigger] wanted[i]),
        },
    decreases wanted.len(),
{
    if wanted.len() > 0 {
        if !names.contains(wanted[0]) {
            assert(wanted[0] == first_stray(names, wanted)->0);
        } else {
            let rest = wanted.skip(1);
            the_first_stray_is_named(names, rest);
            match first_stray(names, rest) {
                Some(name) => {
                    let i = choose|i: int|
                        0 <= i < rest.len() && #[trigger] rest[i] == name && !names.contains(name)
                            && forall|j: int| 0 <= j < i ==> names.contains(#[trigger] rest[j]);
                    assert(wanted[i + 1] == name);
                    assert forall|j: int| 0 <= j < i + 1 implies names.contains(
                        #[trigger] wanted[j],
                    ) by {
                        if j > 0 {
                            assert(rest[j - 1] == wanted[j]);
                        }
                    }
                },
                None => {
                    assert forall|i: int| 0 <= i < wanted.len() implies names.contains(
                        #[trigger] wanted[i],
                    ) by {
                        if i > 0 {
                            assert(rest[i - 1] == wanted[i]);
                        }
                    }
                },
            }
        }
    }
}

/// What `profile add` is given is accepted exactly where its name can be one, it goes to remotes or
/// stays here but not both, every pair and every flag is good, and its schedule can be read.
pub proof fn a_profile_is_added_where_nothing_is_wrong(args: ProfileAddArgs)
    ensures
        add_fault(args) is None <==> {
            let raws = text::views(args.remote@);
            let specs = specs_of(raws, raws.len() as int);
            &&& names::is_profile_name(args.name@)
            &&& (raws.len() == 0) == args.local_only
            &&& specs is Ok
            &&& forall|i: int|
                0 <= i < args.optional@.len() ==> spec_names(specs->Ok_0).contains(
                    (#[trigger] args.optional@[i])@,
                )
            &&& forall|i: int|
                0 <= i < args.trust_ownership@.len() ==> spec_names(specs->Ok_0).contains(
                    (#[trigger] args.trust_ownership@[i])@,
                )
            &&& args.schedule matches Some(given) ==> schedule::schedule_of(given@) is Ok
        },
{
    let raws = text::views(args.remote@);
    if let Ok(specs) = specs_of(raws, raws.len() as int) {
        let names = spec_names(specs);
        lemma_all_named(names, args.optional@);
        lemma_all_named(names, args.trust_ownership@);
    }
}

proof fn lemma_all_named(names: Seq<Seq<char>>, wanted: Seq<String>)
    ensures
        first_stray(names, text::views(wanted)) is None <==> forall|i: int|
            0 <= i < wanted.len() ==> names.contains((#[trigger] wanted[i])@),
{
    let all = text::views(wanted);
    the_first_stray_is_named(names, all);
    if first_stray(names, all) is None {
        assert forall|i: int| 0 <= i < wanted.len() implies names.contains(
            (#[trigger] wanted[i])@,
        ) by {
            assert(names.contains(all[i]));
        }
    } else {
        let name = first_stray(names, all)->0;
        let i = choose|i: int|
            0 <= i < all.len() && #[trigger] all[i] == name && !names.contains(name) && forall|
                j: int,
            |
                0 <= j < i ==> names.contains(#[trigger] all[j]);
        assert(wanted[i]@ == name);
    }
}

/// A profile goes behind the others of a file, which stay as they are.
pub proof fn a_profile_goes_behind_the_others(root: Table, new: Table)
    ensures
        with_profile(root, new) matches Ok(after) ==> {
            let before = if root.dom().contains("profile"@) {
                document::tables_in(root)->0
            } else {
                Seq::empty()
            };
            &&& document::tables_in(after) == Some(before.push(new))
            &&& forall|top: Seq<char>|
                top != "profile"@ && root.dom().contains(top) ==> #[trigger] after[top] == root[top]
        },
        with_profile(root, new) is Err <==> root.dom().contains("profile"@)
            && document::tables_in(root) is None,
{
    if !root.dom().contains("profile"@) {
        assert(Seq::<Table>::empty().push(new) =~= seq![new]);
    }
}

/// A profile is removed exactly where it is named, it is not the last, and its store, where it has
/// one, is spoken for; the store goes only on the word for it.
pub proof fn a_profile_is_removed_on_the_word(
    root: Table,
    rm: ProfileRmArgs,
    store: Option<Seq<char>>,
)
    ensures
        profile_removal(root, rm, store) is Ok <==> config_edit::profile_names(root).contains(
            rm.name@,
        ) && config_edit::profile_names(root).len() > 1 && (store is None || rm.keep_store
            || rm.delete_store),
        profile_removal(root, rm, store) matches Ok((index, delete)) ==> config_edit::profile_names(
            root,
        )[index] == rm.name@ && delete == (store is Some && rm.delete_store),
{
    config_edit::a_profile_is_meant_by_its_name(config_edit::profile_names(root), rm.name@);
}

/// The remotes of an added profile are those of its pairs, in their order, each optional or trusted
/// exactly where a flag names it.
pub proof fn an_added_profile_has_its_remotes(new: NewProfile, args: ProfileAddArgs, i: int)
    requires
        asked_for(new, args),
        0 <= i < args.remote@.len(),
    ensures
        new.remotes@.len() == args.remote@.len(),
        args.remote@[i]@ == new.remotes@[i].name@ + seq!['='] + new.remotes@[i].path@,
        new.remotes@[i].optional <==> exists|k: int|
            0 <= k < args.optional@.len() && (#[trigger] args.optional@[k])@
                == new.remotes@[i].name@,
        new.remotes@[i].trust_ownership <==> exists|k: int|
            0 <= k < args.trust_ownership@.len() && (#[trigger] args.trust_ownership@[k])@
                == new.remotes@[i].name@,
        new.name@ == args.name@,
{
    let raws = text::views(args.remote@);
    let specs = specs_of(raws, raws.len() as int)->Ok_0;
    each_pair_is_taken_apart(raws, raws.len() as int);
    let optional = text::views(args.optional@);
    let trusted = text::views(args.trust_ownership@);
    assert(described(new.remotes@[i], specs[i], optional, trusted));
    assert(raws[i] == args.remote@[i]@);
    assert(raws[i] == specs[i].0 + seq!['='] + specs[i].1);
    let name = specs[i].0;
    if optional.contains(name) {
        let k = choose|k: int| 0 <= k < optional.len() && optional[k] == name;
        assert(args.optional@[k]@ == name);
    }
    if exists|k: int| 0 <= k < args.optional@.len() && (#[trigger] args.optional@[k])@ == name {
        let k = choose|k: int|
            0 <= k < args.optional@.len() && (#[trigger] args.optional@[k])@ == name;
        assert(optional[k] == name);
    }
    if trusted.contains(name) {
        let k = choose|k: int| 0 <= k < trusted.len() && trusted[k] == name;
        assert(args.trust_ownership@[k]@ == name);
    }
    if exists|k: int|
        0 <= k < args.trust_ownership@.len() && (#[trigger] args.trust_ownership@[k])@ == name {
        let k = choose|k: int|
            0 <= k < args.trust_ownership@.len() && (#[trigger] args.trust_ownership@[k])@ == name;
        assert(trusted[k] == name);
    }
}

/// One refused ownership refuses the whole addition; short of that, one that could not be checked
/// leaves a warning.
pub proof fn one_refused_ownership_refuses_all(
    remotes: Seq<NewRemote>,
    probes: Seq<Option<Result<bool, String>>>,
    n: int,
)
    requires
        0 <= n <= remotes.len(),
        probes.len() == remotes.len(),
    ensures
        ownerships(remotes, probes, n).1 is None <==> exists|i: int|
            0 <= i < n && remote::ownership(
                (#[trigger] remotes[i]).name@,
                remotes[i].path@,
                remotes[i].trust_ownership,
                probes[i],
            ) is Err,
        ownerships(remotes, probes, n).1 == Some(Exit::Success) <==> forall|i: int|
            0 <= i < n ==> (#[trigger] remotes[i]).trust_ownership || (probes[i] matches Some(found)
                && found matches Ok(records) && records),
    decreases n,
{
    if n > 0 {
        one_refused_ownership_refuses_all(remotes, probes, n - 1);
        let new = remotes[n - 1];
        remote::only_an_absent_volume_is_put_off(
            new.name@,
            new.path@,
            new.trust_ownership,
            probes[n - 1],
        );
        let here = remote::ownership(new.name@, new.path@, new.trust_ownership, probes[n - 1]);
        if here is Err {
            assert(remote::ownership(
                remotes[n - 1].name@,
                remotes[n - 1].path@,
                remotes[n - 1].trust_ownership,
                probes[n - 1],
            ) is Err);
        }
        if ownerships(remotes, probes, n).1 == Some(Exit::Success) {
            assert forall|i: int| 0 <= i < n implies (#[trigger] remotes[i]).trust_ownership || (
            probes[i] matches Some(found) && found matches Ok(records) && records) by {}
        }
        if forall|i: int|
            0 <= i < n ==> (#[trigger] remotes[i]).trust_ownership || (probes[i] matches Some(found)
                && found matches Ok(records) && records) {
            assert(remotes[n - 1].trust_ownership || (probes[n - 1] matches Some(found)
                && found matches Ok(records) && records));
        }
    }
}

} // verus!
