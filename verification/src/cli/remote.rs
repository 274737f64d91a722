//! `tycho remote`: list, add and remove a profile's destinations. Also what every command that
//! edits the config shares: opening the file, and reading it back once it is written.

use crate::cli::page::{Page, PageView};
use crate::cli::render;
use crate::cli::render::rule;
use crate::cli::report;
use crate::cli::report::{at_profile, at_remote, say, Diagnostic, DiagnosticView, LocationView};
use crate::cli::words;
use crate::cli::words::{clip, fit};
use crate::cli::{Exit, RemoteAddArgs, RemoteRmArgs};
use crate::config;
use crate::config::check;
use crate::config::Parsed;
use crate::config_edit;
use crate::config_edit::document;
use crate::config_edit::document::{Node, Table};
use crate::config_edit::{EditFault, Editing, NewRemote, RemoteEntry, RemoteEntryView};
use crate::primitives::names;
use crate::primitives::names::RemoteName;
use crate::primitives::path;
use crate::text;
use crate::text::{cat2, cat3, cat4, cat5, decimal, left, same};
use vstd::prelude::*;

pub use crate::cli::run::worse;

verus! {

// ---------------------------------------------------------------------------
// Opening the file
// ---------------------------------------------------------------------------

pub open spec fn no_config(shown: Seq<char>) -> DiagnosticView {
    DiagnosticView::error("no config file at "@ + shown).note(
        "a config file lists what to watch and where to send it; every command but `config init` needs one"@,
    ).recovery_with(
        "tycho config init"@,
        "writes a starter file, with a comment on each key"@,
    )
}

/// Opens the config file for an edit, given what reading it came to. `None` is no such file.
///
/// # Errors
///
/// If it is not there, could not be read, or is not TOML.
pub fn open_editing(shown: &str, read: Option<Result<String, String>>) -> (out: Result<
    Editing,
    Diagnostic,
>)
    ensures
        match read {
            None => out matches Err(d) && d@ == no_config(shown@),
            Some(Err(source)) => out matches Err(d) && d@ == DiagnosticView::error(
                "reading "@ + shown@ + ": "@ + source@,
            ),
            Some(Ok(text)) => match document::document_read(text@) {
                Ok(document) => out matches Ok(editing) && editing.document() == document
                    && editing.file() == shown@,
                Err(source) => out matches Err(d) && d@ == DiagnosticView::error(
                    (EditFault::Malformed { path: shown@, source }).message(),
                ),
            },
        },
{
    let read = match read {
        Some(read) => read,
        None => return Err(
            Diagnostic::error(&cat2("no config file at ", shown)).note(
                "a config file lists what to watch and where to send it; every command but `config init` needs one",
            ).recovery_with(
                "tycho config init",
                "writes a starter file, with a comment on each key",
            ),
        ),
    };
    match Editing::open(shown, read) {
        Ok(editing) => Ok(editing),
        Err(error) => Err(Diagnostic::error(&error.text())),
    }
}

/// Which profile of the file a command means.
pub open spec fn aimed(root: Table, wanted: Option<Seq<char>>) -> Result<int, DiagnosticView> {
    match config_edit::which_of(config_edit::profile_names(root), wanted) {
        Ok(index) => Ok(index),
        Err(fault) => Err(
            DiagnosticView::error(fault.message()).recovery_with(
                "tycho profile list"@,
                "names every profile in this file"@,
            ),
        ),
    }
}

/// Resolves which profile a command means.
///
/// # Errors
///
/// If it means none.
pub fn open(editing: &Editing, wanted: Option<&str>) -> (out: Result<usize, Diagnostic>)
    ensures
        match aimed(editing.root(), path::view_str_opt(wanted)) {
            Ok(index) => out matches Ok(i) && i == index,
            Err(d) => out matches Err(e) && e@ == d,
        },
{
    match editing.which(wanted) {
        Ok(index) => Ok(index),
        Err(error) => Err(
            Diagnostic::error(&error.text()).recovery_with(
                "tycho profile list",
                "names every profile in this file",
            ),
        ),
    }
}

// ---------------------------------------------------------------------------
// Reading it back
// ---------------------------------------------------------------------------

/// What an edit prints and says, and what it comes to.
#[derive(Debug, PartialEq, Eq)]
pub struct Edited {
    /// What was done, for the terminal.
    pub echo: String,
    /// What the file is now found to hold, for the error stream.
    pub findings: String,
    pub said: Vec<Diagnostic>,
    pub exit: Exit,
}

/// What was done to what.
pub open spec fn echo_text(verb: Seq<char>, value: Seq<char>) -> Seq<char> {
    text::padded_right(verb, 14) + " "@ + value + "\n"@
}

pub open spec fn unreadable_now(noted: bool) -> DiagnosticView {
    let said = DiagnosticView::error(
        "the file no longer parses, so the edit was written but cannot be read back"@,
    );
    let said = if noted {
        said.note(
            "the edit itself is on disk; what follows it in the file is what stopped parsing"@,
        )
    } else {
        said
    };
    said.recovery_with("tycho config path"@, "prints the file to open"@)
}

/// What a config that was read back comes to: the floor where nothing is wrong with it.
pub open spec fn read_back(parsed: Parsed, floor: Exit) -> Exit {
    if parsed.diagnostics@.len() == 0 {
        floor
    } else if config::any_error(parsed.diagnostics@) {
        crate::cli::run::worse_of(floor, Exit::Failure)
    } else {
        crate::cli::run::worse_of(floor, Exit::Warning)
    }
}

pub open spec fn findings_text(parsed: Parsed, colour: bool) -> Seq<char> {
    if parsed.diagnostics@.len() == 0 {
        ""@
    } else {
        "\n"@ + render::config_check_page(
            Seq::empty(),
            check::diag_views(parsed.diagnostics@),
        ).shown(colour)
    }
}

/// What an edit comes to.
pub open spec fn is_edited(
    out: Edited,
    file: Seq<char>,
    wrote: Result<(), String>,
    reread: Option<Parsed>,
    verb: Seq<char>,
    value: Seq<char>,
    floor: Exit,
    noted: bool,
    colour: bool,
) -> bool {
    match wrote {
        Err(source) => out.echo@ == ""@ && out.findings@ == ""@ && report::diagnostic_views(
            out.said@,
        ) == seq![
            DiagnosticView::error("writing "@ + file + ": "@ + source@),
        ] && out.exit == Exit::Failure,
        Ok(()) => out.echo@ == echo_text(verb, value) && match reread {
            None => out.findings@ == ""@ && report::diagnostic_views(out.said@) == seq![
                unreadable_now(noted),
            ] && out.exit == Exit::Failure,
            Some(parsed) => out.findings@ == findings_text(parsed, colour) && out.said@.len() == 0
                && out.exit == read_back(parsed, floor),
        },
    }
}

pub(crate) fn only(diagnostic: Diagnostic) -> (out: Vec<Diagnostic>)
    ensures
        report::diagnostic_views(out@) == seq![diagnostic@],
{
    let mut out: Vec<Diagnostic> = Vec::new();
    assert(report::diagnostic_views(out@) =~= Seq::empty());
    say(&mut out, diagnostic);
    assert(report::diagnostic_views(out@) =~= seq![diagnostic@]);
    out
}

/// Given what writing the file came to and what was read back, folds in whatever [`Exit`] the
/// caller had already earned - the ownership check's warning must not be lost under a clean
/// re-validation.
///
/// Checking afterwards rather than before is deliberate: the thing worth catching is
/// a rule that is legal TOML and wrong - a watched root that does not exist, a glob
/// that will match nothing - and only the resulting file can be checked for that.
pub fn finish(
    editing: &Editing,
    wrote: Result<(), String>,
    reread: Option<&Parsed>,
    verb: &str,
    value: &str,
    floor: Exit,
    noted: bool,
    colour: bool,
) -> (out: Edited)
    ensures
        is_edited(
            out,
            editing.file(),
            wrote,
            match reread {
                Some(parsed) => Some(*parsed),
                None => None,
            },
            verb@,
            value@,
            floor,
            noted,
            colour,
        ),
{
    match editing.save(wrote) {
        Ok(()) => {},
        Err(error) => return Edited {
            echo: "".to_owned(),
            findings: "".to_owned(),
            said: only(Diagnostic::error(&error.text())),
            exit: Exit::Failure,
        },
    }
    let echo = cat4(&left(verb, 14), " ", value, "\n");
    let parsed = match reread {
        Some(parsed) => parsed,
        None => {
            let said = Diagnostic::error(
                "the file no longer parses, so the edit was written but cannot be read back",
            );
            let said = if noted {
                said.note(
                    "the edit itself is on disk; what follows it in the file is what stopped parsing",
                )
            } else {
                said
            };
            let said = said.recovery_with("tycho config path", "prints the file to open");
            return Edited { echo, findings: "".to_owned(), said: only(said), exit: Exit::Failure };
        },
    };
    let said: Vec<Diagnostic> = Vec::new();
    if parsed.diagnostics.len() == 0 {
        return Edited { echo, findings: "".to_owned(), said, exit: floor };
    }
    let none: Vec<String> = Vec::new();
    assert(text::views(none@) =~= Seq::empty());
    let findings = cat2("\n", &render::config_check(&none, &parsed.diagnostics, colour));
    let found = if parsed.has_errors() {
        Exit::Failure
    } else {
        Exit::Warning
    };
    Edited { echo, findings, said, exit: worse(floor, found) }
}

// ---------------------------------------------------------------------------
// List
// ---------------------------------------------------------------------------

pub open spec fn flags_text(remote: RemoteEntryView) -> Seq<char> {
    if remote.optional && remote.trust_ownership {
        "optional,trust-ownership"@
    } else if remote.optional {
        "optional"@
    } else if remote.trust_ownership {
        "trust-ownership"@
    } else {
        "-"@
    }
}

pub open spec fn remote_line(p: PageView, remote: RemoteEntryView) -> PageView {
    p.put("  "@).put(text::padded_right(words::clipped(remote.name, 9), 10)).put(
        text::padded_right(words::fitted(remote.path, 31), 32),
    ).put(text::padded_right(flags_text(remote), 18)).line(
        match remote.behind_tolerance {
            Some(n) => text::decimal_text(n as nat),
            None => "4 (default)"@,
        },
    )
}

pub open spec fn remote_lines(p: PageView, remotes: Seq<RemoteEntryView>, n: int) -> PageView
    decreases n,
{
    if n <= 0 {
        p
    } else {
        remote_line(remote_lines(p, remotes, n - 1), remotes[n - 1])
    }
}

pub open spec fn list_page(remotes: Seq<RemoteEntryView>) -> PageView {
    let p = PageView::empty();
    if remotes.len() == 0 {
        p.line("no remotes, local only"@)
    } else {
        remote_lines(
            render::ruled(
                p.put(text::padded_right("name"@, 12)).put(text::padded_right("path"@, 32)).put(
                    text::padded_right("flags"@, 18),
                ).line("tolerance"@),
            ),
            remotes,
            remotes.len() as int,
        )
    }
}

fn put_line(page: &mut Page, remote: &RemoteEntry)
    ensures
        final(page)@ == remote_line(old(page)@, remote@),
{
    page.put("  ");
    page.put(&left(&clip(&remote.name, 9), 10));
    page.put(&left(&fit(&remote.path, 31), 32));
    let flags = if remote.optional && remote.trust_ownership {
        "optional,trust-ownership"
    } else if remote.optional {
        "optional"
    } else if remote.trust_ownership {
        "trust-ownership"
    } else {
        "-"
    };
    page.put(&left(flags, 18));
    match remote.behind_tolerance {
        Some(n) => page.line(&decimal(n as u64)),
        None => page.line("4 (default)"),
    }
}

/// Every remote on a profile.
#[must_use]
pub fn list(editing: &Editing, profile: usize) -> (out: String)
    ensures
        out@ == list_page(config_edit::remotes_in(editing.root(), profile as int)).shown(false),
{
    let remotes = editing.remotes(profile);
    let ghost all = config_edit::remotes_in(editing.root(), profile as int);
    assert(config_edit::remote_entry_views(remotes@).len() == remotes@.len());
    let mut page = Page::new();
    if remotes.len() == 0 {
        page.line("no remotes, local only");
        return page.show(false);
    }
    page.put(&left("name", 12));
    page.put(&left("path", 32));
    page.put(&left("flags", 18));
    page.line("tolerance");
    rule(&mut page);
    let ghost start = page@;
    let mut i: usize = 0;
    while i < remotes.len()
        invariant
            i <= remotes@.len(),
            all == config_edit::remote_entry_views(remotes@),
            page@ == remote_lines(start, all, i as int),
        decreases remotes@.len() - i,
    {
        assert(all[i as int] == remotes@[i as int]@);
        put_line(&mut page, &remotes[i]);
        i += 1;
    }
    page.show(false)
}

// ---------------------------------------------------------------------------
// Ownership
// ---------------------------------------------------------------------------

/// The closest ancestor of a path that is on disk, given for the path and each of its ancestors
/// in turn whether it is there. It is on the same volume.
pub fn nearest_existing(there: &[bool]) -> (out: Option<usize>)
    ensures
        match out {
            Some(i) => i < there@.len() && there@[i as int] && i == text::position(there@, true),
            None => !there@.contains(true),
        },
{
    let mut i: usize = 0;
    while i < there.len()
        invariant
            i <= there@.len(),
            forall|k: int| 0 <= k < i ==> !(#[trigger] there@[k]),
        decreases there@.len() - i,
    {
        if there[i] {
            proof {
                text::lemma_position(there@, true, i as int);
            }
            return Some(i);
        }
        i += 1;
    }
    None
}

pub open spec fn cannot_check(name: Seq<char>, shown: Seq<char>) -> DiagnosticView {
    DiagnosticView::warning("'"@ + name + "' cannot be checked for ownership yet"@).at(
        LocationView::Remote(name),
    ).note(
        "nothing along "@ + shown
            + " is present, so the volume cannot be inspected - the drive is most likely not plugged in"@,
    ).help("the first backup run will fail if that volume turns out to record none"@)
}

pub open spec fn records_none(name: Seq<char>, shown: Seq<char>) -> DiagnosticView {
    DiagnosticView::error("'"@ + name + "' is on a volume that records no ownership"@).at(
        LocationView::Remote(name),
    ).note(
        "git refuses a repository there unless it is told to trust it, and "@ + shown
            + " is exactly that kind of volume - exFAT, FAT32, or a drive mounted with ownership ignored"@,
    ).recovery("tycho remote add "@ + name + " "@ + shown + " --trust-ownership"@)
}

/// What an ownership check says: nothing, a warning, or a refusal.
pub open spec fn ownership(
    name: Seq<char>,
    shown: Seq<char>,
    trusted: bool,
    probe: Option<Result<bool, String>>,
) -> Result<Option<DiagnosticView>, DiagnosticView> {
    if trusted {
        Ok(None)
    } else {
        match probe {
            None => Ok(Some(cannot_check(name, shown))),
            Some(Ok(true)) => Ok(None),
            Some(Ok(false)) => Err(records_none(name, shown)),
            Some(Err(error)) => Err(
                DiagnosticView::error(
                    "could not check ownership for '"@ + name + "': "@ + error@,
                ).at(LocationView::Remote(name)),
            ),
        }
    }
}

pub open spec fn diagnostic_opt(d: Option<Diagnostic>) -> Option<DiagnosticView> {
    match d {
        Some(d) => Some(d@),
        None => None,
    }
}

/// Fails fast, at add time: refuses a remote whose volume git will refuse to trust,
/// before anything is written.
///
/// Saying so was the decision where the remote is trusted: there is nothing left to verify, and
/// warning anyway told people to pass the flag they had just passed.
///
/// The folder itself will not exist yet on first contact - Tycho creates it on the
/// first run - but ownership is a property of the **volume**, so the nearest
/// ancestor that does exist answers the same question. Only a path with no existing
/// ancestor at all is a drive that is not plugged in: then there is no probe.
///
/// # Errors
///
/// When the volume records no ownership and the remote is not trusted: nothing is written.
pub fn check_ownership(
    name: &str,
    shown: &str,
    trust_ownership: bool,
    probe: &Option<Result<bool, String>>,
) -> (out: Result<Option<Diagnostic>, Diagnostic>)
    ensures
        match out {
            Ok(d) => ownership(name@, shown@, trust_ownership, *probe) == Ok::<
                Option<DiagnosticView>,
                DiagnosticView,
            >(diagnostic_opt(d)),
            Err(d) => ownership(name@, shown@, trust_ownership, *probe) == Err::<
                Option<DiagnosticView>,
                DiagnosticView,
            >(d@),
        },
{
    if trust_ownership {
        return Ok(None);
    }
    match probe {
        None => Ok(
            Some(
                Diagnostic::warning(
                    &cat3("'", name, "' cannot be checked for ownership yet"),
                ).location(at_remote(name)).note(
                    &cat3(
                        "nothing along ",
                        shown,
                        " is present, so the volume cannot be inspected - the drive is most likely not plugged in",
                    ),
                ).help("the first backup run will fail if that volume turns out to record none"),
            ),
        ),
        Some(Ok(true)) => Ok(None),
        Some(Ok(false)) => Err(
            Diagnostic::error(
                &cat3("'", name, "' is on a volume that records no ownership"),
            ).location(at_remote(name)).note(
                &cat3(
                    "git refuses a repository there unless it is told to trust it, and ",
                    shown,
                    " is exactly that kind of volume - exFAT, FAT32, or a drive mounted with ownership ignored",
                ),
            ).recovery(&cat5("tycho remote add ", name, " ", shown, " --trust-ownership")),
        ),
        Some(Err(error)) => Err(
            Diagnostic::error(
                &cat4("could not check ownership for '", name, "': ", error),
            ).location(at_remote(name)),
        ),
    }
}

// ---------------------------------------------------------------------------
// Add and remove
// ---------------------------------------------------------------------------

pub open spec fn not_a_remote_name(name: Seq<char>) -> DiagnosticView {
    DiagnosticView::error("'"@ + name + "' is not a valid remote name"@).note(
        names::slug_fault(name),
    )
}

/// Reads a remote's name.
///
/// # Errors
///
/// If it is no name a remote can have.
pub(crate) fn remote_name(raw: &str) -> (out: Result<RemoteName, Diagnostic>)
    ensures
        match out {
            Ok(name) => names::is_slug(raw@) && name@ == raw@,
            Err(d) => !names::is_slug(raw@) && d@ == not_a_remote_name(raw@),
        },
{
    match RemoteName::parse(raw) {
        Ok(name) => Ok(name),
        Err(reason) => {
            proof {
                names::lemma_slug_fault(raw@, reason);
            }
            Err(
                Diagnostic::error(&cat3("'", raw, "' is not a valid remote name")).note(
                    &reason.text(),
                ),
            )
        },
    }
}

pub open spec fn already_a_remote(name: Seq<char>) -> DiagnosticView {
    DiagnosticView::error("'"@ + name + "' is already a remote on this profile"@).at(
        LocationView::Remote(name),
    ).recovery_with("tycho remote rm "@ + name, "remove it first, if you meant to replace it"@)
}

/// Whether some remotes hold one by a name.
pub open spec fn holds_remote(remotes: Seq<RemoteEntryView>, name: Seq<char>) -> bool {
    exists|i: int| 0 <= i < remotes.len() && (#[trigger] remotes[i]).name == name
}

fn has_remote(remotes: &[RemoteEntry], name: &str) -> (out: bool)
    ensures
        out == holds_remote(config_edit::remote_entry_views(remotes@), name@),
{
    let ghost all = config_edit::remote_entry_views(remotes@);
    let mut i: usize = 0;
    while i < remotes.len()
        invariant
            i <= remotes@.len(),
            all == config_edit::remote_entry_views(remotes@),
            forall|k: int| 0 <= k < i ==> (#[trigger] all[k]).name != name@,
        decreases remotes@.len() - i,
    {
        assert(all[i as int] == remotes@[i as int]@);
        if same(&remotes[i].name, name) {
            return true;
        }
        i += 1;
    }
    false
}

/// The remote an add appends.
pub open spec fn as_new(add: RemoteAddArgs, new: NewRemote) -> bool {
    &&& new.name@ == add.name@
    &&& new.path@ == add.path@
    &&& new.optional == add.optional
    &&& new.trust_ownership == add.trust_ownership
    &&& new.behind_tolerance == add.behind_tolerance
}

/// The file with a remote behind a profile's others, or what refuses it.
pub open spec fn with_remote(root: Table, profile: int, remote: Table) -> Result<Table, EditFault> {
    match config_edit::list_fault(root, profile, "remotes"@) {
        Some(fault) => Err(fault),
        None => Ok(
            document::with_node(
                config_edit::with_list(root, profile, "remotes"@),
                profile,
                "remotes"@,
                Node::List(
                    config_edit::list_edited(root, profile, "remotes"@).push(Node::Inline(remote)),
                ),
            ),
        ),
    }
}

/// What `remote add` comes to before the file is written: what it says on the way, and what the
/// write starts from. Where it is refused, nothing is to be written.
#[derive(Debug, PartialEq, Eq)]
pub struct Adding {
    pub said: Vec<Diagnostic>,
    /// What was earned already, where the file is to be written.
    pub floor: Option<Exit>,
}

pub open spec fn said_opt(d: Option<DiagnosticView>) -> Seq<DiagnosticView> {
    match d {
        Some(d) => seq![d],
        None => Seq::empty(),
    }
}

pub open spec fn floor_of(d: Option<DiagnosticView>) -> Exit {
    if d is Some {
        Exit::Warning
    } else {
        Exit::Success
    }
}

pub(crate) fn refused(diagnostic: Diagnostic) -> (out: Adding)
    ensures
        report::diagnostic_views(out.said@) == seq![diagnostic@],
        out.floor is None,
{
    Adding { said: only(diagnostic), floor: None }
}

pub fn add_remote(
    editing: &mut Editing,
    profile: usize,
    add: &RemoteAddArgs,
    probe: &Option<Result<bool, String>>,
) -> (out: Adding)
    ensures
        final(editing).file() == old(editing).file(),
        out.floor is None ==> {
            ||| final(editing).document() == old(editing).document()
            ||| {
                &&& config_edit::list_fault(old(editing).root(), profile as int, "remotes"@) is Some
                &&& final(editing).document() == config_edit::opened(
                    old(editing).document(),
                    profile as int,
                    "remotes"@,
                )
            }
        },
        ({
            let remotes = config_edit::remotes_in(old(editing).root(), profile as int);
            let checked = ownership(add.name@, add.path@, add.trust_ownership, *probe);
            let said = report::diagnostic_views(out.said@);
            if !names::is_slug(add.name@) {
                out.floor is None && said == seq![not_a_remote_name(add.name@)]
            } else if holds_remote(remotes, add.name@) {
                out.floor is None && said == seq![already_a_remote(add.name@)]
            } else {
                match checked {
                    Err(d) => out.floor is None && said == seq![d],
                    Ok(warned) => exists|new: NewRemote| #[trigger]
                        as_new(*add, new) && match with_remote(
                            old(editing).root(),
                            profile as int,
                            config_edit::remote_table(new),
                        ) {
                            Ok(root) => out.floor == Some(floor_of(warned)) && said == said_opt(
                                warned,
                            ) && final(editing).root() == root && final(editing).document()
                                == config_edit::remote_added(
                                config_edit::opened(
                                    old(editing).document(),
                                    profile as int,
                                    "remotes"@,
                                ),
                                profile as int,
                                "remotes"@,
                                new,
                            ),
                            Err(fault) => out.floor is None && said == said_opt(warned).push(
                                DiagnosticView::error(fault.message()),
                            ),
                        },
                }
            }
        }),
{
    let name = match remote_name(&add.name) {
        Ok(name) => name,
        Err(d) => return refused(d),
    };
    let remotes = editing.remotes(profile);
    if has_remote(&remotes, name.as_str()) {
        return refused(
            Diagnostic::error(
                &cat3("'", &add.name, "' is already a remote on this profile"),
            ).location(at_remote(&add.name)).recovery_with(
                &cat2("tycho remote rm ", &add.name),
                "remove it first, if you meant to replace it",
            ),
        );
    }
    let warned = match check_ownership(&add.name, &add.path, add.trust_ownership, probe) {
        Ok(warned) => warned,
        Err(d) => return refused(d),
    };
    let mut said: Vec<Diagnostic> = Vec::new();
    assert(report::diagnostic_views(said@) =~= Seq::empty());
    let ghost known = diagnostic_opt(warned);
    let floor = match warned {
        Some(d) => {
            say(&mut said, d);
            Exit::Warning
        },
        None => Exit::Success,
    };
    assert(report::diagnostic_views(said@) =~= said_opt(known));
    let new = NewRemote {
        name: name.as_str().to_owned(),
        path: add.path.clone(),
        optional: add.optional,
        trust_ownership: add.trust_ownership,
        behind_tolerance: add.behind_tolerance,
    };
    assert(as_new(*add, new));
    match editing.add_remote(profile, &new) {
        Ok(()) => Adding { said, floor: Some(floor) },
        Err(error) => {
            say(&mut said, Diagnostic::error(&error.text()));
            Adding { said, floor: None }
        },
    }
}

pub open spec fn no_such_remote(name: Seq<char>, profile: Seq<char>) -> DiagnosticView {
    DiagnosticView::error("'"@ + name + "' is not a remote on '"@ + profile + "'"@).at(
        LocationView::Profile(profile),
    ).recovery_with("tycho remote list -p "@ + profile, "names every remote on this profile"@)
}

pub open spec fn last_remote(name: Seq<char>, profile: Seq<char>) -> DiagnosticView {
    DiagnosticView::error("'"@ + name + "' is the only remote on '"@ + profile + "'"@).at(
        LocationView::Profile(profile),
    ).note("removing it would leave this profile's backups on this machine alone"@).recovery_with(
        "tycho remote add <name> <path>"@,
        "point it at the replacement first"@,
    ).recovery_with(
        "tycho remote rm "@ + name + " --local-only"@,
        "or accept local-only backups"@,
    )
}

/// The file without a profile's remote, or what refuses it.
pub open spec fn without_remote(root: Table, profile: int, name: Seq<char>) -> Result<
    Table,
    EditFault,
> {
    match config_edit::list_fault(root, profile, "remotes"@) {
        Some(fault) => Err(fault),
        None => {
            let items = config_edit::list_edited(root, profile, "remotes"@);
            let at = config_edit::named_at(items, name);
            if at < items.len() {
                Ok(
                    document::with_node(
                        config_edit::with_list(root, profile, "remotes"@),
                        profile,
                        "remotes"@,
                        Node::List(items.remove(at)),
                    ),
                )
            } else {
                Err(EditFault::NotPresent { value: name, list: "remotes"@ })
            }
        },
    }
}

/// The file with a profile marked as one whose backups stay on the machine, or what refuses it.
pub open spec fn marked_local(root: Table, profile: int) -> Result<Table, EditFault> {
    if document::has_table(root, profile) {
        Ok(
            document::with_table(
                root,
                profile,
                document::table_at(root, profile).insert("local_only"@, Node::Flag(true)),
            ),
        )
    } else {
        Err(config_edit::table_fault(root, profile))
    }
}

/// What `remote rm` makes of the file, or what it says instead. A profile is never left with no
/// remotes but by `--local-only`, which marks it so.
pub open spec fn removal(
    root: Table,
    profile: int,
    name: Seq<char>,
    local_only: bool,
) -> Result<Table, DiagnosticView> {
    let remotes = config_edit::remotes_in(root, profile);
    let profile_name = config_edit::profile_names(root)[profile];
    if !holds_remote(remotes, name) {
        Err(no_such_remote(name, profile_name))
    } else if remotes.len() == 1 && !local_only {
        Err(last_remote(name, profile_name))
    } else {
        match without_remote(root, profile, name) {
            Err(fault) => Err(DiagnosticView::error(fault.message())),
            Ok(less) => if local_only && remotes.len() == 1 {
                match marked_local(less, profile) {
                    Ok(marked) => Ok(marked),
                    Err(fault) => Err(DiagnosticView::error(fault.message())),
                }
            } else {
                Ok(less)
            },
        }
    }
}

/// A document without a remote, and with its profile marked local-only where that is so.
pub open spec fn removed_from(
    document: toml_edit::DocumentMut,
    profile: int,
    name: Seq<char>,
    local_only: bool,
) -> toml_edit::DocumentMut {
    let items = config_edit::list_edited(document::root_of(document), profile, "remotes"@);
    let less = document::item_removed(
        config_edit::opened(document, profile, "remotes"@),
        profile,
        "remotes"@,
        config_edit::named_at(items, name),
    );
    if local_only {
        document::scalar_set(less, profile, "local_only"@, Node::Flag(true))
    } else {
        less
    }
}

/// # Errors
///
/// If the profile has no such remote, or it is the only one and the profile was not to become
/// local-only. Then nothing is to be written.
pub fn remove_remote(editing: &mut Editing, profile: usize, rm: &RemoteRmArgs) -> (out: Result<
    (),
    Diagnostic,
>)
    requires
        profile < config_edit::profile_names(old(editing).root()).len(),
    ensures
        final(editing).file() == old(editing).file(),
        match removal(old(editing).root(), profile as int, rm.name@, rm.local_only) {
            Ok(root) => out is Ok && final(editing).root() == root && final(editing).document()
                == removed_from(
                old(editing).document(),
                profile as int,
                rm.name@,
                rm.local_only && config_edit::remotes_in(old(editing).root(), profile as int).len()
                    == 1,
            ),
            Err(d) => out matches Err(e) && e@ == d,
        },
{
    let remotes = editing.remotes(profile);
    let profiles = editing.profiles();
    assert(text::views(profiles@).len() == profiles@.len());
    assert(text::views(profiles@)[profile as int] == profiles@[profile as int]@);
    assert(config_edit::remote_entry_views(remotes@).len() == remotes@.len());
    let profile_name = profiles[profile].as_str();
    let name = rm.name.as_str();
    if !has_remote(&remotes, name) {
        return Err(
            Diagnostic::error(
                &cat5("'", name, "' is not a remote on '", profile_name, "'"),
            ).location(at_profile(profile_name)).recovery_with(
                &cat2("tycho remote list -p ", profile_name),
                "names every remote on this profile",
            ),
        );
    }
    if remotes.len() == 1 && !rm.local_only {
        return Err(
            Diagnostic::error(
                &cat5("'", name, "' is the only remote on '", profile_name, "'"),
            ).location(at_profile(profile_name)).note(
                "removing it would leave this profile's backups on this machine alone",
            ).recovery_with(
                "tycho remote add <name> <path>",
                "point it at the replacement first",
            ).recovery_with(
                &cat3("tycho remote rm ", name, " --local-only"),
                "or accept local-only backups",
            ),
        );
    }
    match editing.remove_remote(profile, name) {
        Ok(()) => {},
        Err(error) => return Err(Diagnostic::error(&error.text())),
    }
    if rm.local_only && remotes.len() == 1 {
        match editing.set_local_only(profile, true) {
            Ok(()) => {},
            Err(error) => return Err(Diagnostic::error(&error.text())),
        }
    }
    Ok(())
}

// ---------------------------------------------------------------------------
// Laws
// ---------------------------------------------------------------------------

/// A clean file never hides what was already earned: the exit after an edit is at least as bad
/// as the floor, and a file that is found to hold an error fails.
pub proof fn reading_back_hides_nothing(parsed: Parsed, floor: Exit)
    ensures
        read_back(parsed, floor) == Exit::Success ==> floor == Exit::Success,
        floor == Exit::Failure ==> read_back(parsed, floor) == Exit::Failure,
        config::any_error(parsed.diagnostics@) ==> read_back(parsed, floor) == Exit::Failure,
{
}

/// A profile's last remote only ever goes with `--local-only`.
pub proof fn the_last_remote_is_guarded(root: Table, profile: int, name: Seq<char>)
    requires
        config_edit::remotes_in(root, profile).len() == 1,
    ensures
        removal(root, profile, name, false) is Err,
{
}

/// A remote that is trusted is never refused for its volume, and one that is not is refused
/// wherever the volume is known to record nothing.
pub proof fn trust_is_the_users_to_give(
    name: Seq<char>,
    shown: Seq<char>,
    probe: Option<Result<bool, String>>,
)
    ensures
        ownership(name, shown, true, probe) == Ok::<Option<DiagnosticView>, DiagnosticView>(None),
        ownership(name, shown, false, Some(Ok(false))) is Err,
{
}

/// An ownership check is passed by the user's trust or by a volume that records owners, is put off
/// where there is no volume to look at, and is refused otherwise.
pub proof fn only_an_absent_volume_is_put_off(
    name: Seq<char>,
    shown: Seq<char>,
    trusted: bool,
    probe: Option<Result<bool, String>>,
)
    ensures
        ownership(name, shown, trusted, probe) is Err <==> !trusted && (probe matches Some(found)
            && !(found matches Ok(records) && records)),
        (ownership(name, shown, trusted, probe) matches Ok(said) && said is Some) <==> !trusted
            && probe is None,
{
}

/// What an edited file comes to is as bad as the worst finding, and no better than what the edit
/// came to itself.
pub proof fn an_edit_is_as_bad_as_what_it_left(parsed: Parsed, floor: Exit)
    ensures
        read_back(parsed, floor) == Exit::Failure <==> floor == Exit::Failure || config::any_error(
            parsed.diagnostics@,
        ),
        read_back(parsed, floor) == Exit::Success <==> floor == Exit::Success
            && parsed.diagnostics@.len() == 0,
{
}

/// A remote that is added goes behind the others, and removing it again by its name leaves the list
/// as it was.
pub proof fn removing_a_remote_undoes_adding_it(root: Table, profile: int, new: NewRemote)
    requires
        document::list_at(root, profile, "remotes"@) is Some,
        forall|i: int|
            0 <= i < document::list_at(root, profile, "remotes"@)->0.len()
                ==> !config_edit::is_named(
                #[trigger] document::list_at(root, profile, "remotes"@)->0[i],
                new.name@,
            ),
    ensures
        ({
            let list = document::list_at(root, profile, "remotes"@)->0;
            let one = Node::Inline(config_edit::remote_table(new));
            with_remote(root, profile, config_edit::remote_table(new)) matches Ok(more) && {
                &&& document::list_at(more, profile, "remotes"@) == Some(list.push(one))
                &&& without_remote(more, profile, new.name@) matches Ok(less)
                    && document::list_at(less, profile, "remotes"@) == Some(list)
            }
        }),
{
    let list = document::list_at(root, profile, "remotes"@)->0;
    let one = Node::Inline(config_edit::remote_table(new));
    let longer = list.push(one);
    let more = document::with_node(root, profile, "remotes"@, Node::List(longer));
    config_edit::remotes_round_trip(new);
    config_edit::lemma_list_changed(root, profile, "remotes"@, Node::List(longer), Node::Other);
    config_edit::a_remote_is_found_by_its_name(longer, new.name@);
    let at = config_edit::named_at(longer, new.name@);
    assert(config_edit::is_named(longer[list.len() as int], new.name@)) by {
        assert(longer[list.len() as int] == one);
        assert(config_edit::remote_in(one) is Some);
    }
    if at < list.len() {
        assert(longer[at] == list[at]);
        assert(config_edit::is_named(list[at], new.name@));
    }
    if at > list.len() {
        assert(!config_edit::is_named(longer[list.len() as int], new.name@));
    }
    assert(longer.remove(list.len() as int) =~= list);
    config_edit::lemma_list_changed(
        more,
        profile,
        "remotes"@,
        Node::List(longer.remove(at)),
        Node::Other,
    );
}

/// Removing a profile's last remote marks the profile as one that stays here, and nothing else
/// does.
pub proof fn only_the_last_removal_marks_the_profile(
    root: Table,
    profile: int,
    name: Seq<char>,
    local_only: bool,
    after: Table,
)
    requires
        removal(root, profile, name, local_only) == Ok::<Table, DiagnosticView>(after),
        document::list_at(root, profile, "remotes"@) is Some,
    ensures
        config_edit::remotes_in(root, profile).len() == 1 ==> local_only && config_edit::flag_in(
            document::table_at(after, profile),
            "local_only"@,
        ),
        config_edit::remotes_in(root, profile).len() != 1 ==> config_edit::flag_in(
            document::table_at(after, profile),
            "local_only"@,
        ) == config_edit::flag_in(document::table_at(root, profile), "local_only"@),
{
    reveal_strlit("remotes");
    reveal_strlit("local_only");
    assert("remotes"@.len() != "local_only"@.len());
    let items = config_edit::list_edited(root, profile, "remotes"@);
    let at = config_edit::named_at(items, name);
    let less = document::with_node(root, profile, "remotes"@, Node::List(items.remove(at)));
    config_edit::lemma_list_changed(
        root,
        profile,
        "remotes"@,
        Node::List(items.remove(at)),
        Node::Other,
    );
    if config_edit::remotes_in(root, profile).len() == 1 {
        config_edit::lemma_list_changed(
            less,
            profile,
            "local_only"@,
            Node::Flag(true),
            Node::Other,
        );
    }
}

} // verus!
