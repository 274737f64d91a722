//! Rustc-style structured diagnostics.
//!
//! [`Diagnostic`] is a value type carrying the fields of a coloured terminal block:
//! severity, title, an optional location, notes, helps, and a sequence of recovery
//! commands. Rendering happens only in [`Diagnostic::render`].
//!
//! A command line handler answers with a diagnostic, and [`Diagnostic::emit`] hands back the
//! block together with the [`Exit`] its severity names.
//!
//! The four sections answer four different questions, and mixing them is the failure
//! this shape exists to prevent: `-->` says **where**, `note:` says **why**, `help:`
//! says **what to do** in prose, and `recovery:` gives the literal command to type.
//! A `help:` that restates the title is worse than no `help:` at all.

use crate::cli::page::{Page, PageView, Tint};
use crate::cli::render::restore;
use crate::cli::Exit;
use crate::text;
use crate::text::{between, chars_of, decimal, find, split_text};
use vstd::prelude::*;

verus! {

/// What kind of block this is, and therefore the prefix, the colour and the exit.
///
/// Both map onto an [`Exit`], so the severity and the process's exit code cannot disagree.
#[derive(Clone, Copy, Debug, PartialEq, Eq, Structural)]
pub enum Severity {
    Error,
    Warning,
}

impl Severity {
    pub open spec fn word(self) -> Seq<char> {
        match self {
            Severity::Error => "error"@,
            Severity::Warning => "warning"@,
        }
    }

    pub open spec fn tint(self) -> Tint {
        match self {
            Severity::Error => Tint::RedBold,
            Severity::Warning => Tint::YellowBold,
        }
    }

    fn prefix(self) -> (out: (&'static str, Tint))
        ensures
            out.0@ == self.word(),
            out.1 == self.tint(),
    {
        match self {
            Severity::Error => ("error", Tint::RedBold),
            Severity::Warning => ("warning", Tint::YellowBold),
        }
    }
}

impl From<Severity> for Exit {
    fn from(severity: Severity) -> (out: Exit) {
        match severity {
            Severity::Error => Exit::Failure,
            Severity::Warning => Exit::Warning,
        }
    }
}

impl vstd::std_specs::convert::FromSpecImpl<Severity> for Exit {
    open spec fn obeys_from_spec() -> bool {
        true
    }

    open spec fn from_spec(severity: Severity) -> Exit {
        match severity {
            Severity::Error => Exit::Failure,
            Severity::Warning => Exit::Warning,
        }
    }
}

/// Where a diagnostic points.
///
/// The natural location of an error is a config key, a
/// profile, a remote, a store, or a file. Each variant carries only what its renderer
/// needs, so an unset field cannot be confused with an empty one.
#[derive(Debug, PartialEq, Eq)]
pub enum Location {
    /// A key path inside the config file (`profile.cex.remotes`).
    ConfigKey(String),
    /// A profile by name.
    Profile(String),
    /// A remote by name.
    Remote(String),
    /// A bare git store, local or on a remote.
    Store(String),
    /// A file on disk, optionally with a line.
    File { path: String, line: Option<u32> },
}

pub enum LocationView {
    ConfigKey(Seq<char>),
    Profile(Seq<char>),
    Remote(Seq<char>),
    Store(Seq<char>),
    File { path: Seq<char>, line: Option<u32> },
}

impl View for Location {
    type V = LocationView;

    open spec fn view(&self) -> LocationView {
        match self {
            Location::ConfigKey(key) => LocationView::ConfigKey(key@),
            Location::Profile(name) => LocationView::Profile(name@),
            Location::Remote(name) => LocationView::Remote(name@),
            Location::Store(path) => LocationView::Store(path@),
            Location::File { path, line } => LocationView::File { path: path@, line: *line },
        }
    }
}

#[must_use]
pub fn at_config_key(key: &str) -> (out: Location)
    ensures
        out@ == LocationView::ConfigKey(key@),
{
    Location::ConfigKey(key.to_owned())
}

#[must_use]
pub fn at_profile(name: &str) -> (out: Location)
    ensures
        out@ == LocationView::Profile(name@),
{
    Location::Profile(name.to_owned())
}

#[must_use]
pub fn at_remote(name: &str) -> (out: Location)
    ensures
        out@ == LocationView::Remote(name@),
{
    Location::Remote(name.to_owned())
}

#[must_use]
pub fn at_store(path: &str) -> (out: Location)
    ensures
        out@ == LocationView::Store(path@),
{
    Location::Store(path.to_owned())
}

#[must_use]
pub fn at_file(path: &str) -> (out: Location)
    ensures
        out@ == (LocationView::File { path: path@, line: None }),
{
    Location::File { path: path.to_owned(), line: None }
}

#[must_use]
pub fn at_file_line(path: &str, line: u32) -> (out: Location)
    ensures
        out@ == (LocationView::File { path: path@, line: Some(line) }),
{
    Location::File { path: path.to_owned(), line: Some(line) }
}

/// One command in the recovery block: what to type, and optionally why.
#[derive(Debug, PartialEq, Eq)]
pub struct Recovery {
    /// Rendered `$ <cmd>` with the `$` dim, the body cyan, and any
    /// angle-bracketed `<placeholder>` yellow.
    pub cmd: String,
    /// Rendered on the next line as a dim `# <desc>`, shell-comment style.
    pub desc: Option<String>,
}

pub struct RecoveryView {
    pub cmd: Seq<char>,
    pub desc: Option<Seq<char>>,
}

impl View for Recovery {
    type V = RecoveryView;

    open spec fn view(&self) -> RecoveryView {
        RecoveryView { cmd: self.cmd@, desc: text::view_opt(self.desc) }
    }
}

pub open spec fn recovery_views(v: Seq<Recovery>) -> Seq<RecoveryView> {
    v.map_values(|r: Recovery| r@)
}

/// A structured diagnostic: severity and title, plus any number of notes, helps and
/// recovery commands.
///
/// Sections render in a canonical order - location, notes, helps, recoveries -
/// regardless of the order they were added, so two call sites cannot produce two
/// different-looking blocks from the same material.
#[derive(Debug, PartialEq, Eq)]
pub struct Diagnostic {
    severity: Severity,
    title: String,
    location: Option<Location>,
    notes: Vec<String>,
    helps: Vec<String>,
    recoveries: Vec<Recovery>,
}

#[verifier::ext_equal]
pub struct DiagnosticView {
    pub severity: Severity,
    pub title: Seq<char>,
    pub location: Option<LocationView>,
    pub notes: Seq<Seq<char>>,
    pub helps: Seq<Seq<char>>,
    pub recoveries: Seq<RecoveryView>,
}

impl View for Diagnostic {
    type V = DiagnosticView;

    closed spec fn view(&self) -> DiagnosticView {
        DiagnosticView {
            severity: self.severity,
            title: self.title@,
            location: match self.location {
                Some(at) => Some(at@),
                None => None,
            },
            notes: text::views(self.notes@),
            helps: text::views(self.helps@),
            recoveries: recovery_views(self.recoveries@),
        }
    }
}

pub open spec fn diagnostic_views(v: Seq<Diagnostic>) -> Seq<DiagnosticView> {
    v.map_values(|d: Diagnostic| d@)
}

/// One more diagnostic to print.
pub(crate) fn say(said: &mut Vec<Diagnostic>, diagnostic: Diagnostic)
    ensures
        diagnostic_views(final(said)@) == diagnostic_views(old(said)@).push(diagnostic@),
{
    let ghost before = diagnostic_views(said@);
    said.push(diagnostic);
    assert(diagnostic_views(said@) =~= before.push(diagnostic@));
}

impl DiagnosticView {
    pub open spec fn of(severity: Severity, title: Seq<char>) -> DiagnosticView {
        DiagnosticView {
            severity,
            title,
            location: None,
            notes: Seq::empty(),
            helps: Seq::empty(),
            recoveries: Seq::empty(),
        }
    }

    pub open spec fn error(title: Seq<char>) -> DiagnosticView {
        DiagnosticView::of(Severity::Error, title)
    }

    pub open spec fn warning(title: Seq<char>) -> DiagnosticView {
        DiagnosticView::of(Severity::Warning, title)
    }

    pub open spec fn at(self, location: LocationView) -> DiagnosticView {
        DiagnosticView { location: Some(location), ..self }
    }

    pub open spec fn note(self, text: Seq<char>) -> DiagnosticView {
        DiagnosticView { notes: self.notes.push(text), ..self }
    }

    pub open spec fn help(self, text: Seq<char>) -> DiagnosticView {
        DiagnosticView { helps: self.helps.push(text), ..self }
    }

    pub open spec fn recovery(self, cmd: Seq<char>) -> DiagnosticView {
        DiagnosticView {
            recoveries: self.recoveries.push(RecoveryView { cmd, desc: None }),
            ..self
        }
    }

    pub open spec fn recovery_with(self, cmd: Seq<char>, desc: Seq<char>) -> DiagnosticView {
        DiagnosticView {
            recoveries: self.recoveries.push(RecoveryView { cmd, desc: Some(desc) }),
            ..self
        }
    }
}

// ---------------------------------------------------------------------------
// What the block looks like
// ---------------------------------------------------------------------------

/// The page with `s` behind it, its `open`..`close` spans in one colour and everything between
/// them in another. An unterminated span is ordinary text.
pub open spec fn delimited_page(
    p: PageView,
    s: Seq<char>,
    open: char,
    close: char,
    inside: Tint,
    plain: Option<Tint>,
) -> PageView
    decreases s.len(),
{
    let start = text::position(s, open);
    if 0 <= start < s.len() {
        let after = s.skip(start + 1);
        let end = text::position(after, close);
        let p = p.put_in(s.take(start), plain);
        if 0 <= end < after.len() {
            delimited_page(
                p.ink(s.subrange(start, start + end + 2), inside),
                s.skip(start + end + 2),
                open,
                close,
                inside,
                plain,
            )
        } else {
            p.put_in(s.skip(start), plain)
        }
    } else {
        p.put_in(s, plain)
    }
}

pub open spec fn backticked_page(p: PageView, s: Seq<char>) -> PageView {
    delimited_page(p, s, '`', '`', Tint::Cyan, None)
}

pub open spec fn placeheld_page(p: PageView, s: Seq<char>) -> PageView {
    delimited_page(p, s, '<', '>', Tint::Yellow, Some(Tint::Cyan))
}

pub open spec fn rule_page(p: PageView, emitted: bool) -> PageView {
    if emitted {
        p.put("  "@).ink("|"@, Tint::Dim).put("\n"@)
    } else {
        p
    }
}

pub open spec fn location_page(p: PageView, at: LocationView) -> PageView {
    match at {
        LocationView::ConfigKey(key) => p.ink("config key"@, Tint::Dim).put(" "@).ink(
            key,
            Tint::Cyan,
        ),
        LocationView::Profile(name) => p.ink("profile"@, Tint::Dim).put(" "@).ink(name, Tint::Cyan),
        LocationView::Remote(name) => p.ink("remote"@, Tint::Dim).put(" "@).ink(name, Tint::Cyan),
        LocationView::Store(path) => p.ink("store"@, Tint::Dim).put(" "@).ink(path, Tint::Cyan),
        LocationView::File { path, line } => match line {
            Some(line) => p.put(path).ink(":"@, Tint::Dim).ink(
                text::decimal_text(line as nat),
                Tint::Dim,
            ),
            None => p.put(path),
        },
    }
}

/// The lines of a note from the second to the `n`th, aligned under the first one's body.
pub open spec fn note_tail(p: PageView, lines: Seq<Seq<char>>, n: int) -> PageView
    decreases n,
{
    if n <= 1 {
        p
    } else {
        backticked_page(
            note_tail(p, lines, n - 1).put("          "@),
            lines[n - 1],
        ).put("\n"@)
    }
}

pub open spec fn note_page(p: PageView, note: Seq<char>) -> PageView {
    let lines = text::split(note, '\n');
    let p = p.put("  "@).ink("="@, Tint::Dim).put(" "@).ink("note:"@, Tint::Dim).put(" "@);
    note_tail(backticked_page(p, lines[0]).put("\n"@), lines, lines.len() as int)
}

pub open spec fn notes_page(p: PageView, notes: Seq<Seq<char>>, n: int) -> PageView
    decreases n,
{
    if n <= 0 {
        p
    } else {
        note_page(notes_page(p, notes, n - 1), notes[n - 1])
    }
}

pub open spec fn help_tail(p: PageView, lines: Seq<Seq<char>>, n: int) -> PageView
    decreases n,
{
    if n <= 1 {
        p
    } else {
        help_tail(p, lines, n - 1).put("        "@).line(lines[n - 1])
    }
}

pub open spec fn help_page(p: PageView, help: Seq<char>) -> PageView {
    let lines = text::split(help, '\n');
    help_tail(
        p.put("  "@).ink("help:"@, Tint::CyanBold).put(" "@).line(lines[0]),
        lines,
        lines.len() as int,
    )
}

pub open spec fn helps_page(p: PageView, helps: Seq<Seq<char>>, n: int) -> PageView
    decreases n,
{
    if n <= 0 {
        p
    } else {
        help_page(helps_page(p, helps, n - 1), helps[n - 1])
    }
}

pub open spec fn recovery_page(p: PageView, item: RecoveryView) -> PageView {
    let p = placeheld_page(p.put("    "@).ink("$"@, Tint::Dim).put(" "@), item.cmd).put("\n"@);
    match item.desc {
        Some(desc) => p.put("        "@).ink("#"@, Tint::Dim).put(" "@).ink(desc, Tint::Dim).put(
            "\n"@,
        ),
        None => p,
    }
}

pub open spec fn recoveries_page(p: PageView, items: Seq<RecoveryView>, n: int) -> PageView
    decreases n,
{
    if n <= 0 {
        p
    } else {
        recovery_page(recoveries_page(p, items, n - 1), items[n - 1])
    }
}

impl DiagnosticView {
    /// The severity and the title.
    pub open spec fn heading(self) -> PageView {
        PageView::empty().ink(self.severity.word(), self.severity.tint()).put(": "@).ink(
            self.title,
            Tint::Bold,
        ).put("\n"@)
    }

    pub open spec fn with_location(self) -> PageView {
        match self.location {
            Some(at) => location_page(
                self.heading().put("  "@).ink("-->"@, Tint::Blue).put(" "@),
                at,
            ).put("\n"@),
            None => self.heading(),
        }
    }

    pub open spec fn with_notes(self) -> PageView {
        let p = self.with_location();
        if self.notes.len() > 0 {
            notes_page(rule_page(p, self.location is Some), self.notes, self.notes.len() as int)
        } else {
            p
        }
    }

    pub open spec fn with_helps(self) -> PageView {
        let p = self.with_notes();
        if self.helps.len() > 0 {
            helps_page(
                rule_page(p, self.location is Some || self.notes.len() > 0),
                self.helps,
                self.helps.len() as int,
            )
        } else {
            p
        }
    }

    /// The whole block: a rule stands between two sections and never above the first.
    pub open spec fn page(self) -> PageView {
        let p = self.with_helps();
        if self.recoveries.len() > 0 {
            recoveries_page(
                rule_page(
                    p,
                    self.location is Some || self.notes.len() > 0 || self.helps.len() > 0,
                ).put("  "@).ink("recovery:"@, Tint::GreenBold).put("\n"@),
                self.recoveries,
                self.recoveries.len() as int,
            )
        } else {
            p
        }
    }
}

/// Walks `text` painting `open..=close` spans one colour and everything between them
/// another. `plain` absent means the surrounding text keeps its own colour.
fn delimited(
    page: &mut Page,
    s: &str,
    open: char,
    close: char,
    inside: Tint,
    plain: Option<Tint>,
)
    ensures
        final(page)@ == delimited_page(old(page)@, s@, open, close, inside, plain),
{
    let ghost whole = delimited_page(page@, s@, open, close, inside, plain);
    let mut rest = s.to_owned();
    loop
        invariant_except_break
            delimited_page(page@, rest@, open, close, inside, plain) == whole,
        ensures
            page@ == whole,
        decreases rest@.len(),
    {
        let cs = chars_of(&rest);
        let len: usize = cs.len();
        let start: usize = match find(&cs, open) {
            Some(start) => start,
            None => {
                page.put_in(&rest, plain);
                break;
            },
        };
        page.put_in(&between(&cs, 0, start), plain);
        assert(rest@.subrange(0, start as int) =~= rest@.take(start as int));
        let after = chars_of(&between(&cs, start + 1, len));
        assert(after@ =~= rest@.skip(start + 1));
        let end: usize = match find(&after, close) {
            Some(end) => end,
            None => {
                page.put_in(&between(&cs, start, len), plain);
                assert(rest@.subrange(start as int, len as int) =~= rest@.skip(start as int));
                break;
            },
        };
        let to: usize = start + 2 + end;
        page.ink(&between(&cs, start, to), inside);
        let next = between(&cs, to, len);
        assert(next@ =~= rest@.skip(to as int));
        rest = next;
    }
}

/// Colours backtick-wrapped spans cyan, so an inline command or key stands out of
/// the prose. An unterminated backtick falls through verbatim rather than swallowing
/// the rest of the line.
fn backticked(page: &mut Page, s: &str)
    ensures
        final(page)@ == backticked_page(old(page)@, s@),
{
    delimited(page, s, '`', '`', Tint::Cyan, None);
}

/// Colours the command cyan and any `<placeholder>` yellow, which is the cue that
/// the reader has to substitute something before typing it.
fn placeheld(page: &mut Page, cmd: &str)
    ensures
        final(page)@ == placeheld_page(old(page)@, cmd@),
{
    delimited(page, cmd, '<', '>', Tint::Yellow, Some(Tint::Cyan));
}

fn rule(page: &mut Page, emitted: bool)
    ensures
        final(page)@ == rule_page(old(page)@, emitted),
{
    if emitted {
        page.put("  ");
        page.ink("|", Tint::Dim);
        page.put("\n");
    }
}

fn labelled(page: &mut Page, label: &str, value: &str)
    ensures
        final(page)@ == old(page)@.ink(label@, Tint::Dim).put(" "@).ink(value@, Tint::Cyan),
{
    page.ink(label, Tint::Dim);
    page.put(" ");
    page.ink(value, Tint::Cyan);
}

fn render_location(page: &mut Page, location: &Location)
    ensures
        final(page)@ == location_page(old(page)@, location@),
{
    match location {
        Location::ConfigKey(key) => labelled(page, "config key", key),
        Location::Profile(name) => labelled(page, "profile", name),
        Location::Remote(name) => labelled(page, "remote", name),
        Location::Store(path) => labelled(page, "store", path),
        Location::File { path, line } => {
            page.put(path);
            if let Some(line) = line {
                page.ink(":", Tint::Dim);
                page.ink(&decimal(*line as u64), Tint::Dim);
            }
        },
    }
}

fn render_note(page: &mut Page, note: &str)
    ensures
        final(page)@ == note_page(old(page)@, note@),
{
    let lines = split_text(note, '\n');
    let ghost all = text::split(note@, '\n');
    assert(text::views(lines@).len() == lines@.len());
    assert(text::views(lines@)[0] == lines@[0]@);
    page.put("  ");
    page.ink("=", Tint::Dim);
    page.put(" ");
    page.ink("note:", Tint::Dim);
    page.put(" ");
    backticked(page, &lines[0]);
    page.put("\n");
    let ghost first = page@;
    let mut i: usize = 1;
    // Ten columns, so the continuation aligns under the body rather
    // than under the label.
    while i < lines.len()
        invariant
            1 <= i <= lines@.len(),
            all == text::views(lines@),
            page@ == note_tail(first, all, i as int),
        decreases lines@.len() - i,
    {
        assert(all[i as int] == lines@[i as int]@);
        page.put("          ");
        backticked(page, &lines[i]);
        page.put("\n");
        i += 1;
    }
}

fn render_help(page: &mut Page, help: &str)
    ensures
        final(page)@ == help_page(old(page)@, help@),
{
    let lines = split_text(help, '\n');
    let ghost all = text::split(help@, '\n');
    assert(text::views(lines@).len() == lines@.len());
    assert(text::views(lines@)[0] == lines@[0]@);
    page.put("  ");
    page.ink("help:", Tint::CyanBold);
    page.put(" ");
    page.line(&lines[0]);
    let ghost first = page@;
    let mut i: usize = 1;
    while i < lines.len()
        invariant
            1 <= i <= lines@.len(),
            all == text::views(lines@),
            page@ == help_tail(first, all, i as int),
        decreases lines@.len() - i,
    {
        assert(all[i as int] == lines@[i as int]@);
        page.put("        ");
        page.line(&lines[i]);
        i += 1;
    }
}

fn render_recovery(page: &mut Page, item: &Recovery)
    ensures
        final(page)@ == recovery_page(old(page)@, item@),
{
    page.put("    ");
    page.ink("$", Tint::Dim);
    page.put(" ");
    placeheld(page, &item.cmd);
    page.put("\n");
    if let Some(desc) = &item.desc {
        page.put("        ");
        page.ink("#", Tint::Dim);
        page.put(" ");
        page.ink(desc, Tint::Dim);
        page.put("\n");
    }
}

impl Diagnostic {
    #[must_use]
    pub fn error(title: &str) -> (out: Diagnostic)
        ensures
            out@ == DiagnosticView::error(title@),
    {
        Diagnostic::new(Severity::Error, title)
    }

    #[must_use]
    pub fn warning(title: &str) -> (out: Diagnostic)
        ensures
            out@ == DiagnosticView::warning(title@),
    {
        Diagnostic::new(Severity::Warning, title)
    }

    fn new(severity: Severity, title: &str) -> (out: Diagnostic)
        ensures
            out@ == DiagnosticView::of(severity, title@),
    {
        let out = Diagnostic {
            severity,
            title: title.to_owned(),
            location: None,
            notes: Vec::new(),
            helps: Vec::new(),
            recoveries: Vec::new(),
        };
        assert(out@ =~= DiagnosticView::of(severity, title@));
        out
    }

    /// One diagnostic, one location: this replaces any prior one.
    #[must_use]
    pub fn location(self, location: Location) -> (out: Diagnostic)
        ensures
            out@ == self@.at(location@),
    {
        Diagnostic { location: Some(location), ..self }
    }

    /// The *why*. Backtick-wrapped spans render cyan.
    #[must_use]
    pub fn note(self, text: &str) -> (out: Diagnostic)
        ensures
            out@ == self@.note(text@),
    {
        let ghost before = self@;
        let mut out = self;
        out.notes.push(text.to_owned());
        assert(out@ =~= before.note(text@));
        out
    }

    /// The *what to do next*, in prose. For a command to copy, use
    /// [`Diagnostic::recovery`] instead.
    #[must_use]
    pub fn help(self, text: &str) -> (out: Diagnostic)
        ensures
            out@ == self@.help(text@),
    {
        let ghost before = self@;
        let mut out = self;
        out.helps.push(text.to_owned());
        assert(out@ =~= before.help(text@));
        out
    }

    #[must_use]
    pub fn recovery(self, cmd: &str) -> (out: Diagnostic)
        ensures
            out@ == self@.recovery(cmd@),
    {
        let ghost before = self@;
        let mut out = self;
        out.recoveries.push(Recovery { cmd: cmd.to_owned(), desc: None });
        assert(out@ =~= before.recovery(cmd@));
        out
    }

    #[must_use]
    pub fn recovery_with(self, cmd: &str, desc: &str) -> (out: Diagnostic)
        ensures
            out@ == self@.recovery_with(cmd@, desc@),
    {
        let ghost before = self@;
        let mut out = self;
        out.recoveries.push(Recovery { cmd: cmd.to_owned(), desc: Some(desc.to_owned()) });
        assert(out@ =~= before.recovery_with(cmd@, desc@));
        out
    }

    /// Hands back the block for stderr and the [`Exit`] its severity names.
    pub fn emit(&self, colour: bool) -> (out: (String, Exit))
        ensures
            out.0@ == self@.page().shown(colour),
            out.1 == <Exit as vstd::std_specs::convert::FromSpec<Severity>>::from_spec(
                self@.severity,
            ),
    {
        (self.render(colour), Exit::from(self.severity))
    }

    /// Renders the block.
    ///
    /// ```text
    /// error: <title>
    ///   --> <location>
    ///   |
    ///   = note: <note>
    ///   |
    ///   help: <help>
    ///   |
    ///   recovery:
    ///     $ <cmd>
    ///         # <desc>
    /// ```
    #[must_use]
    pub fn render(&self, colour: bool) -> (out: String)
        ensures
            out@ == self@.page().shown(colour),
    {
        let ghost d = self@;
        let mut page = Page::new();
        let (word, tint) = self.severity.prefix();
        page.ink(word, tint);
        page.put(": ");
        page.ink(&self.title, Tint::Bold);
        page.put("\n");

        let mut emitted = false;

        if let Some(location) = &self.location {
            page.put("  ");
            page.ink("-->", Tint::Blue);
            page.put(" ");
            render_location(&mut page, location);
            page.put("\n");
            emitted = true;
        }
        assert(page@ == d.with_location());

        if self.notes.len() > 0 {
            rule(&mut page, emitted);
            let ghost start = page@;
            let mut i: usize = 0;
            while i < self.notes.len()
                invariant
                    i <= self.notes@.len(),
                    d == self@,
                    page@ == notes_page(start, d.notes, i as int),
                decreases self.notes@.len() - i,
            {
                assert(d.notes[i as int] == self.notes@[i as int]@);
                render_note(&mut page, &self.notes[i]);
                i += 1;
            }
            emitted = true;
        }
        assert(page@ == d.with_notes());

        if self.helps.len() > 0 {
            rule(&mut page, emitted);
            let ghost start = page@;
            let mut i: usize = 0;
            while i < self.helps.len()
                invariant
                    i <= self.helps@.len(),
                    d == self@,
                    page@ == helps_page(start, d.helps, i as int),
                decreases self.helps@.len() - i,
            {
                assert(d.helps[i as int] == self.helps@[i as int]@);
                render_help(&mut page, &self.helps[i]);
                i += 1;
            }
            emitted = true;
        }
        assert(page@ == d.with_helps());

        if self.recoveries.len() > 0 {
            rule(&mut page, emitted);
            page.put("  ");
            page.ink("recovery:", Tint::GreenBold);
            page.put("\n");
            let ghost start = page@;
            let mut i: usize = 0;
            while i < self.recoveries.len()
                invariant
                    i <= self.recoveries@.len(),
                    d == self@,
                    page@ == recoveries_page(start, d.recoveries, i as int),
                decreases self.recoveries@.len() - i,
            {
                assert(d.recoveries[i as int] == self.recoveries@[i as int]@);
                render_recovery(&mut page, &self.recoveries[i]);
                i += 1;
            }
        }
        page.show(colour)
    }

    #[must_use]
    pub fn severity(&self) -> (out: Severity)
        ensures
            out == self@.severity,
    {
        self.severity
    }

    #[must_use]
    pub fn title(&self) -> (out: &str)
        ensures
            out@ == self@.title,
    {
        self.title.as_str()
    }

    #[must_use]
    pub fn notes(&self) -> (out: &[String])
        ensures
            text::views(out@) == self@.notes,
    {
        &self.notes
    }

    #[must_use]
    pub fn helps(&self) -> (out: &[String])
        ensures
            text::views(out@) == self@.helps,
    {
        &self.helps
    }

    #[must_use]
    pub fn recoveries(&self) -> (out: &[Recovery])
        ensures
            recovery_views(out@) == self@.recoveries,
    {
        &self.recoveries
    }
}

// ---------------------------------------------------------------------------
// Laws
// ---------------------------------------------------------------------------

/// Colouring the spans of a text drops none of it: without colour, the page reads as it did with
/// the text behind it.
pub proof fn span_colouring_drops_no_text(
    p: PageView,
    s: Seq<char>,
    open: char,
    close: char,
    inside: Tint,
    plain: Option<Tint>,
)
    ensures
        delimited_page(p, s, open, close, inside, plain).shown(false) == p.shown(false) + s,
    decreases s.len(),
{
    let start = text::position(s, open);
    if 0 <= start < s.len() {
        let after = s.skip(start + 1);
        let end = text::position(after, close);
        let before = p.put_in(s.take(start), plain);
        lemma_put(p, s.take(start), plain);
        if 0 <= end < after.len() {
            let span = s.subrange(start, start + end + 2);
            let rest = s.skip(start + end + 2);
            lemma_put(before, span, Some(inside));
            span_colouring_drops_no_text(before.ink(span, inside), rest, open, close, inside, plain);
            assert(p.shown(false) + s.take(start) + span + rest =~= p.shown(false) + s);
        } else {
            lemma_put(before, s.skip(start), plain);
            assert(p.shown(false) + s.take(start) + s.skip(start) =~= p.shown(false) + s);
        }
    } else {
        lemma_put(p, s, plain);
    }
}

proof fn lemma_put(p: PageView, s: Seq<char>, tint: Option<Tint>)
    ensures
        p.put_in(s, tint).shown(false) == p.shown(false) + s,
{
    assert(p.put_in(s, tint).inks.drop_last() =~= p.inks);
    assert(PageView { inks: p.inks } == p);
}

/// The order in which the sections were added does not show: a location, a note, a help and a
/// recovery make the same block however they were put in.
pub proof fn sections_stand_in_one_order(
    d: DiagnosticView,
    at: LocationView,
    note: Seq<char>,
    help: Seq<char>,
    cmd: Seq<char>,
)
    ensures
        d.recovery(cmd).help(help).note(note).at(at).page() == d.at(at).note(note).help(
            help,
        ).recovery(cmd).page(),
        d.note(note).help(help).page() == d.help(help).note(note).page(),
        d.note(note).recovery(cmd).page() == d.recovery(cmd).note(note).page(),
        d.help(help).recovery(cmd).page() == d.recovery(cmd).help(help).page(),
        d.note(note).at(at).page() == d.at(at).note(note).page(),
        d.help(help).at(at).page() == d.at(at).help(help).page(),
        d.recovery(cmd).at(at).page() == d.at(at).recovery(cmd).page(),
{
}

proof fn lemma_delimited_follows(
    p: PageView,
    s: Seq<char>,
    open: char,
    close: char,
    inside: Tint,
    plain: Option<Tint>,
)
    ensures
        p.inks.is_prefix_of(delimited_page(p, s, open, close, inside, plain).inks),
    decreases s.len(),
{
    let out = delimited_page(p, s, open, close, inside, plain);
    let start = text::position(s, open);
    if 0 <= start < s.len() {
        let after = s.skip(start + 1);
        let end = text::position(after, close);
        if 0 <= end < after.len() {
            let q = p.put_in(s.take(start), plain).ink(
                s.subrange(start, start + end + 2),
                inside,
            );
            lemma_delimited_follows(q, s.skip(start + end + 2), open, close, inside, plain);
            assert(q.inks =~= out.inks.subrange(0, q.inks.len() as int));
        }
    }
    assert(p.inks =~= out.inks.subrange(0, p.inks.len() as int));
}

proof fn lemma_recovery_follows(p: PageView, item: RecoveryView)
    ensures
        p.inks.is_prefix_of(recovery_page(p, item).inks),
        item.desc matches Some(desc) ==> restore::says(recovery_page(p, item), desc),
{
    let start = p.put("    "@).ink("$"@, Tint::Dim).put(" "@);
    lemma_delimited_follows(start, item.cmd, '<', '>', Tint::Yellow, Some(Tint::Cyan));
    let shown = placeheld_page(start, item.cmd);
    let out = recovery_page(p, item);
    let n = start.inks.len() as int;
    assert(start.inks =~= shown.inks.subrange(0, n));
    assert forall|i: int| 0 <= i < p.inks.len() implies #[trigger] out.inks[i] == p.inks[i] by {
        assert(shown.inks.subrange(0, n)[i] == shown.inks[i]);
        assert(start.inks[i] == p.inks[i]);
        assert(out.inks[i] == shown.inks[i]);
    }
    assert(p.inks =~= out.inks.subrange(0, p.inks.len() as int));
    if let Some(desc) = item.desc {
        let k = shown.inks.len() as int;
        assert(out.inks[k + 4].text == desc);
    }
}

/// Every way out that a diagnostic offers is printed with what it does.
pub proof fn every_recovery_is_printed(p: PageView, items: Seq<RecoveryView>, n: int, i: int)
    requires
        0 <= i < n <= items.len(),
    ensures
        p.inks.is_prefix_of(recoveries_page(p, items, n).inks),
        items[i].desc matches Some(desc) ==> restore::says(recoveries_page(p, items, n), desc),
    decreases n,
{
    let before = recoveries_page(p, items, n - 1);
    let after = recoveries_page(p, items, n);
    lemma_recovery_follows(before, items[n - 1]);
    if n > 1 {
        every_recovery_is_printed(
            p,
            items,
            n - 1,
            if i < n - 1 {
                i
            } else {
                0
            },
        );
    } else {
        assert(before == p);
        assert(p.inks =~= p.inks.subrange(0, p.inks.len() as int));
    }
    assert(p.inks =~= after.inks.subrange(0, p.inks.len() as int));
    if i < n - 1 {
        if let Some(desc) = items[i].desc {
            restore::lemma_says_on(before, after, desc);
        }
    }
}

proof fn lemma_help_tail_follows(p: PageView, lines: Seq<Seq<char>>, n: int)
    requires
        n <= lines.len(),
    ensures
        p.inks.is_prefix_of(help_tail(p, lines, n).inks),
        forall|i: int| 1 <= i < n ==> restore::says(help_tail(p, lines, n), #[trigger] lines[i]),
    decreases n,
{
    let after = help_tail(p, lines, n);
    if n > 1 {
        lemma_help_tail_follows(p, lines, n - 1);
        let before = help_tail(p, lines, n - 1);
        let k = before.inks.len() as int;
        assert(before.inks =~= after.inks.subrange(0, k));
        assert(after.inks[k + 1].text == lines[n - 1]);
        assert forall|i: int| 1 <= i < n implies restore::says(after, #[trigger] lines[i]) by {
            if i < n - 1 {
                restore::lemma_says_on(before, after, lines[i]);
            }
        }
    }
    assert(p.inks =~= after.inks.subrange(0, p.inks.len() as int));
}

/// Every line of a help is printed.
pub proof fn every_line_of_a_help_is_printed(p: PageView, help: Seq<char>, i: int)
    requires
        0 <= i < text::split(help, '\n').len(),
    ensures
        restore::says(help_page(p, help), text::split(help, '\n')[i]),
{
    let lines = text::split(help, '\n');
    let start = p.put("  "@).ink("help:"@, Tint::CyanBold).put(" "@).line(lines[0]);
    let k = p.inks.len() as int;
    assert(start.inks[k + 3].text == lines[0]);
    lemma_help_tail_follows(start, lines, lines.len() as int);
    if i == 0 {
        restore::lemma_says_on(start, help_page(p, help), lines[0]);
    }
}

/// A diagnostic opens with its severity and its title, in the severity's colour.
pub proof fn a_diagnostic_opens_with_its_title(d: DiagnosticView)
    ensures
        restore::says(d.heading(), d.title),
        restore::says(d.heading(), d.severity.word()),
        d.severity.tint() == Tint::RedBold <==> d.severity == Severity::Error,
        d.severity.word() == "error"@ <==> d.severity == Severity::Error,
{
    let p = d.heading();
    assert(p.inks[0].text == d.severity.word());
    assert(p.inks[2].text == d.title);
    reveal_strlit("error");
    reveal_strlit("warning");
    assert("error"@.len() != "warning"@.len());
}

} // verus!
