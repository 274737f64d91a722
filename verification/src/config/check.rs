//! Validation. Every problem is reported, not just the first.
//!
//! Every check that is decidable without touching a filesystem is made here. The rest - does a
//! watched root exist, is the store's volume mounted, was an alias present in the
//! last backup - belong to the layer that has the filesystem and the store, because
//! this one does no IO.

use crate::text;
use crate::text::{cat2, cat3, cat4, cat6, cat7};
use vstd::prelude::*;
use vstd::string::*;

verus! {

#[derive(Clone, Copy, Debug, PartialEq, Eq, Structural)]
pub enum Severity {
    Error,
    Warning,
}

#[derive(Clone, Debug, PartialEq, Eq)]
pub struct Diagnostic {
    pub severity: Severity,
    pub profile: Option<String>,
    pub kind: DiagnosticKind,
}

/// Typed rather than a formatted string, so a test asserts on the finding instead of
/// on the prose describing it, and the renderer has one place to read from.
#[derive(Clone, Debug, PartialEq, Eq)]
pub enum DiagnosticKind {
    UnknownKey { table: String, key: String },
    MissingProfileName,
    InvalidProfileName { value: String, reason: String },
    DuplicateProfile { name: String },
    DuplicateRemote { name: String },
    MissingRemoteName,
    InvalidRemoteName { value: String, reason: String },
    MissingRemotePath { name: String },
    EmptyWatch,
    BadPath { value: String, reason: String },
    InvalidAlias { value: String, reason: String },
    AliasCollision { alias: String, first: String, second: String },
    NestedWatchedRoot { inner: String, outer: String },
    ConflictingRules { path: String },
    DuplicateStorePath { path: String },
    PathInsideWatchedRoot { what: String, path: String, root: String },
    NoRemotes,
    NoSchedule,
    InvalidSchedule { reason: String },
    InvalidGlob { pattern: String, reason: String },
    InvalidLogLevel { value: String },
    IgnoreOutsideEveryRoot { path: String },
    RedundantWatch { path: String, covered_by: String },
    NoProfiles,
}

/// What a finding says, with its values as text.
pub enum KindView {
    UnknownKey { table: Seq<char>, key: Seq<char> },
    MissingProfileName,
    InvalidProfileName { value: Seq<char>, reason: Seq<char> },
    DuplicateProfile { name: Seq<char> },
    DuplicateRemote { name: Seq<char> },
    MissingRemoteName,
    InvalidRemoteName { value: Seq<char>, reason: Seq<char> },
    MissingRemotePath { name: Seq<char> },
    EmptyWatch,
    BadPath { value: Seq<char>, reason: Seq<char> },
    InvalidAlias { value: Seq<char>, reason: Seq<char> },
    AliasCollision { alias: Seq<char>, first: Seq<char>, second: Seq<char> },
    NestedWatchedRoot { inner: Seq<char>, outer: Seq<char> },
    ConflictingRules { path: Seq<char> },
    DuplicateStorePath { path: Seq<char> },
    PathInsideWatchedRoot { what: Seq<char>, path: Seq<char>, root: Seq<char> },
    NoRemotes,
    NoSchedule,
    InvalidSchedule { reason: Seq<char> },
    InvalidGlob { pattern: Seq<char>, reason: Seq<char> },
    InvalidLogLevel { value: Seq<char> },
    IgnoreOutsideEveryRoot { path: Seq<char> },
    RedundantWatch { path: Seq<char>, covered_by: Seq<char> },
    NoProfiles,
}

impl View for DiagnosticKind {
    type V = KindView;

    open spec fn view(&self) -> KindView {
        match self {
            DiagnosticKind::UnknownKey { table, key } => KindView::UnknownKey { table: table@, key: key@ },
            DiagnosticKind::MissingProfileName => KindView::MissingProfileName,
            DiagnosticKind::InvalidProfileName { value, reason } => KindView::InvalidProfileName { value: value@, reason: reason@ },
            DiagnosticKind::DuplicateProfile { name } => KindView::DuplicateProfile { name: name@ },
            DiagnosticKind::DuplicateRemote { name } => KindView::DuplicateRemote { name: name@ },
            DiagnosticKind::MissingRemoteName => KindView::MissingRemoteName,
            DiagnosticKind::InvalidRemoteName { value, reason } => KindView::InvalidRemoteName { value: value@, reason: reason@ },
            DiagnosticKind::MissingRemotePath { name } => KindView::MissingRemotePath { name: name@ },
            DiagnosticKind::EmptyWatch => KindView::EmptyWatch,
            DiagnosticKind::BadPath { value, reason } => KindView::BadPath { value: value@, reason: reason@ },
            DiagnosticKind::InvalidAlias { value, reason } => KindView::InvalidAlias { value: value@, reason: reason@ },
            DiagnosticKind::AliasCollision { alias, first, second } => KindView::AliasCollision { alias: alias@, first: first@, second: second@ },
            DiagnosticKind::NestedWatchedRoot { inner, outer } => KindView::NestedWatchedRoot { inner: inner@, outer: outer@ },
            DiagnosticKind::ConflictingRules { path } => KindView::ConflictingRules { path: path@ },
            DiagnosticKind::DuplicateStorePath { path } => KindView::DuplicateStorePath { path: path@ },
            DiagnosticKind::PathInsideWatchedRoot { what, path, root } => KindView::PathInsideWatchedRoot { what: what@, path: path@, root: root@ },
            DiagnosticKind::NoRemotes => KindView::NoRemotes,
            DiagnosticKind::NoSchedule => KindView::NoSchedule,
            DiagnosticKind::InvalidSchedule { reason } => KindView::InvalidSchedule { reason: reason@ },
            DiagnosticKind::InvalidGlob { pattern, reason } => KindView::InvalidGlob { pattern: pattern@, reason: reason@ },
            DiagnosticKind::InvalidLogLevel { value } => KindView::InvalidLogLevel { value: value@ },
            DiagnosticKind::IgnoreOutsideEveryRoot { path } => KindView::IgnoreOutsideEveryRoot { path: path@ },
            DiagnosticKind::RedundantWatch { path, covered_by } => KindView::RedundantWatch { path: path@, covered_by: covered_by@ },
            DiagnosticKind::NoProfiles => KindView::NoProfiles,
        }
    }
}

impl KindView {
    pub open spec fn message(self) -> Seq<char> {
        match self {
            KindView::UnknownKey { table, key } => "unknown key '"@ + key + "' in "@ + table,
            KindView::MissingProfileName => "profile has no name"@,
            KindView::InvalidProfileName { value, reason } => "invalid profile name '"@ + value + "': "@ + reason,
            KindView::DuplicateProfile { name } => "duplicate profile name '"@ + name + "'"@,
            KindView::DuplicateRemote { name } => "duplicate remote name '"@ + name + "' in this profile"@,
            KindView::MissingRemoteName => "remote has no name"@,
            KindView::InvalidRemoteName { value, reason } => "invalid remote name '"@ + value + "': "@ + reason,
            KindView::MissingRemotePath { name } => "remote '"@ + name + "' has no path"@,
            KindView::EmptyWatch => "profile watches nothing"@,
            KindView::BadPath { value, reason } => "'"@ + value + "': "@ + reason,
            KindView::InvalidAlias { value, reason } => "invalid alias for '"@ + value + "': "@ + reason,
            KindView::AliasCollision { alias, first, second } => "alias collision: "@ + first + " and "@ + second + " both resolve to '"@ + alias + "'"@,
            KindView::NestedWatchedRoot { inner, outer } => "watched root "@ + inner + " is inside watched root "@ + outer,
            KindView::ConflictingRules { path } => path + " is both ignored and watched or re-included; one of them must go"@,
            KindView::DuplicateStorePath { path } => "two profiles resolve to the same store_path "@ + path,
            KindView::PathInsideWatchedRoot { what, path, root } => "the "@ + what + " "@ + path + " is inside watched root "@ + root,
            KindView::NoRemotes => "profile has no remotes; set local_only = true to confirm this is intended"@,
            KindView::NoSchedule => "profile has no schedule, so it only runs manually"@,
            KindView::InvalidSchedule { reason } => "invalid schedule: "@ + reason,
            KindView::InvalidGlob { pattern, reason } => "invalid glob '"@ + pattern + "': "@ + reason,
            KindView::InvalidLogLevel { value } => "invalid log_level '"@ + value + "'"@,
            KindView::IgnoreOutsideEveryRoot { path } => "ignore path "@ + path + " is not under any watched root, so it can never fire"@,
            KindView::RedundantWatch { path, covered_by } => "watched root "@ + path + " is already covered by "@ + covered_by,
            KindView::NoProfiles => "the config defines no profiles"@,
        }
    }

    /// The suggestion `config check` prints under the message, where there is one.
    pub open spec fn hint(self) -> Option<Seq<char>> {
        match self {
            KindView::AliasCollision { first, .. } => Some(
                "give one an explicit name: { path = \""@ + first + "\", name = \"...\" }"@,
            ),
            KindView::NoRemotes => Some("local_only = true"@),
            KindView::NoProfiles => Some("tycho profile add <name> --local-only"@),
            _ => None,
        }
    }
}

impl DiagnosticKind {
    #[verifier::rlimit(30)]
    pub fn text(&self) -> (out: String)
        ensures
            out@ == self@.message(),
    {
        match self {
            DiagnosticKind::UnknownKey { table, key } => cat4("unknown key '", key, "' in ", table),
            DiagnosticKind::MissingProfileName => "profile has no name".to_owned(),
            DiagnosticKind::InvalidProfileName { value, reason } => cat4("invalid profile name '", value, "': ", reason),
            DiagnosticKind::DuplicateProfile { name } => cat3("duplicate profile name '", name, "'"),
            DiagnosticKind::DuplicateRemote { name } => cat3("duplicate remote name '", name, "' in this profile"),
            DiagnosticKind::MissingRemoteName => "remote has no name".to_owned(),
            DiagnosticKind::InvalidRemoteName { value, reason } => cat4("invalid remote name '", value, "': ", reason),
            DiagnosticKind::MissingRemotePath { name } => cat3("remote '", name, "' has no path"),
            DiagnosticKind::EmptyWatch => "profile watches nothing".to_owned(),
            DiagnosticKind::BadPath { value, reason } => cat4("'", value, "': ", reason),
            DiagnosticKind::InvalidAlias { value, reason } => cat4("invalid alias for '", value, "': ", reason),
            DiagnosticKind::AliasCollision { alias, first, second } => cat7("alias collision: ", first, " and ", second, " both resolve to '", alias, "'"),
            DiagnosticKind::NestedWatchedRoot { inner, outer } => cat4("watched root ", inner, " is inside watched root ", outer),
            DiagnosticKind::ConflictingRules { path } => cat2(path, " is both ignored and watched or re-included; one of them must go"),
            DiagnosticKind::DuplicateStorePath { path } => cat2("two profiles resolve to the same store_path ", path),
            DiagnosticKind::PathInsideWatchedRoot { what, path, root } => cat6("the ", what, " ", path, " is inside watched root ", root),
            DiagnosticKind::NoRemotes => "profile has no remotes; set local_only = true to confirm this is intended".to_owned(),
            DiagnosticKind::NoSchedule => "profile has no schedule, so it only runs manually".to_owned(),
            DiagnosticKind::InvalidSchedule { reason } => cat2("invalid schedule: ", reason),
            DiagnosticKind::InvalidGlob { pattern, reason } => cat4("invalid glob '", pattern, "': ", reason),
            DiagnosticKind::InvalidLogLevel { value } => cat3("invalid log_level '", value, "'"),
            DiagnosticKind::IgnoreOutsideEveryRoot { path } => cat3("ignore path ", path, " is not under any watched root, so it can never fire"),
            DiagnosticKind::RedundantWatch { path, covered_by } => cat4("watched root ", path, " is already covered by ", covered_by),
            DiagnosticKind::NoProfiles => "the config defines no profiles".to_owned(),
        }
    }
}

impl Diagnostic {
    /// The suggestion `config check` prints under the message, where there is one.
    #[must_use]
    pub fn hint(&self) -> (out: Option<String>)
        ensures
            text::view_opt(out) == self.kind@.hint(),
    {
        match &self.kind {
            DiagnosticKind::AliasCollision { first, .. } => Some(
                cat3(
                    "give one an explicit name: { path = \"",
                    first,
                    "\", name = \"...\" }",
                ),
            ),
            DiagnosticKind::NoRemotes => Some("local_only = true".to_owned()),
            DiagnosticKind::NoProfiles => Some("tycho profile add <name> --local-only".to_owned()),
            _ => None,
        }
    }
}

/// A finding, and the profile it is about.
pub struct DiagView {
    pub severity: Severity,
    pub profile: Option<Seq<char>>,
    pub kind: KindView,
}

impl View for Diagnostic {
    type V = DiagView;

    open spec fn view(&self) -> DiagView {
        DiagView { severity: self.severity, profile: text::view_opt(self.profile), kind: self.kind@ }
    }
}

pub open spec fn diag_views(diagnostics: Seq<Diagnostic>) -> Seq<DiagView> {
    diagnostics.map_values(|d: Diagnostic| d@)
}

/// A finding before it is known which profile it is about.
#[derive(Debug)]
pub struct Note {
    pub severity: Severity,
    pub kind: DiagnosticKind,
}

pub struct NoteView {
    pub severity: Severity,
    pub kind: KindView,
}

impl View for Note {
    type V = NoteView;

    open spec fn view(&self) -> NoteView {
        NoteView { severity: self.severity, kind: self.kind@ }
    }
}

pub open spec fn note_views(notes: Seq<Note>) -> Seq<NoteView> {
    notes.map_values(|n: Note| n@)
}

/// An error.
pub open spec fn error_of(kind: KindView) -> NoteView {
    NoteView { severity: Severity::Error, kind }
}

/// A warning.
pub open spec fn warning_of(kind: KindView) -> NoteView {
    NoteView { severity: Severity::Warning, kind }
}

pub fn push_error(notes: &mut Vec<Note>, kind: DiagnosticKind)
    ensures
        note_views(final(notes)@) == note_views(old(notes)@).push(error_of(kind@)),
{
    let ghost before = note_views(notes@);
    notes.push(Note { severity: Severity::Error, kind });
    assert(note_views(notes@) =~= before.push(error_of(kind@)));
}

pub fn push_warning(notes: &mut Vec<Note>, kind: DiagnosticKind)
    ensures
        note_views(final(notes)@) == note_views(old(notes)@).push(warning_of(kind@)),
{
    let ghost before = note_views(notes@);
    notes.push(Note { severity: Severity::Warning, kind });
    assert(note_views(notes@) =~= before.push(warning_of(kind@)));
}

} // verus!
