//! The hidden `__bootstrap` command: install Tycho and wire up shell
//! completions.
//!
//! It resolves its source checkout from `TYCHO_SRC` rather than from a
//! persisted store, and writes that variable back into the shell rc file so the next
//! run skips discovery.
//!
//! Resolution order: `TYCHO_SRC` if it points at a Tycho checkout, then the config
//! file's `source` key if it points at one, then a bounded scan of the usual checkout
//! roots, then the current directory.

use crate::cli::page::{Page, PageView, Tint};
use crate::cli::report;
use crate::cli::report::{at_file, say, Diagnostic, DiagnosticView, LocationView};
use crate::lines;
use crate::platform::Host;
use crate::primitives::path;
use crate::primitives::path::AbsPath;
use crate::process::{Output, RunError};
use crate::text;
use crate::text::{cat2, cat3, cat4, chars_of, holds_text, left, same, strip_prefix};
use vstd::prelude::*;

verus! {

pub const SRC_ENV: &'static str = "TYCHO_SRC";

#[derive(Clone, Copy, Debug, PartialEq, Eq, Structural)]
pub struct BootstrapArgs {
    /// Write or refresh shell completions without reinstalling the binary
    pub only_completions: bool,
    /// Build with cargo's debug profile: faster to link, slower to run
    pub debug: bool,
}

// ---------------------------------------------------------------------------
// What is printed
// ---------------------------------------------------------------------------

pub open spec fn row_page(label: Seq<char>, value: Seq<char>, tint: Tint) -> PageView {
    PageView::empty().ink(text::padded_right(label, 14), Tint::Dim).put("  "@).ink(value, tint).put(
        "\n"@,
    )
}

/// One step that was taken.
#[must_use]
pub fn row(label: &str, value: &str, tint: Tint, colour: bool) -> (out: String)
    ensures
        out@ == row_page(label@, value@, tint).shown(colour),
{
    let mut page = Page::new();
    page.ink(&left(label, 14), Tint::Dim);
    page.put("  ");
    page.ink(value, tint);
    page.put("\n");
    page.show(colour)
}

/// What the command ends with.
pub open spec fn done_page(shell: Shell) -> PageView {
    PageView::empty().put("\n"@).ink("done"@, Tint::Green).put("\n"@).put("  Run "@).ink(
        shell.hint(),
        Tint::Cyan,
    ).put(" to load completions now.\n"@)
}

#[must_use]
pub fn done(shell: Shell, colour: bool) -> (out: String)
    ensures
        out@ == done_page(shell).shown(colour),
{
    let mut page = Page::new();
    page.put("\n");
    page.ink("done", Tint::Green);
    page.put("\n");
    page.put("  Run ");
    page.ink(shell.reload_hint(), Tint::Cyan);
    page.put(" to load completions now.\n");
    page.show(colour)
}

// ---------------------------------------------------------------------------
// Paths
// ---------------------------------------------------------------------------

/// A name beneath a directory, as text. An absolute name is itself.
pub open spec fn beneath(dir: Seq<char>, name: Seq<char>) -> Seq<char> {
    if name.len() > 0 && name[0] == '/' {
        name
    } else if dir.len() > 0 && dir.last() != '/' {
        dir + "/"@ + name
    } else {
        dir + name
    }
}

pub(crate) fn join(dir: &str, name: &str) -> (out: String)
    ensures
        out@ == beneath(dir@, name@),
{
    let d = chars_of(dir);
    let n = chars_of(name);
    if n.len() > 0 && n[0] == '/' {
        return name.to_owned();
    }
    if d.len() > 0 && d[d.len() - 1] != '/' {
        cat3(dir, "/", name)
    } else {
        cat2(dir, name)
    }
}

/// What stands behind a leading home directory, where one leads.
pub open spec fn behind_home(s: Seq<char>) -> Option<Seq<char>> {
    if text::has_prefix(s, "~/"@) {
        text::without_prefix(s, "~/"@)
    } else if text::has_prefix(s, "~\\"@) {
        text::without_prefix(s, "~\\"@)
    } else if text::has_prefix(s, "$HOME/"@) {
        text::without_prefix(s, "$HOME/"@)
    } else {
        text::without_prefix(s, "${HOME}/"@)
    }
}

pub open spec fn home_expanded(s: Seq<char>, home: Option<Seq<char>>) -> Seq<char> {
    match behind_home(s) {
        Some(rest) => match home {
            Some(home) => beneath(home, rest),
            None => s,
        },
        None => s,
    }
}

/// Expands a leading `~/`, `~\`, `$HOME/` or `${HOME}/` - the same two spellings
/// `config`'s watch paths accept unexpanded, so a value stored either way in
/// `TYCHO_SRC` or the config file resolves the same.
#[must_use]
pub fn expand_home(text: &str, home: Option<&str>) -> (out: String)
    ensures
        out@ == home_expanded(text@, path::view_str_opt(home)),
{
    let mut rest = strip_prefix(text, "~/");
    if rest.is_none() {
        rest = strip_prefix(text, "~\\");
    }
    if rest.is_none() {
        rest = strip_prefix(text, "$HOME/");
    }
    if rest.is_none() {
        rest = strip_prefix(text, "${HOME}/");
    }
    match rest {
        Some(rest) => match home {
            Some(home) => join(home, &rest),
            None => text.to_owned(),
        },
        None => text.to_owned(),
    }
}

/// The text that `toml` reads under a top-level key of a file, where it reads the file and a
/// text stands there.
pub uninterp spec fn toml_text(text: Seq<char>, key: Seq<char>) -> Option<Seq<char>>;

/// Calls `toml::from_str` for a map whose values are `serde`'s `IgnoredAny`, `DeTable::parse`, and
/// `DeValue::as_str` of what stands under the key: what is found depends on the text and the key
/// alone. What stands under any other key is passed over, whatever it is.
#[verifier::external_body]
fn read_key(text: &str, key: &str) -> (out: Option<String>)
    ensures
        text::view_opt(out) == toml_text(text@, key@),
{
    toml::from_str::<std::collections::BTreeMap<String, serde::de::IgnoredAny>>(text).ok()?;
    let table = toml::de::DeTable::parse(text).ok()?;
    table.get_ref().get(key)?.get_ref().as_str().map(str::to_owned)
}

/// The config file's own `source` key alone: top-level, a sibling of `version`, and
/// read leniently rather than judged with the rest, which validates backup
/// semantics this key is not part of and would refuse a file this build cannot fully
/// understand - exactly the file `__bootstrap` is most likely to be run against.
#[must_use]
pub fn config_source(read: Option<&str>, home: Option<&str>) -> (out: Option<String>)
    ensures
        text::view_opt(out) == match read {
            None => None,
            Some(text) => match toml_text(text@, "source"@) {
                Some(raw) => Some(home_expanded(raw, path::view_str_opt(home))),
                None => None,
            },
        },
{
    let read = match read {
        Some(read) => read,
        None => return None,
    };
    match read_key(read, "source") {
        Some(raw) => Some(expand_home(&raw, home)),
        None => None,
    }
}

// ---------------------------------------------------------------------------
// Checkouts
// ---------------------------------------------------------------------------

/// Whether a manifest is Tycho's.
pub open spec fn names_tycho(manifest: Option<Seq<char>>) -> bool {
    manifest matches Some(text) && text::contains_text(text, "name = \"tycho\""@)
}

/// The manifest's own name, not the directory's: a folder called `tycho` holding
/// something else is not a checkout, and a checkout cloned under another name is.
#[must_use]
pub fn is_tycho_checkout(manifest: Option<&str>) -> (out: bool)
    ensures
        out == names_tycho(path::view_str_opt(manifest)),
{
    match manifest {
        Some(text) => holds_text(text, "name = \"tycho\""),
        None => false,
    }
}

/// Where a checkout plausibly lives, per platform.
#[must_use]
pub fn checkout_roots(host: Host, home: &str) -> (out: Vec<String>)
    ensures
        text::views(out@) == {
            let roots = seq![
                beneath(home@, "Developer"@),
                beneath(home@, "Projects"@),
                beneath(home@, "src"@),
                beneath(home@, "code"@),
            ];
            if host == Host::Windows {
                roots.push(beneath(beneath(home@, "source"@), "repos"@))
            } else {
                roots
            }
        },
{
    let mut out: Vec<String> = Vec::new();
    out.push(join(home, "Developer"));
    out.push(join(home, "Projects"));
    out.push(join(home, "src"));
    out.push(join(home, "code"));
    let ghost roots = seq![
        beneath(home@, "Developer"@),
        beneath(home@, "Projects"@),
        beneath(home@, "src"@),
        beneath(home@, "code"@),
    ];
    assert(text::views(out@) =~= roots);
    match host {
        Host::Windows => {
            out.push(join(&join(home, "source"), "repos"));
            assert(text::views(out@) =~= roots.push(beneath(beneath(home@, "source"@), "repos"@)));
        },
        _ => {},
    }
    out
}

/// How many levels down a scan goes: an unbounded walk of a home directory is how a
/// convenience command becomes a thing people avoid running.
pub const DEEPEST: u32 = 4;

/// Directories a scan will not descend into: hidden ones, and those none of which holds a
/// checkout - `target` alone can hold tens of thousands of files.
pub open spec fn is_skipped(name: Seq<char>) -> bool {
    ||| name.len() > 0 && name[0] == '.'
    ||| name == "node_modules"@
    ||| name == "target"@
    ||| name == "build"@
    ||| name == "dist"@
    ||| name == ".git"@
}

#[must_use]
pub fn skips(name: &str) -> (out: bool)
    ensures
        out == is_skipped(name@),
{
    let cs = chars_of(name);
    if cs.len() > 0 && cs[0] == '.' {
        return true;
    }
    same(name, "node_modules") || same(name, "target") || same(name, "build") || same(name, "dist")
        || same(name, ".git")
}

/// A directory to look at, and how many levels below its root it is.
#[derive(Debug, PartialEq, Eq)]
pub struct Pending {
    pub path: String,
    pub depth: u32,
}

pub open spec fn pending_views(v: Seq<Pending>) -> Seq<(Seq<char>, u32)> {
    v.map_values(|p: Pending| (p.path@, p.depth))
}

/// The directories among the first `n` entries of a directory that a scan goes on to.
pub open spec fn deeper(children: Seq<(String, String)>, depth: u32, n: int) -> Seq<
    (Seq<char>, u32),
>
    decreases n,
{
    if n <= 0 || depth >= DEEPEST {
        Seq::empty()
    } else {
        let before = deeper(children, depth, n - 1);
        if is_skipped(children[n - 1].0@) {
            before
        } else {
            before.push((children[n - 1].1@, (depth + 1) as u32))
        }
    }
}

/// One step of the scan: of a directory that is no checkout, given its subdirectories as their
/// names and paths, the ones to look at next. A checkout is not looked into.
pub fn scan(depth: u32, manifest: Option<&str>, children: &[(String, String)]) -> (out: Vec<Pending>)
    ensures
        pending_views(out@) == if names_tycho(path::view_str_opt(manifest)) {
            Seq::empty()
        } else {
            deeper(children@, depth, children@.len() as int)
        },
{
    let mut out: Vec<Pending> = Vec::new();
    assert(pending_views(out@) =~= Seq::empty());
    if is_tycho_checkout(manifest) || depth >= DEEPEST {
        return out;
    }
    let mut i: usize = 0;
    while i < children.len()
        invariant
            i <= children@.len(),
            depth < DEEPEST,
            pending_views(out@) == deeper(children@, depth, i as int),
        decreases children@.len() - i,
    {
        if !skips(&children[i].0) {
            let ghost before = pending_views(out@);
            out.push(Pending { path: children[i].1.clone(), depth: depth + 1 });
            assert(pending_views(out@) =~= before.push(
                (children@[i as int].1@, (depth + 1) as u32),
            ));
        }
        i += 1;
    }
    out
}

/// The first of the checkouts found, in the order of their paths.
pub fn discover(hits: &[AbsPath]) -> (out: Option<usize>)
    ensures
        match out {
            Some(i) => i < hits@.len() && forall|k: int|
                0 <= k < hits@.len() ==> !path::path_less((#[trigger] hits@[k])@, hits@[i as int]@),
            None => hits@.len() == 0,
        },
{
    if hits.len() == 0 {
        return None;
    }
    let mut best: usize = 0;
    let mut i: usize = 0;
    while i < hits.len()
        invariant
            i <= hits@.len(),
            best < hits@.len(),
            forall|k: int|
                0 <= k < i ==> !path::path_less((#[trigger] hits@[k])@, hits@[best as int]@),
        decreases hits@.len() - i,
    {
        if hits[i].precedes(&hits[best]) {
            proof {
                let new = hits@[i as int]@;
                let old_best = hits@[best as int]@;
                assert forall|k: int| 0 <= k < i implies !path::path_less(
                    (#[trigger] hits@[k])@,
                    new,
                ) by {
                    if path::path_less(hits@[k]@, new) {
                        path::lemma_path_transitive(hits@[k]@, new, old_best);
                    }
                }
                path::lemma_path_irreflexive(new);
            }
            best = i;
        } else if i == best {
            proof {
                path::lemma_path_irreflexive(hits@[i as int]@);
            }
        }
        i += 1;
    }
    Some(best)
}

/// A directory that may be the checkout.
#[derive(Debug, PartialEq, Eq)]
pub struct Candidate {
    pub path: String,
    pub checkout: bool,
}

/// Which checkout is used, where one is: the variable's, the config's, the scan's, the current
/// directory, in that order.
pub open spec fn source_of(
    env: Option<Candidate>,
    config: Option<Candidate>,
    scanned: Option<String>,
    cwd: Result<Candidate, String>,
) -> Option<Seq<char>> {
    if env matches Some(c) && c.checkout {
        Some(env->0.path@)
    } else if config matches Some(c) && c.checkout {
        Some(config->0.path@)
    } else if scanned is Some {
        Some(scanned->0@)
    } else if cwd matches Ok(c) && c.checkout {
        Some(cwd->Ok_0.path@)
    } else {
        None
    }
}

pub open spec fn bad_env(shown: Seq<char>) -> DiagnosticView {
    DiagnosticView::warning("$TYCHO_SRC = '"@ + shown + "' is not a tycho checkout"@).at(
        LocationView::File { path: shown, line: None },
    )
}

pub open spec fn bad_config(shown: Seq<char>) -> DiagnosticView {
    DiagnosticView::warning(
        "the config's source = '"@ + shown + "' is not a tycho checkout"@,
    ).at(LocationView::File { path: shown, line: None })
}

pub open spec fn nowhere(shell: Shell) -> DiagnosticView {
    DiagnosticView::error("no tycho checkout found"@).note(
        "$TYCHO_SRC, the config's `source` key and a scan of the usual checkout roots all came up empty"@,
    ).recovery_with(
        match shell {
            Shell::Pwsh => "$env:TYCHO_SRC = \"$HOME\\Developer\\tycho\""@,
            _ => "export TYCHO_SRC=~/Developer/tycho"@,
        },
        "point it at the repo"@,
    )
}

/// What is said on the way to the checkout.
pub open spec fn source_said(
    env: Option<Candidate>,
    config: Option<Candidate>,
    scanned: Option<String>,
    cwd: Result<Candidate, String>,
    shell: Shell,
) -> Seq<DiagnosticView> {
    let said = match env {
        Some(c) => if c.checkout {
            Seq::empty()
        } else {
            seq![bad_env(c.path@)]
        },
        None => Seq::empty(),
    };
    if env matches Some(c) && c.checkout {
        said
    } else {
        let said = match config {
            Some(c) => if c.checkout {
                said
            } else {
                said.push(bad_config(c.path@))
            },
            None => said,
        };
        if (config matches Some(c) && c.checkout) || scanned is Some {
            said
        } else {
            match cwd {
                Err(error) => said.push(
                    DiagnosticView::error("cannot read the current directory: "@ + error@),
                ),
                Ok(c) => if c.checkout {
                    said
                } else {
                    said.push(nowhere(shell))
                },
            }
        }
    }
}

/// Whether the variable or the config settles it, so that no scan is needed.
#[must_use]
pub fn settled(env: &Option<Candidate>, config: &Option<Candidate>) -> (out: bool)
    ensures
        out == ((env matches Some(c) && c.checkout) || (config matches Some(c) && c.checkout)),
{
    let first = match env {
        Some(c) => c.checkout,
        None => false,
    };
    let second = match config {
        Some(c) => c.checkout,
        None => false,
    };
    first || second
}

/// The decision itself, with every source of a candidate passed in rather than read
/// live - which is what lets a bad or absent one be exercised without a real
/// `$TYCHO_SRC`, config file or home directory.
pub fn resolve_source_with(
    env: Option<Candidate>,
    config: Option<Candidate>,
    scanned: Option<String>,
    cwd: Result<Candidate, String>,
    shell: Shell,
) -> (out: (Vec<Diagnostic>, Option<String>))
    ensures
        text::view_opt(out.1) == source_of(env, config, scanned, cwd),
        report::diagnostic_views(out.0@) == source_said(env, config, scanned, cwd, shell),
{
    let mut said: Vec<Diagnostic> = Vec::new();
    assert(report::diagnostic_views(said@) =~= Seq::empty());
    if let Some(c) = &env {
        if c.checkout {
            return (said, Some(c.path.clone()));
        }
        say(
            &mut said,
            Diagnostic::warning(
                &cat3("$TYCHO_SRC = '", &c.path, "' is not a tycho checkout"),
            ).location(at_file(&c.path)),
        );
        assert(report::diagnostic_views(said@) =~= seq![bad_env(c.path@)]);
    }
    if let Some(c) = &config {
        if c.checkout {
            return (said, Some(c.path.clone()));
        }
        say(
            &mut said,
            Diagnostic::warning(
                &cat3("the config's source = '", &c.path, "' is not a tycho checkout"),
            ).location(at_file(&c.path)),
        );
    }
    if let Some(found) = &scanned {
        return (said, Some(found.clone()));
    }
    match &cwd {
        Err(error) => {
            say(
                &mut said,
                Diagnostic::error(&cat2("cannot read the current directory: ", error)),
            );
            (said, None)
        },
        Ok(c) => {
            if c.checkout {
                return (said, Some(c.path.clone()));
            }
            let example = match shell {
                Shell::Pwsh => "$env:TYCHO_SRC = \"$HOME\\Developer\\tycho\"",
                _ => "export TYCHO_SRC=~/Developer/tycho",
            };
            say(
                &mut said,
                Diagnostic::error("no tycho checkout found").note(
                    "$TYCHO_SRC, the config's `source` key and a scan of the usual checkout roots all came up empty",
                ).recovery_with(example, "point it at the repo"),
            );
            (said, None)
        },
    }
}

// ---------------------------------------------------------------------------
// The binary
// ---------------------------------------------------------------------------

/// What cargo is given.
#[must_use]
pub fn install_args(source: &str, debug: bool) -> (out: Vec<String>)
    ensures
        text::views(out@) == if debug {
            seq!["install"@, "--path"@, source@, "--force"@, "--debug"@]
        } else {
            seq!["install"@, "--path"@, source@, "--force"@]
        },
{
    let mut out: Vec<String> = Vec::new();
    out.push("install".to_owned());
    out.push("--path".to_owned());
    out.push(source.to_owned());
    out.push("--force".to_owned());
    if debug {
        out.push("--debug".to_owned());
    }
    assert(text::views(out@) =~= if debug {
        seq!["install"@, "--path"@, source@, "--force"@, "--debug"@]
    } else {
        seq!["install"@, "--path"@, source@, "--force"@]
    });
    out
}

/// An exit code as it is shown, or that there was none.
pub open spec fn code_text(code: Option<i32>) -> Seq<char> {
    match code {
        Some(code) => if code < 0 {
            "Some(-"@ + text::decimal_text((-code) as nat) + ")"@
        } else {
            "Some("@ + text::decimal_text(code as nat) + ")"@
        },
        None => "None"@,
    }
}

/// What an install came to: `Err` where cargo could not be started, else how it exited. `None`
/// is no exit code at all.
///
/// # Errors
///
/// If it failed.
pub fn install_binary(source: &str, outcome: Result<Option<i32>, String>) -> (out: Result<
    (),
    Diagnostic,
>)
    ensures
        match outcome {
            Err(error) => out matches Err(d) && d@ == DiagnosticView::error(
                "failed to spawn cargo: "@ + error@,
            ),
            Ok(code) => if code == Some(0i32) {
                out is Ok
            } else {
                out matches Err(d) && d@ == DiagnosticView::error(
                    "cargo install failed (exit "@ + code_text(code) + ")"@,
                ).recovery_with("cargo install --path "@ + source@, "run it by hand to see why"@)
            },
        },
{
    let code = match outcome {
        Ok(code) => code,
        Err(error) => return Err(Diagnostic::error(&cat2("failed to spawn cargo: ", &error))),
    };
    let shown = match code {
        Some(code) => {
            if code == 0 {
                return Ok(());
            }
            if code < 0 {
                let size: i64 = -(code as i64);
                cat3("Some(-", &text::decimal(size as u64), ")")
            } else {
                cat3("Some(", &text::decimal(code as u64), ")")
            }
        },
        None => "None".to_owned(),
    };
    Err(
        Diagnostic::error(&cat3("cargo install failed (exit ", &shown, ")")).recovery_with(
            &cat2("cargo install --path ", source),
            "run it by hand to see why",
        ),
    )
}

// ---------------------------------------------------------------------------
// Shells
// ---------------------------------------------------------------------------

#[derive(Clone, Copy, Debug, PartialEq, Eq, Structural)]
pub enum Shell {
    Zsh,
    Bash,
    Fish,
    Pwsh,
}

impl Shell {
    /// Windows sets no `$SHELL`, and PowerShell is the shell there with completions
    /// worth generating - `cmd.exe` has none at all.
    pub open spec fn detected(host: Host, shell: Option<Seq<char>>) -> Shell {
        if host == Host::Windows {
            Shell::Pwsh
        } else if shell matches Some(s) && text::contains_text(s, "zsh"@) {
            Shell::Zsh
        } else if shell matches Some(s) && text::contains_text(s, "fish"@) {
            Shell::Fish
        } else {
            Shell::Bash
        }
    }

    pub fn detect(host: Host, shell: Option<&str>) -> (out: Shell)
        ensures
            out == Shell::detected(host, path::view_str_opt(shell)),
    {
        match host {
            Host::Windows => return Shell::Pwsh,
            _ => {},
        }
        match shell {
            Some(shell) => if holds_text(shell, "zsh") {
                Shell::Zsh
            } else if holds_text(shell, "fish") {
                Shell::Fish
            } else {
                Shell::Bash
            },
            None => Shell::Bash,
        }
    }

    pub open spec fn hint(self) -> Seq<char> {
        match self {
            Shell::Pwsh => ". $PROFILE"@,
            _ => "exec $SHELL"@,
        }
    }

    #[must_use]
    pub fn reload_hint(self) -> (out: &'static str)
        ensures
            out@ == self.hint(),
    {
        match self {
            Shell::Pwsh => ". $PROFILE",
            _ => "exec $SHELL",
        }
    }
}

/// The profile that one of two programs named, where one did: what it printed, without the white
/// space around it.
pub open spec fn profile_named(out: Result<Output, RunError>) -> Option<Seq<char>> {
    if out matches Ok(o) && o.success && lines::trimmed(o.shown()).len() > 0 {
        Some(lines::trimmed(out->Ok_0.shown()))
    } else {
        None
    }
}

/// Where PowerShell's profile is: what the first program that answers says, or the default.
pub open spec fn profile_path(
    host: Host,
    home: Seq<char>,
    pwsh: Result<Output, RunError>,
    powershell: Result<Output, RunError>,
) -> Seq<char> {
    if host == Host::Windows {
        match profile_named(pwsh) {
            Some(p) => p,
            None => match profile_named(powershell) {
                Some(p) => p,
                None => beneath(
                    beneath(beneath(home, "Documents"@), "WindowsPowerShell"@),
                    "Microsoft.PowerShell_profile.ps1"@,
                ),
            },
        }
    } else {
        beneath(
            beneath(beneath(home, ".config"@), "powershell"@),
            "Microsoft.PowerShell_profile.ps1"@,
        )
    }
}

fn answered(out: &Result<Output, RunError>) -> (named: Option<String>)
    ensures
        text::view_opt(named) == profile_named(*out),
{
    match out {
        Ok(o) => {
            let shown = o.trimmed();
            if o.success && chars_of(&shown).len() > 0 {
                Some(shown)
            } else {
                None
            }
        },
        Err(_) => None,
    }
}

/// Asked of PowerShell rather than assumed, because OneDrive folder redirection moves
/// `Documents` and the default path is then wrong.
#[must_use]
pub fn powershell_profile(
    host: Host,
    home: &str,
    pwsh: &Result<Output, RunError>,
    powershell: &Result<Output, RunError>,
) -> (out: String)
    ensures
        out@ == profile_path(host, home@, *pwsh, *powershell),
{
    match host {
        Host::Windows => {
            if let Some(p) = answered(pwsh) {
                return p;
            }
            if let Some(p) = answered(powershell) {
                return p;
            }
            join(
                &join(&join(home, "Documents"), "WindowsPowerShell"),
                "Microsoft.PowerShell_profile.ps1",
            )
        },
        _ => join(
            &join(&join(home, ".config"), "powershell"),
            "Microsoft.PowerShell_profile.ps1",
        ),
    }
}

/// Where the completions of a shell go, and what its rc file is to hold, where there is one to
/// touch.
#[derive(Debug, PartialEq, Eq)]
pub struct Completions {
    pub dir: String,
    pub file: &'static str,
    /// The rc file and the block that loads the completions.
    pub rc: Option<(String, String)>,
}

/// The marker that a block in an rc file is known by.
pub const MARKER: &'static str = "# tycho completions";

pub open spec fn completions_dir(shell: Shell, home: Seq<char>, profile_dir: Seq<char>) -> Seq<char> {
    match shell {
        Shell::Zsh => beneath(home, ".zsh/completions"@),
        Shell::Bash => beneath(home, ".bash_completion.d"@),
        Shell::Fish => beneath(home, ".config/fish/completions"@),
        Shell::Pwsh => beneath(profile_dir, "Completions"@),
    }
}

pub open spec fn completions_file(shell: Shell) -> Seq<char> {
    match shell {
        Shell::Zsh => "_tycho"@,
        Shell::Bash => "tycho"@,
        Shell::Fish => "tycho.fish"@,
        Shell::Pwsh => "tycho.ps1"@,
    }
}

/// The rc file that loads the completions and the block it needs. fish auto-loads its
/// directory, so there is no rc file to touch.
pub open spec fn completions_rc(
    shell: Shell,
    home: Seq<char>,
    has_bash_profile: bool,
    profile: Seq<char>,
    profile_dir: Seq<char>,
) -> Option<(Seq<char>, Seq<char>)> {
    match shell {
        Shell::Zsh => Some(
            (
                beneath(home, ".zshrc"@),
                MARKER@ + "\nfpath=(~/.zsh/completions $fpath)\nautoload -U compinit && compinit\n"@,
            ),
        ),
        Shell::Bash => Some(
            (
                beneath(
                    home,
                    if has_bash_profile {
                        ".bash_profile"@
                    } else {
                        ".bashrc"@
                    },
                ),
                MARKER@
                    + "\n[ -f ~/.bash_completion.d/tycho ] && source ~/.bash_completion.d/tycho\n"@,
            ),
        ),
        Shell::Fish => None,
        Shell::Pwsh => Some(
            (
                profile,
                MARKER@ + "\n. \""@ + beneath(
                    beneath(profile_dir, "Completions"@),
                    "tycho.ps1"@,
                ) + "\"\n"@,
            ),
        ),
    }
}

pub open spec fn rc_view(rc: Option<(String, String)>) -> Option<(Seq<char>, Seq<char>)> {
    match rc {
        Some((file, block)) => Some((file@, block@)),
        None => None,
    }
}

/// Where a shell's completions go and how they are loaded, given PowerShell's profile and the
/// directory that holds it.
pub fn write_completions(
    shell: Shell,
    home: &str,
    has_bash_profile: bool,
    profile: &str,
    profile_dir: &str,
) -> (out: Completions)
    ensures
        out.dir@ == completions_dir(shell, home@, profile_dir@),
        out.file@ == completions_file(shell),
        rc_view(out.rc) == completions_rc(
            shell,
            home@,
            has_bash_profile,
            profile@,
            profile_dir@,
        ),
{
    match shell {
        Shell::Zsh => Completions {
            dir: join(home, ".zsh/completions"),
            file: "_tycho",
            rc: Some(
                (
                    join(home, ".zshrc"),
                    cat2(
                        MARKER,
                        "\nfpath=(~/.zsh/completions $fpath)\nautoload -U compinit && compinit\n",
                    ),
                ),
            ),
        },
        Shell::Bash => Completions {
            dir: join(home, ".bash_completion.d"),
            file: "tycho",
            rc: Some(
                (
                    join(
                        home,
                        if has_bash_profile {
                            ".bash_profile"
                        } else {
                            ".bashrc"
                        },
                    ),
                    cat2(
                        MARKER,
                        "\n[ -f ~/.bash_completion.d/tycho ] && source ~/.bash_completion.d/tycho\n",
                    ),
                ),
            ),
        },
        Shell::Fish => Completions {
            dir: join(home, ".config/fish/completions"),
            file: "tycho.fish",
            rc: None,
        },
        Shell::Pwsh => {
            let dir = join(profile_dir, "Completions");
            let block = cat4(MARKER, "\n. \"", &join(&dir, "tycho.ps1"), "\"\n");
            Completions { dir, file: "tycho.ps1", rc: Some((profile.to_owned(), block)) }
        },
    }
}

/// What is appended to an rc file: the block, once.
pub open spec fn patch_of(existing: Seq<char>, marker: Seq<char>, block: Seq<char>) -> Option<
    Seq<char>,
> {
    if text::contains_text(existing, marker) {
        None
    } else {
        Some("\n"@ + block)
    }
}

/// Appends the block once, keyed on a marker, so running this repeatedly does not
/// grow the file. `None` is a file that already holds it.
#[must_use]
pub fn patch_rc(existing: &str, marker: &str, block: &str) -> (out: Option<String>)
    ensures
        text::view_opt(out) == patch_of(existing@, marker@, block@),
{
    if holds_text(existing, marker) {
        return None;
    }
    Some(cat2("\n", block))
}

/// The rc file that keeps the variable.
pub open spec fn env_rc(shell: Shell, home: Seq<char>, has_zshrc: bool, profile: Seq<char>) -> Seq<
    char,
> {
    match shell {
        Shell::Pwsh => profile,
        Shell::Fish => beneath(home, ".config/fish/config.fish"@),
        _ => beneath(
            home,
            if has_zshrc {
                ".zshrc"@
            } else {
                ".bashrc"@
            },
        ),
    }
}

#[must_use]
pub fn source_env_rc(shell: Shell, home: &str, has_zshrc: bool, profile: &str) -> (out: String)
    ensures
        out@ == env_rc(shell, home@, has_zshrc, profile@),
{
    match shell {
        Shell::Pwsh => profile.to_owned(),
        Shell::Fish => join(home, ".config/fish/config.fish"),
        _ => join(
            home,
            if has_zshrc {
                ".zshrc"
            } else {
                ".bashrc"
            },
        ),
    }
}

pub open spec fn env_marker(shell: Shell) -> Seq<char> {
    match shell {
        Shell::Pwsh => "$env:TYCHO_SRC ="@,
        _ => "TYCHO_SRC="@,
    }
}

pub open spec fn env_line(shell: Shell, source: Seq<char>) -> Seq<char> {
    match shell {
        Shell::Pwsh => "\n$env:TYCHO_SRC = \""@ + source + "\"\n"@,
        Shell::Fish => "\nset -gx TYCHO_SRC \""@ + source + "\"\n"@,
        _ => "\nexport TYCHO_SRC=\""@ + source + "\"\n"@,
    }
}

/// The line that keeps the variable in an rc file, unless the file sets it already.
#[must_use]
pub fn persist_source_env(shell: Shell, existing: &str, source: &str) -> (out: Option<String>)
    ensures
        text::view_opt(out) == if text::contains_text(existing@, env_marker(shell)) {
            None
        } else {
            Some(env_line(shell, source@))
        },
{
    let marker = match shell {
        Shell::Pwsh => "$env:TYCHO_SRC =",
        _ => "TYCHO_SRC=",
    };
    if holds_text(existing, marker) {
        return None;
    }
    Some(
        match shell {
            Shell::Pwsh => cat3("\n$env:TYCHO_SRC = \"", source, "\"\n"),
            Shell::Fish => cat3("\nset -gx TYCHO_SRC \"", source, "\"\n"),
            _ => cat3("\nexport TYCHO_SRC=\"", source, "\"\n"),
        },
    )
}

/// What to say where a file or a directory could not be made, opened or written.
#[must_use]
pub fn cannot(verb: &str, shown: &str, error: &str) -> (out: Diagnostic)
    ensures
        out@ == DiagnosticView::error("cannot "@ + verb@ + " "@ + shown@).at(
            LocationView::File { path: shown@, line: None },
        ).note(error@),
{
    Diagnostic::error(&cat4("cannot ", verb, " ", shown)).location(at_file(shown)).note(error)
}

// ---------------------------------------------------------------------------
// Laws
// ---------------------------------------------------------------------------

proof fn lemma_contains_in(a: Seq<char>, b: Seq<char>, c: Seq<char>, part: Seq<char>)
    requires
        text::contains_text(b, part),
    ensures
        text::contains_text(a + b + c, part),
{
    let at = choose|at: int| text::occurs_at(b, part, at);
    let whole = a + b + c;
    assert(whole.subrange(a.len() + at, a.len() + at + part.len()) =~= b.subrange(
        at,
        at + part.len(),
    ));
    assert(text::occurs_at(whole, part, a.len() + at));
}

/// Running it repeatedly does not grow an rc file: once the block is in, nothing more is
/// appended, whatever else the file holds.
pub proof fn patching_is_done_once(existing: Seq<char>, marker: Seq<char>, block: Seq<char>)
    requires
        text::contains_text(block, marker),
    ensures
        patch_of(existing, marker, block) matches Some(more) ==> patch_of(
            existing + more,
            marker,
            block,
        ) is None,
{
    let none = Seq::<char>::empty();
    lemma_contains_in(existing + "\n"@, block, none, marker);
    assert(existing + ("\n"@ + block) =~= existing + "\n"@ + block + none);
}

/// The variable is kept once: where a shell's line reads as its own marker, a file that holds the
/// line is never given another. fish writes `set -gx` without the `=` the marker looks for.
pub proof fn the_variable_is_kept_once(shell: Shell, existing: Seq<char>, source: Seq<char>)
    requires
        shell != Shell::Fish,
    ensures
        text::contains_text(existing + env_line(shell, source), env_marker(shell)),
{
    reveal_strlit("\n$env:TYCHO_SRC = \"");
    reveal_strlit("$env:TYCHO_SRC =");
    reveal_strlit("\nexport TYCHO_SRC=\"");
    reveal_strlit("TYCHO_SRC=");
    let lead = match shell {
        Shell::Pwsh => "\n$env:TYCHO_SRC = \""@,
        _ => "\nexport TYCHO_SRC=\""@,
    };
    let marker = env_marker(shell);
    let at = if shell == Shell::Pwsh {
        1int
    } else {
        8int
    };
    assert(lead.subrange(at, at + marker.len()) =~= marker);
    assert(text::occurs_at(lead, marker, at));
    lemma_contains_in(existing, lead, source + "\"\n"@, marker);
    assert(existing + env_line(shell, source) =~= existing + lead + (source + "\"\n"@));
}

/// Every shell's block is known by the marker.
pub proof fn every_block_is_marked(
    shell: Shell,
    home: Seq<char>,
    has_bash_profile: bool,
    profile: Seq<char>,
    profile_dir: Seq<char>,
)
    ensures
        completions_rc(shell, home, has_bash_profile, profile, profile_dir) matches Some((_, block))
            ==> text::contains_text(block, MARKER@),
{
    if let Some((_, block)) = completions_rc(shell, home, has_bash_profile, profile, profile_dir) {
        let n = MARKER@.len() as int;
        assert(block.subrange(0, n) =~= MARKER@);
        assert(text::occurs_at(block, MARKER@, 0));
    }
}

/// `TYCHO_SRC` outranks the config, which outranks the scan, which outranks the current
/// directory.
pub proof fn sources_are_ranked(
    env: Candidate,
    config: Candidate,
    scanned: String,
    cwd: Result<Candidate, String>,
    any_config: Option<Candidate>,
    any_scan: Option<String>,
)
    ensures
        env.checkout ==> source_of(Some(env), any_config, any_scan, cwd) == Some(env.path@),
        config.checkout ==> source_of(None, Some(config), any_scan, cwd) == Some(config.path@),
        !env.checkout && config.checkout ==> source_of(Some(env), Some(config), any_scan, cwd)
            == Some(config.path@),
        !env.checkout && !config.checkout ==> source_of(
            Some(env),
            Some(config),
            Some(scanned),
            cwd,
        ) == Some(scanned@),
{
}

/// A scan goes no deeper than four levels below its roots.
pub proof fn a_scan_is_bounded(children: Seq<(String, String)>, depth: u32, n: int, i: int)
    requires
        0 <= n <= children.len(),
        0 <= i < deeper(children, depth, n).len(),
    ensures
        deeper(children, depth, n)[i].1 <= DEEPEST,
        deeper(children, depth, n)[i].1 == depth + 1,
    decreases n,
{
    if n > 0 && i < deeper(children, depth, n - 1).len() {
        a_scan_is_bounded(children, depth, n - 1, i);
    }
}

/// A scan goes on into exactly the directories that are not passed over, one level deeper, and into
/// none from its deepest level on.
pub proof fn a_scan_goes_on_into_what_it_may(children: Seq<(String, String)>, depth: u32, n: int)
    requires
        0 <= n <= children.len(),
    ensures
        depth < DEEPEST ==> deeper(children, depth, n) == children.take(n).filter(
            |c: (String, String)| !is_skipped(c.0@),
        ).map_values(|c: (String, String)| (c.1@, (depth + 1) as u32)),
        depth >= DEEPEST ==> deeper(children, depth, n).len() == 0,
    decreases n,
{
    reveal(Seq::filter);
    let keeps = |c: (String, String)| !is_skipped(c.0@);
    let all = children.take(n).filter(keeps).map_values(
        |c: (String, String)| (c.1@, (depth + 1) as u32),
    );
    if n > 0 {
        a_scan_goes_on_into_what_it_may(children, depth, n - 1);
        assert(children.take(n).drop_last() =~= children.take(n - 1));
        assert(children.take(n).last() == children[n - 1]);
        if depth < DEEPEST {
            assert(deeper(children, depth, n) =~= all);
        }
    } else if depth < DEEPEST {
        assert(deeper(children, depth, n) =~= all);
    }
}

/// Every hidden directory is passed over, and so are those that builds fill.
pub proof fn a_scan_passes_over_the_hidden(name: Seq<char>)
    ensures
        name.len() > 0 && name[0] == '.' ==> is_skipped(name),
        is_skipped("node_modules"@) && is_skipped("target"@) && is_skipped("build"@)
            && is_skipped("dist"@),
        is_skipped(name) ==> name[0] == '.' || name == "node_modules"@ || name == "target"@ || name
            == "build"@ || name == "dist"@,
{
    reveal_strlit(".git");
}

/// A path that leads from home is taken beneath the home directory, however its shell writes that,
/// and any other is itself.
pub proof fn home_is_written_four_ways(rest: Seq<char>, home: Seq<char>, other: Seq<char>)
    ensures
        home_expanded("~/"@ + rest, Some(home)) == beneath(home, rest),
        home_expanded("~\\"@ + rest, Some(home)) == beneath(home, rest),
        home_expanded("$HOME/"@ + rest, Some(home)) == beneath(home, rest),
        home_expanded("${HOME}/"@ + rest, Some(home)) == beneath(home, rest),
        other.len() == 0 || (other[0] != '~' && other[0] != '$') ==> home_expanded(
            other,
            Some(home),
        ) == other,
        home_expanded(other, None) == other,
{
    reveal_strlit("~/");
    reveal_strlit("~\\");
    reveal_strlit("$HOME/");
    reveal_strlit("${HOME}/");
    let a = "~/"@ + rest;
    let b = "~\\"@ + rest;
    let c = "$HOME/"@ + rest;
    let d = "${HOME}/"@ + rest;
    assert(a.take(2) =~= "~/"@ && a.skip(2) =~= rest);
    assert(b.take(2) =~= "~\\"@ && b.skip(2) =~= rest);
    assert(c.take(6) =~= "$HOME/"@ && c.skip(6) =~= rest);
    assert(d.take(8) =~= "${HOME}/"@ && d.skip(8) =~= rest);
    assert(b.take(2)[1] != "~/"@[1]);
    assert(c.take(2)[0] != "~/"@[0] && c.take(2)[0] != "~\\"@[0]);
    assert(d.take(2)[0] != "~/"@[0] && d.take(2)[0] != "~\\"@[0]);
    assert(d.take(6)[1] != "$HOME/"@[1]);
    if other.len() > 0 && other[0] != '~' && other[0] != '$' {
        if text::has_prefix(other, "~/"@) {
            assert(other.take(2)[0] == '~');
        }
        if text::has_prefix(other, "~\\"@) {
            assert(other.take(2)[0] == '~');
        }
        if text::has_prefix(other, "$HOME/"@) {
            assert(other.take(6)[0] == '$');
        }
        if text::has_prefix(other, "${HOME}/"@) {
            assert(other.take(8)[0] == '$');
        }
    }
}

/// A name beneath a directory stands behind exactly one separator, unless it leads from the root.
pub proof fn one_separator_stands_between(dir: Seq<char>, name: Seq<char>)
    requires
        dir.len() > 0,
        name.len() == 0 || name[0] != '/',
    ensures
        dir.last() != '/' ==> beneath(dir, name) == dir + seq!['/'] + name,
        dir.last() == '/' ==> beneath(dir, name) == dir + name,
        beneath(dir, seq!['/'] + name) == seq!['/'] + name,
{
    reveal_strlit("/");
    assert("/"@ =~= seq!['/']);
    assert((seq!['/'] + name)[0] == '/');
}

/// A warning is said of every source that was named and is no checkout, up to the one that is used;
/// where none is used an error is.
pub proof fn a_source_that_is_no_checkout_is_told(
    env: Option<Candidate>,
    config: Option<Candidate>,
    scanned: Option<String>,
    cwd: Result<Candidate, String>,
    shell: Shell,
)
    ensures
        ({
            let said = source_said(env, config, scanned, cwd, shell);
            let bad_one = env matches Some(c) && !c.checkout;
            let good_one = env matches Some(c) && c.checkout;
            let bad_two = config matches Some(c) && !c.checkout;
            &&& bad_one ==> said.len() > 0 && said[0] == bad_env(env->0.path@)
            &&& good_one ==> said.len() == 0
            &&& !good_one && bad_two ==> said.contains(bad_config(config->0.path@))
            &&& source_of(env, config, scanned, cwd) is None ==> said.len() > 0
                && said.last().severity == crate::cli::report::Severity::Error
            &&& source_of(env, config, scanned, cwd) is Some ==> forall|i: int|
                0 <= i < said.len() ==> (#[trigger] said[i]).severity
                    == crate::cli::report::Severity::Warning
        }),
{
    let said = source_said(env, config, scanned, cwd, shell);
    let good_one = env matches Some(c) && c.checkout;
    let bad_one = env matches Some(c) && !c.checkout;
    let bad_two = config matches Some(c) && !c.checkout;
    if !good_one && bad_two {
        let at: int = if bad_one {
            1
        } else {
            0
        };
        assert(said[at] == bad_config(config->0.path@));
    }
}

/// Which shell is set up: PowerShell on Windows whatever else is said, and elsewhere the one that
/// the environment names, bash where it names neither of the others.
pub proof fn a_shell_is_known_by_its_name(host: Host, shell: Option<Seq<char>>)
    ensures
        Shell::detected(host, shell) == Shell::Pwsh <==> host == Host::Windows,
        Shell::detected(host, shell) == Shell::Zsh <==> host != Host::Windows && (
        shell matches Some(s) && text::contains_text(s, "zsh"@)),
        Shell::detected(host, shell) == Shell::Fish <==> host != Host::Windows && (
        shell matches Some(s) && !text::contains_text(s, "zsh"@) && text::contains_text(
            s,
            "fish"@,
        )),
{
}

/// PowerShell's profile is where the newer program says, and else where the older one does.
pub proof fn the_newer_program_is_asked_first(
    home: Seq<char>,
    pwsh: Output,
    powershell: Output,
    failed: RunError,
)
    requires
        pwsh.success,
        powershell.success,
        lines::trimmed(pwsh.shown()).len() > 0,
        lines::trimmed(powershell.shown()).len() > 0,
    ensures
        profile_path(Host::Windows, home, Ok(pwsh), Ok(powershell)) == lines::trimmed(pwsh.shown()),
        profile_path(Host::Windows, home, Err(failed), Ok(powershell)) == lines::trimmed(
            powershell.shown(),
        ),
{
}

} // verus!
