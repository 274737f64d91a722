//! Layer 3. `.tycho/rules.toml`: rules that live with the data they govern.
//!
//! Parsing is pure - the walk reads the file and hands the values here - so the
//! containment rules are testable without a filesystem, like the rest of the
//! rule engine.

use crate::text;
use crate::config::raw::VERSION;
use crate::octets;
use crate::octets::extend;
use crate::primitives::path::AbsPath;
use crate::text::{cat2, cat3, cat6, chars_of, decimal, find, same, split_text, strip_suffix};
use vstd::prelude::*;
use vstd::string::*;
use vstd::utf8::*;

verus! {

/// The directory a watched tree scopes rules in.
pub const DIR_NAME: &'static str = ".tycho";

/// The rule file inside [`DIR_NAME`].
pub const FILE_NAME: &'static str = "rules.toml";

/// One path entry as written, resolved against the declaring directory.
#[derive(Debug, PartialEq, Eq)]
pub struct Entry {
    pub text: String,
    pub line: u32,
    /// The absolute path the entry names.
    pub path: AbsPath,
}

/// One glob entry as written. Anchoring to the declaring directory happens when
/// the tree compiles it.
#[derive(Debug, PartialEq, Eq)]
pub struct GlobEntry {
    pub text: String,
    pub line: u32,
}

/// A parsed rule file. Unknown keys are carried rather than dropped, so a run
/// can warn about them and `config check` can refuse them.
#[derive(Debug, PartialEq, Eq)]
pub struct LocalRules {
    pub ignore: Vec<Entry>,
    pub reinclude: Vec<Entry>,
    pub globs: Vec<GlobEntry>,
    pub unknown: Vec<String>,
}

impl Default for LocalRules {
    fn default() -> (out: Self)
        ensures
            out.ignore@.len() == 0,
            out.reinclude@.len() == 0,
            out.globs@.len() == 0,
            out.unknown@.len() == 0,
    {
        LocalRules {
            ignore: Vec::new(),
            reinclude: Vec::new(),
            globs: Vec::new(),
            unknown: Vec::new(),
        }
    }
}

impl LocalRules {
    /// How many rules the file declares.
    #[must_use]
    pub fn len(&self) -> (out: usize)
        requires
            self.ignore@.len() + self.reinclude@.len() + self.globs@.len() <= usize::MAX,
        ensures
            out == self.ignore@.len() + self.reinclude@.len() + self.globs@.len(),
    {
        self.ignore.len() + self.reinclude.len() + self.globs.len()
    }

    #[must_use]
    pub fn is_empty(&self) -> (out: bool)
        ensures
            out == (self.ignore@.len() == 0 && self.reinclude@.len() == 0 && self.globs@.len()
                == 0),
    {
        self.ignore.len() == 0 && self.reinclude.len() == 0 && self.globs.len() == 0
    }
}

#[allow(inconsistent_fields)]
#[derive(Debug, PartialEq, Eq)]
pub enum LocalRuleError {
    Malformed { reason: String },
    MissingVersion,
    WrongVersion { found: u32 },
    WatchKey { line: u32 },
    Escapes { line: u32, text: String, reason: &'static str },
}

impl LocalRuleError {
    pub open spec fn message(self) -> Seq<char> {
        match self {
            LocalRuleError::Malformed { reason } => "not valid TOML: "@ + reason@,
            LocalRuleError::MissingVersion => "missing `version = 1`"@,
            LocalRuleError::WrongVersion { found } => "version "@ + text::decimal_text(found as nat)
                + "; this tycho reads version 1"@,
            LocalRuleError::WatchKey { line } => "line "@ + text::decimal_text(line as nat)
                + ": a local file cannot declare `watch` - it scopes a watch, it cannot create one"@,
            LocalRuleError::Escapes { line, text, reason } => "line "@ + text::decimal_text(line as nat)
                + ": '"@ + text@ + "' "@ + reason@,
        }
    }

    pub fn text(&self) -> (out: String)
        ensures
            out@ == self.message(),
    {
        match self {
            LocalRuleError::Malformed { reason } => cat2("not valid TOML: ", reason),
            LocalRuleError::MissingVersion => "missing `version = 1`".to_owned(),
            LocalRuleError::WrongVersion { found } => cat3(
                "version ",
                &decimal(*found as u64),
                "; this tycho reads version 1",
            ),
            LocalRuleError::WatchKey { line } => cat3(
                "line ",
                &decimal(*line as u64),
                ": a local file cannot declare `watch` - it scopes a watch, it cannot create one",
            ),
            LocalRuleError::Escapes { line, text, reason } => cat6(
                "line ",
                &decimal(*line as u64),
                ": '",
                text,
                "' ",
                reason,
            ),
        }
    }
}

/// A value and the byte at which it starts in its file.
#[derive(Debug)]
pub struct Spanned {
    pub text: String,
    pub start: usize,
}

/// The values a rule file holds, before any of them is judged.
#[derive(Debug)]
pub struct RawLocal {
    pub version: Option<u32>,
    pub ignore: Vec<Spanned>,
    pub reinclude: Vec<Spanned>,
    pub globs: Vec<Spanned>,
    /// Where `watch` starts, if the file has one.
    pub watch: Option<usize>,
}

/// The keys that `toml` reads at the top of a text, in the order of its table, or what it says of
/// a text that it does not read as a table.
pub uninterp spec fn table_keys(text: Seq<char>) -> Result<Seq<Seq<char>>, Seq<char>>;

/// Calls `toml::from_str` for a `toml::Table`, `Table::into_iter`, and `Error`'s `Display` where
/// that fails: the keys, or what is said, depend on the text alone. An integer that no table can
/// hold fails here, whatever its key.
#[verifier::external_body]
fn read_table_keys(text: &str) -> (out: Result<Vec<String>, String>)
    ensures
        match out {
            Ok(keys) => table_keys(text@) == Ok::<Seq<Seq<char>>, Seq<char>>(text::views(keys@)),
            Err(said) => table_keys(text@) == Err::<Seq<Seq<char>>, Seq<char>>(said@),
        },
{
    let table = toml::from_str::<toml::Table>(text).map_err(|error| error.to_string())?;
    Ok(table.into_iter().map(|(key, _)| key).collect())
}

pub open spec fn known_key(key: Seq<char>) -> bool {
    key == "version"@ || key == "ignore"@ || key == "reinclude"@ || key == "globs"@ || key
        == "watch"@
}

/// The keys that mean nothing here, in order.
pub open spec fn unknown_keys(keys: Seq<Seq<char>>) -> Seq<Seq<char>>
    decreases keys.len(),
{
    if keys.len() == 0 {
        Seq::empty()
    } else if known_key(keys.last()) {
        unknown_keys(keys.drop_last())
    } else {
        unknown_keys(keys.drop_last()).push(keys.last())
    }
}

/// How many line breaks there are among the first `n` bytes.
pub open spec fn newlines(raw: Seq<u8>, n: int) -> nat
    decreases n,
{
    if n <= 0 {
        0
    } else if raw[n - 1] == 10 {
        newlines(raw, n - 1) + 1
    } else {
        newlines(raw, n - 1)
    }
}

/// The line on which a byte stands, counted from one.
pub open spec fn line_at(raw: Seq<u8>, offset: int) -> u32 {
    (1 + newlines(raw, offset)) as u32
}

/// Why an entry may not stand in a rule file, the first reason that applies.
pub open spec fn escape_reason(text: Seq<char>) -> Option<Seq<char>> {
    let trimmed = without_slash(text);
    if text.len() > 0 && (text[0] == '/' || text[0] == '\\' || text[0] == '~' || text[0] == '$') {
        Some("is not relative to the directory that declares it"@)
    } else if text.contains('\\') {
        Some("uses `\\`; entries use `/` on every platform"@)
    } else if drive_letter(text) {
        Some("carries a drive letter, so it is not relative"@)
    } else if trimmed.len() == 0 || trimmed == "."@ {
        Some(
            "names the declaring directory itself, which is already captured - that is what admitted this file"@,
        )
    } else {
        component_reason(text::split(trimmed, '/'))
    }
}

/// The text without one trailing slash, the one gitignore habit worth absorbing.
pub open spec fn without_slash(text: Seq<char>) -> Seq<char> {
    match text::without_suffix(text, "/"@) {
        Some(trimmed) => trimmed,
        None => text,
    }
}

pub open spec fn drive_letter(text: Seq<char>) -> bool {
    text.len() >= 2 && text[1] == ':' && ('a' <= text[0] && text[0] <= 'z' || 'A' <= text[0]
        && text[0] <= 'Z')
}

/// What is wrong with the first component that is wrong.
pub open spec fn component_reason(parts: Seq<Seq<char>>) -> Option<Seq<char>>
    decreases parts.len(),
{
    if parts.len() == 0 {
        None
    } else {
        match component_reason(parts.drop_last()) {
            Some(reason) => Some(reason),
            None => {
                if parts.last() == ".."@ {
                    Some("escapes the directory that declares it"@)
                } else if parts.last().len() == 0 || parts.last() == "."@ {
                    Some("has an empty or `.` component"@)
                } else {
                    None
                }
            },
        }
    }
}

pub open spec fn unusable() -> Seq<char> {
    "does not join into a usable path"@
}

/// What is wrong with a path entry.
pub open spec fn entry_reason(base: Seq<Seq<u8>>, text: Seq<char>) -> Option<Seq<char>> {
    match escape_reason(text) {
        Some(reason) => Some(reason),
        None => if crate::primitives::path::components_under(
            base,
            encode_utf8(without_slash(text)),
        ).contains(crate::primitives::path::dot_dot()) {
            Some(unusable())
        } else {
            None
        },
    }
}

/// The path an entry names beneath its base.
pub open spec fn entry_path(base: Seq<Seq<u8>>, text: Seq<char>) -> Seq<Seq<u8>> {
    base + crate::primitives::path::components_under(base, encode_utf8(without_slash(text)))
}

pub open spec fn is_entry(e: Entry, s: Spanned, source: Seq<u8>, base: Seq<Seq<u8>>) -> bool {
    &&& e.text@ == s.text@
    &&& e.line == line_at(source, s.start as int)
    &&& e.path@ == entry_path(base, s.text@)
    &&& entry_reason(base, s.text@) is None
}

pub open spec fn are_entries(
    out: Seq<Entry>,
    raw: Seq<Spanned>,
    source: Seq<u8>,
    base: Seq<Seq<u8>>,
) -> bool {
    &&& out.len() == raw.len()
    &&& forall|i: int| 0 <= i < out.len() ==> is_entry(#[trigger] out[i], raw[i], source, base)
}

pub open spec fn are_globs(out: Seq<GlobEntry>, raw: Seq<Spanned>, source: Seq<u8>) -> bool {
    &&& out.len() == raw.len()
    &&& forall|i: int|
        0 <= i < out.len() ==> (#[trigger] out[i]).text@ == raw[i].text@ && out[i].line == line_at(
            source,
            raw[i].start as int,
        ) && escape_reason(raw[i].text@) is None
}

/// The entry at `at` is the first that breaks containment.
pub open spec fn first_escape(
    raw: Seq<Spanned>,
    at: int,
    reason_of: spec_fn(Seq<char>) -> Option<Seq<char>>,
) -> bool {
    &&& 0 <= at < raw.len()
    &&& reason_of(raw[at].text@) is Some
    &&& forall|i: int| 0 <= i < at ==> reason_of((#[trigger] raw[i]).text@) is None
}

pub open spec fn none_escapes(
    raw: Seq<Spanned>,
    reason_of: spec_fn(Seq<char>) -> Option<Seq<char>>,
) -> bool {
    forall|i: int| 0 <= i < raw.len() ==> reason_of((#[trigger] raw[i]).text@) is None
}

/// Whether an error is the report of the first entry in a list that breaks containment.
pub open spec fn reports_escape(
    e: LocalRuleError,
    raw: Seq<Spanned>,
    source: Seq<u8>,
    reason_of: spec_fn(Seq<char>) -> Option<Seq<char>>,
) -> bool {
    match e {
        LocalRuleError::Escapes { line, text, reason } => exists|at: int|
            #[trigger] first_escape(raw, at, reason_of) && text@ == raw[at].text@ && line == line_at(
                source,
                raw[at].start as int,
            ) && reason_of(raw[at].text@) == Some(reason@),
        _ => false,
    }
}

pub open spec fn path_reason(base: Seq<Seq<u8>>) -> spec_fn(Seq<char>) -> Option<Seq<char>> {
    |text: Seq<char>| entry_reason(base, text)
}

pub open spec fn glob_reason() -> spec_fn(Seq<char>) -> Option<Seq<char>> {
    |text: Seq<char>| escape_reason(text)
}

pub open spec fn starts_inside(raw: Seq<Spanned>, len: nat) -> bool {
    forall|i: int| 0 <= i < raw.len() ==> (#[trigger] raw[i]).start <= len
}

fn line_of(source: &[u8], offset: usize) -> (out: u32)
    requires
        offset <= source@.len(),
    ensures
        out == line_at(source@, offset as int),
{
    let mut count: u128 = 1;
    let mut i: usize = 0;
    while i < offset
        invariant
            i <= offset <= source@.len(),
            count == 1 + newlines(source@, i as int),
            count <= 1 + i,
        decreases offset - i,
    {
        if source[i] == 10 {
            count += 1;
        }
        i += 1;
    }
    #[verifier::truncate]
    (count as u32)
}

pub(crate) fn has_drive_letter(cs: &[char]) -> (out: bool)
    ensures
        out == drive_letter(cs@),
{
    cs.len() >= 2 && cs[1] == ':' && (('a' <= cs[0] && cs[0] <= 'z') || ('A' <= cs[0] && cs[0]
        <= 'Z'))
}

/// The containment invariant: an entry may only name what sits at or below the
/// declaring directory. Every violation is an error rather than a warning,
/// because a rule that silently reached elsewhere would take or drop files
/// nobody named. Returns the text with a single trailing `/` stripped, or the reason.
pub fn contained(text: &str) -> (out: Result<String, &'static str>)
    ensures
        match out {
            Ok(trimmed) => escape_reason(text@) is None && trimmed@ == without_slash(text@),
            Err(reason) => escape_reason(text@) == Some(reason@),
        },
{
    let cs = chars_of(text);
    if cs.len() > 0 && (cs[0] == '/' || cs[0] == '\\' || cs[0] == '~' || cs[0] == '$') {
        return Err("is not relative to the directory that declares it");
    }
    let back = find(&cs, '\\');
    proof {
        crate::text::lemma_position_bounds(cs@, '\\');
    }
    if back.is_some() {
        return Err("uses `\\`; entries use `/` on every platform");
    }
    assert(!text@.contains('\\'));
    if has_drive_letter(&cs) {
        return Err("carries a drive letter, so it is not relative");
    }
    let trimmed = match strip_suffix(text, "/") {
        Some(trimmed) => trimmed,
        None => text.to_owned(),
    };
    if trimmed.as_str().is_empty() || same(&trimmed, ".") {
        return Err(
            "names the declaring directory itself, which is already captured - that is what admitted this file",
        );
    }
    let parts = split_text(&trimmed, '/');
    let ghost all = text::split(trimmed@, '/');
    let mut i: usize = 0;
    assert(all.take(0) =~= Seq::<Seq<char>>::empty());
    while i < parts.len()
        invariant
            i <= parts@.len(),
            text::views(parts@) == all,
            component_reason(all.take(i as int)) is None,
            escape_reason(text@) == component_reason(all),
        decreases parts@.len() - i,
    {
        let part = &parts[i];
        proof {
            assert(all.take(i + 1).drop_last() =~= all.take(i as int));
            assert(all.take(i + 1).last() == text::views(parts@)[i as int]);
            assert(text::views(parts@)[i as int] == part@);
        }
        if same(part, "..") {
            proof {
                lemma_component_reason(all, i + 1);
            }
            return Err("escapes the directory that declares it");
        }
        if part.as_str().is_empty() || same(part, ".") {
            proof {
                lemma_component_reason(all, i + 1);
            }
            return Err("has an empty or `.` component");
        }
        i += 1;
    }
    assert(all.take(i as int) =~= all);
    Ok(trimmed)
}

/// The first reason among some components stays the first among more of them.
proof fn lemma_component_reason(parts: Seq<Seq<char>>, n: int)
    requires
        0 <= n <= parts.len(),
        component_reason(parts.take(n)) is Some,
    ensures
        component_reason(parts) == component_reason(parts.take(n)),
    decreases parts.len() - n,
{
    if n < parts.len() {
        assert(parts.take(n + 1).drop_last() =~= parts.take(n));
        lemma_component_reason(parts, n + 1);
    } else {
        assert(parts.take(n) =~= parts);
    }
}

fn entry(source: &[u8], base: &AbsPath, spanned: &Spanned) -> (out: Result<Entry, LocalRuleError>)
    requires
        spanned.start <= source@.len(),
    ensures
        match out {
            Ok(e) => is_entry(e, *spanned, source@, base@),
            Err(LocalRuleError::Escapes { line, text, reason }) => {
                &&& line == line_at(source@, spanned.start as int)
                &&& text@ == spanned.text@
                &&& entry_reason(base@, spanned.text@) == Some(reason@)
            },
            Err(_) => false,
        },
{
    let line = line_of(source, spanned.start);
    let relative = match contained(&spanned.text) {
        Ok(relative) => relative,
        Err(reason) => {
            return Err(LocalRuleError::Escapes { line, text: spanned.text.clone(), reason });
        },
    };
    let mut raw = base.as_path();
    raw.push(base.separator());
    extend(&mut raw, relative.as_str().as_bytes());
    let ghost tail = encode_utf8(relative@);
    // What a path is made of is known of its parts.
    let _ = base.parts();
    proof {
        assert(raw@ =~= crate::primitives::path::written(base@) + seq![
            crate::primitives::path::separator(base@),
        ] + tail);
        crate::primitives::path::lemma_components_beneath(base@, tail, octets::lossy(raw@));
    }
    match AbsPath::from_absolute_on(base.on_drive(), &raw) {
        Ok(path) => Ok(Entry { text: spanned.text.clone(), line, path }),
        Err(_) => Err(
            LocalRuleError::Escapes {
                line,
                text: spanned.text.clone(),
                reason: "does not join into a usable path",
            },
        ),
    }
}

fn entries(source: &[u8], base: &AbsPath, raw: &Vec<Spanned>) -> (out: Result<
    Vec<Entry>,
    LocalRuleError,
>)
    requires
        starts_inside(raw@, source@.len()),
    ensures
        match out {
            Ok(es) => are_entries(es@, raw@, source@, base@) && none_escapes(raw@, path_reason(base@)),
            Err(e) => reports_escape(e, raw@, source@, path_reason(base@)),
        },
{
    let mut out: Vec<Entry> = Vec::new();
    let mut i: usize = 0;
    while i < raw.len()
        invariant
            i <= raw@.len(),
            starts_inside(raw@, source@.len()),
            out@.len() == i,
            forall|j: int| 0 <= j < i ==> is_entry(#[trigger] out@[j], raw@[j], source@, base@),
            forall|j: int| 0 <= j < i ==> entry_reason(base@, (#[trigger] raw@[j]).text@) is None,
        decreases raw@.len() - i,
    {
        match entry(source, base, &raw[i]) {
            Ok(e) => {
                out.push(e);
            },
            Err(e) => {
                assert(first_escape(raw@, i as int, path_reason(base@)));
                return Err(e);
            },
        }
        i += 1;
    }
    Ok(out)
}

fn glob_entries(source: &[u8], raw: &Vec<Spanned>) -> (out: Result<Vec<GlobEntry>, LocalRuleError>)
    requires
        starts_inside(raw@, source@.len()),
    ensures
        match out {
            Ok(es) => are_globs(es@, raw@, source@) && none_escapes(raw@, glob_reason()),
            Err(e) => reports_escape(e, raw@, source@, glob_reason()),
        },
{
    let mut out: Vec<GlobEntry> = Vec::new();
    let mut i: usize = 0;
    while i < raw.len()
        invariant
            i <= raw@.len(),
            starts_inside(raw@, source@.len()),
            out@.len() == i,
            forall|j: int|
                0 <= j < i ==> (#[trigger] out@[j]).text@ == raw@[j].text@ && out@[j].line
                    == line_at(source@, raw@[j].start as int),
            forall|j: int| 0 <= j < i ==> escape_reason((#[trigger] raw@[j]).text@) is None,
        decreases raw@.len() - i,
    {
        let line = line_of(source, raw[i].start);
        let text = raw[i].text.clone();
        match contained(&text) {
            Ok(_) => {
                out.push(GlobEntry { text, line });
            },
            Err(reason) => {
                assert(first_escape(raw@, i as int, glob_reason()));
                return Err(LocalRuleError::Escapes { line, text, reason });
            },
        }
        i += 1;
    }
    Ok(out)
}

/// The keys of a rule file that mean nothing in one, in order.
pub fn keys_left(keys: &Vec<String>) -> (out: Vec<String>)
    ensures
        text::views(out@) == unknown_keys(text::views(keys@)),
{
    let ghost all = text::views(keys@);
    let mut out: Vec<String> = Vec::new();
    let mut i: usize = 0;
    assert(text::views(out@) =~= unknown_keys(all.take(0)));
    while i < keys.len()
        invariant
            i <= keys@.len(),
            all == text::views(keys@),
            text::views(out@) == unknown_keys(all.take(i as int)),
        decreases keys@.len() - i,
    {
        let key = &keys[i];
        let ghost before = text::views(out@);
        proof {
            assert(all.take(i + 1).drop_last() =~= all.take(i as int));
            assert(all.take(i + 1).last() == key@);
        }
        if !(same(key, "version") || same(key, "ignore") || same(key, "reinclude") || same(
            key,
            "globs",
        ) || same(key, "watch")) {
            out.push(key.clone());
            assert(text::views(out@) =~= before.push(key@));
        }
        i += 1;
    }
    assert(all.take(i as int) =~= all);
    out
}

/// What a rule file comes to whose version is right, that declares no `watch`, and that has these
/// keys: its entries, or the first of them that breaks containment.
pub open spec fn is_judged(
    r: RawLocal,
    source: Seq<u8>,
    keys: Seq<Seq<char>>,
    base: Seq<Seq<u8>>,
    out: Result<LocalRules, LocalRuleError>,
) -> bool {
    match out {
        Ok(rules) => {
            &&& are_entries(rules.ignore@, r.ignore@, source, base)
            &&& are_entries(rules.reinclude@, r.reinclude@, source, base)
            &&& are_globs(rules.globs@, r.globs@, source)
            &&& text::views(rules.unknown@) == unknown_keys(keys)
        },
        Err(e) => {
            ||| reports_escape(e, r.ignore@, source, path_reason(base))
            ||| {
                &&& none_escapes(r.ignore@, path_reason(base))
                &&& reports_escape(e, r.reinclude@, source, path_reason(base))
            }
            ||| {
                &&& none_escapes(r.ignore@, path_reason(base))
                &&& none_escapes(r.reinclude@, path_reason(base))
                &&& reports_escape(e, r.globs@, source, glob_reason())
            }
        },
    }
}

/// Judges one rule file. `base` is the directory holding the `.tycho`, `text` the file's text and
/// `raw` the values it holds, or why it is not TOML. Its keys are read behind the version, so that
/// a file of another version is refused as one, whatever else it holds.
///
/// # Errors
///
/// If the text is not TOML, the version is missing or wrong, `watch` appears,
/// or any entry breaks containment.
pub fn parse(text: &str, raw: Result<RawLocal, String>, base: &AbsPath) -> (out: Result<
    LocalRules,
    LocalRuleError,
>)
    requires
        raw matches Ok(r) ==> {
            let len = encode_utf8(text@).len();
            &&& starts_inside(r.ignore@, len)
            &&& starts_inside(r.reinclude@, len)
            &&& starts_inside(r.globs@, len)
            &&& r.watch matches Some(at) ==> at <= len
        },
    ensures
        match raw {
            Err(reason) => out matches Err(LocalRuleError::Malformed { reason: r }) && r@
                == reason@,
            Ok(r) => match r.version {
                None => out matches Err(LocalRuleError::MissingVersion),
                Some(v) => if v != VERSION {
                    out matches Err(LocalRuleError::WrongVersion { found }) && found == v
                } else if r.watch is Some {
                    out matches Err(LocalRuleError::WatchKey { line }) && line == line_at(
                        encode_utf8(text@),
                        r.watch->0 as int,
                    )
                } else {
                    match table_keys(text@) {
                        Err(reason) => out matches Err(LocalRuleError::Malformed { reason: r })
                            && r@ == reason,
                        Ok(keys) => is_judged(r, encode_utf8(text@), keys, base@, out),
                    }
                },
            },
        },
{
    let source = text.as_bytes();
    let raw = match raw {
        Ok(raw) => raw,
        Err(reason) => return Err(LocalRuleError::Malformed { reason }),
    };
    match raw.version {
        None => return Err(LocalRuleError::MissingVersion),
        Some(found) => {
            if found != VERSION {
                return Err(LocalRuleError::WrongVersion { found });
            }
        },
    }
    if let Some(at) = raw.watch {
        return Err(LocalRuleError::WatchKey { line: line_of(source, at) });
    }
    let keys = match read_table_keys(text) {
        Ok(keys) => keys,
        Err(reason) => return Err(LocalRuleError::Malformed { reason }),
    };
    let unknown = keys_left(&keys);
    let ignore = match entries(source, base, &raw.ignore) {
        Ok(es) => es,
        Err(e) => return Err(e),
    };
    let reinclude = match entries(source, base, &raw.reinclude) {
        Ok(es) => es,
        Err(e) => return Err(e),
    };
    let globs = match glob_entries(source, &raw.globs) {
        Ok(es) => es,
        Err(e) => return Err(e),
    };
    Ok(LocalRules { ignore, reinclude, globs, unknown })
}

/// Containment: whatever an entry says, the path it names sits beneath the directory that
/// declares it.
pub proof fn entries_stay_inside(base: Seq<Seq<u8>>, text: Seq<char>)
    ensures
        crate::primitives::path::holds_path(base, entry_path(base, text)),
{
    assert(entry_path(base, text).take(base.len() as int) =~= base);
}

/// Whether every part names something beneath the directory it stands in.
pub open spec fn plain_parts(parts: Seq<Seq<char>>) -> bool {
    forall|i: int|
        0 <= i < parts.len() ==> (#[trigger] parts[i]).len() > 0 && parts[i] != seq!['.']
            && parts[i] != seq!['.', '.']
}

/// An entry is refused exactly where it is written from somewhere else than the directory that
/// declares it, uses a backslash, names that directory itself, or has a component that is empty, a
/// `.` or a `..`. One slash at its end is let pass.
pub proof fn only_a_plain_entry_is_accepted(text: Seq<char>)
    requires
        text.len() > 0,
    ensures
        escape_reason(text) is None == (text[0] != '/' && text[0] != '~' && text[0] != '$'
            && !text.contains('\\') && !(text.len() > 1 && text[1] == ':' && ('a' <= text[0]
            && text[0] <= 'z' || 'A' <= text[0] && text[0] <= 'Z')) && plain_parts(
            text::split(
                if text.last() == '/' {
                    text.drop_last()
                } else {
                    text
                },
                '/',
            ),
        )),
        escape_reason(Seq::empty()) is Some,
{
    let body = if text.last() == '/' {
        text.drop_last()
    } else {
        text
    };
    reveal_strlit("/");
    reveal_strlit(".");
    assert("."@ =~= seq!['.']);
    assert("/"@ =~= seq!['/']);
    assert(text.skip(text.len() - 1) =~= seq![text.last()]);
    assert(without_slash(text) =~= body) by {
        if text.last() != '/' && text::has_suffix(text, "/"@) {
            assert(text.skip(text.len() - 1)[0] == '/');
        }
    }
    let parts = text::split(body, '/');
    lemma_reasons(parts);
    if text[0] == '\\' {
        assert(text.contains('\\'));
    }
    if body.len() == 0 || body == seq!['.'] {
        assert forall|i: int| 0 <= i < body.len() implies body[i] != '/' by {}
        text::lemma_position(body, '/', body.len() as int);
        assert(parts =~= seq![body]);
        assert(parts[0] == body);
        assert(!plain_parts(parts));
    }
    let none = Seq::<char>::empty();
    assert(without_slash(none).len() == 0);
}

proof fn lemma_reasons(parts: Seq<Seq<char>>)
    ensures
        component_reason(parts) is None == plain_parts(parts),
    decreases parts.len(),
{
    reveal_strlit(".");
    reveal_strlit("..");
    assert("."@ =~= seq!['.']);
    assert(".."@ =~= seq!['.', '.']);
    if parts.len() > 0 {
        let above = parts.drop_last();
        lemma_reasons(above);
        let n = parts.len() - 1;
        assert(parts[n] == parts.last());
        if component_reason(parts) is None {
            assert forall|i: int| 0 <= i < parts.len() implies (#[trigger] parts[i]).len() > 0
                && parts[i] != seq!['.'] && parts[i] != seq!['.', '.'] by {
                if i < n {
                    assert(above[i] == parts[i]);
                }
            }
        } else if plain_parts(parts) {
            assert forall|i: int| 0 <= i < above.len() implies (#[trigger] above[i]).len() > 0
                && above[i] != seq!['.'] && above[i] != seq!['.', '.'] by {
                assert(parts[i] == above[i]);
            }
        }
    }
}

/// A line is counted from one, by the breaks before it.
pub proof fn lines_are_counted_by_their_breaks(raw: Seq<u8>, n: int)
    requires
        0 <= n <= raw.len(),
    ensures
        newlines(raw, n) == raw.take(n).filter(|b: u8| b == 10).len(),
    decreases n,
{
    reveal(Seq::filter);
    if n > 0 {
        lines_are_counted_by_their_breaks(raw, n - 1);
        assert(raw.take(n).drop_last() =~= raw.take(n - 1));
    }
}

/// The keys reported as unknown are exactly those that are none of the five, in their order.
pub proof fn unknown_keys_are_the_others(keys: Seq<Seq<char>>)
    ensures
        unknown_keys(keys) == keys.filter(
            |key: Seq<char>|
                !(seq!["version"@, "ignore"@, "reinclude"@, "globs"@, "watch"@].contains(key)),
        ),
    decreases keys.len(),
{
    reveal(Seq::filter);
    if keys.len() > 0 {
        unknown_keys_are_the_others(keys.drop_last());
        let known = seq!["version"@, "ignore"@, "reinclude"@, "globs"@, "watch"@];
        assert(known.contains(keys.last()) == known_key(keys.last())) by {
            assert(known[0] == "version"@ && known[1] == "ignore"@ && known[2] == "reinclude"@
                && known[3] == "globs"@ && known[4] == "watch"@);
        }
    }
}

} // verus!
