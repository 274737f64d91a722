//! The validated names. Each has a `Result`-returning constructor and no other way
//! in, so a downstream module cannot hold one that git or launchd would reject.

use crate::text;
use crate::octets;
use crate::primitives::encode;
use crate::octets::{ends_with, lossy_text, same_bytes};
use crate::primitives::encode::percent_component;
use crate::text::{cat3, cat5, chars_of, decimal, find, holds_text, same, split_text};
use vstd::prelude::*;
use vstd::string::*;
use vstd::utf8::*;

verus! {

pub const MAX_SLUG: usize = 64;

pub const RESERVED_PROFILE: &'static str = "catchup";

pub const RESERVED_ALIAS: &'static str = ".tycho";

/// A profile name. Becomes a store filename, a directory in every remote, and part
/// of a launchd label.
#[derive(Debug, PartialEq, Eq, PartialOrd, Ord, Hash)]
pub struct ProfileName(String);

/// A remote's label within a profile.
#[derive(Debug, PartialEq, Eq, PartialOrd, Ord, Hash)]
pub struct RemoteName(String);

/// The short name a watched root gets inside the store. Holds its encoded form,
/// because the same string is both a tree path component and part of the refname
/// key, and a second representation would be one that could drift.
#[derive(Debug, PartialEq, Eq, PartialOrd, Ord, Hash)]
pub struct RootAlias(String);

/// A branch as a source repository reports it. May contain `/`.
#[derive(Debug, PartialEq, Eq, PartialOrd, Ord, Hash)]
pub struct BranchName(String);

/// A full refname under `refs/`.
#[derive(Debug, PartialEq, Eq, PartialOrd, Ord, Hash)]
pub struct RefName(String);

#[derive(Debug, PartialEq, Eq)]
pub enum SlugError {
    Empty,
    TooLong(String),
    BadStart { name: String, first: char },
    BadChar { name: String, ch: char },
    Reserved(String),
}

#[derive(Debug, PartialEq, Eq)]
pub enum AliasError {
    Empty,
    Separator,
    LeadingDot(String),
    LockSuffix(String),
    Reserved,
}

#[derive(Debug, PartialEq, Eq)]
pub enum RefNameError {
    Empty,
    NotUnderRefs(String),
    EmptyComponent(String),
    DoubleDot(String),
    AtBrace(String),
    BareAt(String),
    TrailingDot(String),
    BadChar { name: String, ch: char },
    ComponentLeadingDot(String),
    ComponentLockSuffix(String),
}

// ---------------------------------------------------------------------------
// Slugs
// ---------------------------------------------------------------------------

/// A lower-case letter or a digit.
pub open spec fn slug_start(c: char) -> bool {
    'a' <= c && c <= 'z' || '0' <= c && c <= '9'
}

pub open spec fn slug_char(c: char) -> bool {
    slug_start(c) || c == '-'
}

/// `[a-z0-9][a-z0-9-]*`, no longer than sixty-four bytes.
pub open spec fn is_slug(s: Seq<char>) -> bool {
    &&& s.len() > 0
    &&& encode_utf8(s).len() <= MAX_SLUG
    &&& slug_start(s[0])
    &&& forall|i: int| 0 <= i < s.len() ==> slug_char(#[trigger] s[i])
}

/// The first character satisfying a rule's complaint, as an index.
pub open spec fn first_at(s: Seq<char>, at: int, good: spec_fn(char) -> bool) -> bool {
    &&& 0 <= at < s.len()
    &&& !good(s[at])
    &&& forall|i: int| 0 <= i < at ==> good(#[trigger] s[i])
}

impl SlugError {
    /// Whether this is what is wrong with `s` as a slug: the first of the rules that it breaks.
    pub open spec fn refuses_slug(self, s: Seq<char>) -> bool {
        match self {
            SlugError::Empty => s.len() == 0,
            SlugError::TooLong(name) => {
                &&& name@ == s
                &&& s.len() > 0
                &&& encode_utf8(s).len() > MAX_SLUG
            },
            SlugError::BadStart { name, first } => {
                &&& name@ == s
                &&& s.len() > 0
                &&& encode_utf8(s).len() <= MAX_SLUG
                &&& first == s[0]
                &&& !slug_start(first)
            },
            SlugError::BadChar { name, ch } => {
                &&& name@ == s
                &&& s.len() > 0
                &&& encode_utf8(s).len() <= MAX_SLUG
                &&& slug_start(s[0])
                &&& exists|at: int| first_at(s, at, |c: char| slug_char(c)) && s[at] == ch
            },
            SlugError::Reserved(_) => false,
        }
    }

    pub open spec fn message(self) -> Seq<char> {
        match self {
            SlugError::Empty => "the name is empty"@,
            SlugError::TooLong(name) => "'"@ + name@ + "' is longer than "@ + text::decimal_text(64)
                + " characters"@,
            SlugError::BadStart { name, first } => "'"@ + name@
                + "' must start with a lowercase letter or digit, not '"@ + seq![first] + "'"@,
            SlugError::BadChar { name, ch } => "'"@ + name@ + "' contains '"@ + seq![ch]
                + "'; only lowercase letters, digits and '-' are allowed"@,
            SlugError::Reserved(name) => "'"@ + name@ + "' is reserved"@,
        }
    }

    pub fn text(&self) -> (out: String)
        ensures
            out@ == self.message(),
    {
        match self {
            SlugError::Empty => "the name is empty".to_owned(),
            SlugError::TooLong(name) => cat5(
                "'",
                name,
                "' is longer than ",
                &decimal(64),
                " characters",
            ),
            SlugError::BadStart { name, first } => cat5(
                "'",
                name,
                "' must start with a lowercase letter or digit, not '",
                &one(*first),
                "'",
            ),
            SlugError::BadChar { name, ch } => cat5(
                "'",
                name,
                "' contains '",
                &one(*ch),
                "'; only lowercase letters, digits and '-' are allowed",
            ),
            SlugError::Reserved(name) => cat3("'", name, "' is reserved"),
        }
    }
}

/// A single character as a string.
pub fn one(c: char) -> (out: String)
    ensures
        out@ == seq![c],
{
    let mut out = String::new();
    out.push(c);
    assert(out@ =~= seq![c]);
    out
}

fn starts_slug(c: char) -> (out: bool)
    ensures
        out == slug_start(c),
{
    ('a' <= c && c <= 'z') || ('0' <= c && c <= '9')
}

fn validate_slug(input: &str) -> (out: Result<(), SlugError>)
    ensures
        match out {
            Ok(()) => is_slug(input@),
            Err(e) => e.refuses_slug(input@),
        },
{
    let cs = chars_of(input);
    if cs.len() == 0 {
        return Err(SlugError::Empty);
    }
    let bytes: usize = input.as_bytes().len();
    if bytes > MAX_SLUG {
        return Err(SlugError::TooLong(input.to_owned()));
    }
    let first = cs[0];
    if !starts_slug(first) {
        return Err(SlugError::BadStart { name: input.to_owned(), first });
    }
    let mut i: usize = 0;
    while i < cs.len()
        invariant
            i <= cs@.len(),
            cs@ == input@,
            cs@.len() > 0,
            encode_utf8(input@).len() <= MAX_SLUG,
            slug_start(cs@[0]),
            forall|j: int| 0 <= j < i ==> slug_char(#[trigger] cs@[j]),
        decreases cs@.len() - i,
    {
        let ch = cs[i];
        if !starts_slug(ch) && ch != '-' {
            assert(first_at(input@, i as int, |c: char| slug_char(c)));
            return Err(SlugError::BadChar { name: input.to_owned(), ch });
        }
        i += 1;
    }
    Ok(())
}

impl View for ProfileName {
    type V = Seq<char>;

    closed spec fn view(&self) -> Seq<char> {
        self.0@
    }
}

impl Clone for ProfileName {
    fn clone(&self) -> (out: Self)
        ensures
            out@ == self@,
    {
        proof {
            use_type_invariant(self);
        }
        ProfileName(self.0.clone())
    }
}

/// A slug other than the one the shared agent has.
pub open spec fn is_profile_name(s: Seq<char>) -> bool {
    is_slug(s) && s != RESERVED_PROFILE@
}

impl ProfileName {
    #[verifier::type_invariant]
    closed spec fn valid(self) -> bool {
        is_profile_name(self.0@)
    }

    /// # Errors
    ///
    /// If the name is outside `[a-z0-9][a-z0-9-]*`, too long, or reserved.
    pub fn parse(input: &str) -> (out: Result<ProfileName, SlugError>)
        ensures
            match out {
                Ok(name) => is_profile_name(input@) && name@ == input@,
                Err(SlugError::Reserved(name)) => input@ == RESERVED_PROFILE@ && is_slug(input@)
                    && name@ == input@,
                Err(e) => e.refuses_slug(input@),
            },
    {
        match validate_slug(input) {
            Ok(()) => {},
            Err(e) => return Err(e),
        }
        if same(input, RESERVED_PROFILE) {
            return Err(SlugError::Reserved(input.to_owned()));
        }
        Ok(ProfileName(input.to_owned()))
    }

    #[must_use]
    pub fn as_str(&self) -> (out: &str)
        ensures
            out@ == self@,
            is_profile_name(out@),
    {
        proof {
            use_type_invariant(self);
        }
        self.0.as_str()
    }
}

impl View for RemoteName {
    type V = Seq<char>;

    closed spec fn view(&self) -> Seq<char> {
        self.0@
    }
}

impl Clone for RemoteName {
    fn clone(&self) -> (out: Self)
        ensures
            out@ == self@,
    {
        proof {
            use_type_invariant(self);
        }
        RemoteName(self.0.clone())
    }
}

impl RemoteName {
    #[verifier::type_invariant]
    closed spec fn valid(self) -> bool {
        is_slug(self.0@)
    }

    /// # Errors
    ///
    /// If the name is outside `[a-z0-9][a-z0-9-]*` or too long.
    pub fn parse(input: &str) -> (out: Result<RemoteName, SlugError>)
        ensures
            match out {
                Ok(name) => is_slug(input@) && name@ == input@,
                Err(e) => e.refuses_slug(input@),
            },
    {
        match validate_slug(input) {
            Ok(()) => {},
            Err(e) => return Err(e),
        }
        Ok(RemoteName(input.to_owned()))
    }

    #[must_use]
    pub fn as_str(&self) -> (out: &str)
        ensures
            out@ == self@,
            is_slug(out@),
    {
        proof {
            use_type_invariant(self);
        }
        self.0.as_str()
    }
}

// ---------------------------------------------------------------------------
// Aliases
// ---------------------------------------------------------------------------

/// Whether a root of this name can have its own name as its alias.
pub open spec fn encodable_alias(raw: Seq<u8>) -> bool {
    &&& raw.len() > 0
    &&& raw != encode_utf8(RESERVED_ALIAS@)
    &&& raw[0] != 46
    &&& !text::has_suffix(raw, encode::lock_suffix())
}

impl AliasError {
    /// Whether this is what is wrong with a component: the first of the rules that it breaks.
    pub open spec fn refuses_component(self, raw: Seq<u8>) -> bool {
        match self {
            AliasError::Empty => raw.len() == 0,
            AliasError::Reserved => raw.len() > 0 && raw == encode_utf8(RESERVED_ALIAS@),
            AliasError::LeadingDot(shown) => {
                &&& raw.len() > 0
                &&& raw != encode_utf8(RESERVED_ALIAS@)
                &&& raw[0] == 46
                &&& shown@ == octets::lossy(raw)
            },
            AliasError::LockSuffix(shown) => {
                &&& raw.len() > 0
                &&& raw != encode_utf8(RESERVED_ALIAS@)
                &&& raw[0] != 46
                &&& text::has_suffix(raw, encode::lock_suffix())
                &&& shown@ == octets::lossy(raw)
            },
            AliasError::Separator => false,
        }
    }

    pub open spec fn message(self) -> Seq<char> {
        match self {
            AliasError::Empty => "the alias is empty"@,
            AliasError::Separator => "an explicit alias cannot contain a path separator"@,
            AliasError::LeadingDot(name) => "'"@ + name@
                + "' begins with a dot, which git rejects in a refname"@,
            AliasError::LockSuffix(name) => "'"@ + name@
                + "' ends with '.lock', which git rejects in a refname"@,
            AliasError::Reserved => "'"@ + RESERVED_ALIAS@
                + "' is reserved for the store's own metadata"@,
        }
    }

    pub fn text(&self) -> (out: String)
        ensures
            out@ == self.message(),
    {
        match self {
            AliasError::Empty => "the alias is empty".to_owned(),
            AliasError::Separator => "an explicit alias cannot contain a path separator".to_owned(),
            AliasError::LeadingDot(name) => cat3(
                "'",
                name,
                "' begins with a dot, which git rejects in a refname",
            ),
            AliasError::LockSuffix(name) => cat3(
                "'",
                name,
                "' ends with '.lock', which git rejects in a refname",
            ),
            AliasError::Reserved => cat3(
                "'",
                RESERVED_ALIAS,
                "' is reserved for the store's own metadata",
            ),
        }
    }
}

impl View for RootAlias {
    type V = Seq<char>;

    closed spec fn view(&self) -> Seq<char> {
        self.0@
    }
}

impl Clone for RootAlias {
    fn clone(&self) -> (out: Self)
        ensures
            out@ == self@,
    {
        proof {
            use_type_invariant(self);
        }
        RootAlias(self.0.clone())
    }
}

impl RootAlias {
    #[verifier::type_invariant]
    closed spec fn valid(self) -> bool {
        exists|raw: Seq<u8>| encodable_alias(raw) && self.0@ == encode::percent_encoded(raw)
    }

    /// From an explicit `name = "..."` in the config.
    ///
    /// # Errors
    ///
    /// If it contains a path separator, is reserved, or encodes to something git
    /// rejects in a refname.
    pub fn explicit(input: &str) -> (out: Result<RootAlias, AliasError>)
        ensures
            match out {
                Ok(alias) => {
                    &&& !input@.contains('/')
                    &&& !input@.contains('\\')
                    &&& encodable_alias(encode_utf8(input@))
                    &&& alias@ == encode::percent_encoded(encode_utf8(input@))
                },
                Err(AliasError::Separator) => input@.contains('/') || input@.contains('\\'),
                Err(e) => {
                    &&& !input@.contains('/')
                    &&& !input@.contains('\\')
                    &&& e.refuses_component(encode_utf8(input@))
                },
            },
    {
        let cs = chars_of(input);
        let slash = find(&cs, '/');
        let back = find(&cs, '\\');
        proof {
            crate::text::lemma_position_bounds(cs@, '/');
            crate::text::lemma_position_bounds(cs@, '\\');
        }
        if slash.is_some() || back.is_some() {
            return Err(AliasError::Separator);
        }
        RootAlias::encode(input.as_bytes())
    }

    /// From a watched root's last path component.
    ///
    /// # Errors
    ///
    /// As [`RootAlias::explicit`], minus the separator case.
    pub fn from_component(component: &[u8]) -> (out: Result<RootAlias, AliasError>)
        ensures
            match out {
                Ok(alias) => encodable_alias(component@) && alias@ == encode::percent_encoded(component@),
                Err(e) => e.refuses_component(component@),
            },
    {
        RootAlias::encode(component)
    }

    fn encode(raw: &[u8]) -> (out: Result<RootAlias, AliasError>)
        ensures
            match out {
                Ok(alias) => encodable_alias(raw@) && alias@ == encode::percent_encoded(raw@),
                Err(e) => e.refuses_component(raw@),
            },
    {
        if raw.len() == 0 {
            return Err(AliasError::Empty);
        }
        if same_bytes(raw, RESERVED_ALIAS.as_bytes()) {
            return Err(AliasError::Reserved);
        }
        let shown = lossy_text(raw);
        if raw[0] == 46 {
            return Err(AliasError::LeadingDot(shown));
        }
        let suffix: Vec<u8> = vec![46, 108, 111, 99, 107];
        assert(suffix@ =~= encode::lock_suffix());
        if ends_with(raw, &suffix) {
            return Err(AliasError::LockSuffix(shown));
        }
        assert(encodable_alias(raw@));
        Ok(RootAlias(percent_component(raw)))
    }

    #[must_use]
    pub fn as_str(&self) -> (out: &str)
        ensures
            out@ == self@,
            exists|raw: Seq<u8>| encodable_alias(raw) && out@ == encode::percent_encoded(raw),
    {
        proof {
            use_type_invariant(self);
        }
        self.0.as_str()
    }
}

// ---------------------------------------------------------------------------
// Refnames
// ---------------------------------------------------------------------------

/// A control character, or one of those git gives a meaning of its own.
pub open spec fn ref_char(c: char) -> bool {
    &&& !is_control(c)
    &&& c != ' '
    &&& c != '~'
    &&& c != '^'
    &&& c != ':'
    &&& c != '?'
    &&& c != '*'
    &&& c != '['
    &&& c != '\\'
}

/// The Unicode category of control characters.
pub open spec fn is_control(c: char) -> bool {
    c <= '\u{1f}' || '\u{7f}' <= c && c <= '\u{9f}'
}

pub open spec fn bad_component(part: Seq<char>) -> bool {
    part.len() > 0 && part[0] == '.' || text::has_suffix(part, ".lock"@)
}

/// Whether some component is empty.
pub open spec fn has_empty_component(s: Seq<char>) -> bool {
    s.len() > 0 && (s[0] == '/' || s.last() == '/' || text::contains_text(s, "//"@))
}

/// The rules a refname keeps, in the order in which they are checked.
pub open spec fn is_ref_path(s: Seq<char>) -> bool {
    &&& s.len() > 0
    &&& !has_empty_component(s)
    &&& !text::contains_text(s, ".."@)
    &&& !text::contains_text(s, "@{"@)
    &&& s != "@"@
    &&& s.last() != '.'
    &&& forall|i: int| 0 <= i < s.len() ==> ref_char(#[trigger] s[i])
    &&& forall|i: int|
        0 <= i < text::split(s, '/').len() ==> !bad_component(#[trigger] text::split(s, '/')[i])
}

/// The part at `at` is the first bad component.
pub open spec fn first_bad_component(s: Seq<char>, at: int) -> bool {
    &&& 0 <= at < text::split(s, '/').len()
    &&& bad_component(text::split(s, '/')[at])
    &&& forall|i: int| 0 <= i < at ==> !bad_component(#[trigger] text::split(s, '/')[i])
}

impl RefNameError {
    /// Whether this is what is wrong with `s`: the first of the rules that it breaks.
    pub open spec fn refuses_path(self, s: Seq<char>) -> bool {
        match self {
            RefNameError::Empty => s.len() == 0,
            RefNameError::NotUnderRefs(_) => false,
            RefNameError::EmptyComponent(name) => name@ == s && has_empty_component(s),
            RefNameError::DoubleDot(name) => {
                &&& name@ == s
                &&& s.len() > 0
                &&& !has_empty_component(s)
                &&& text::contains_text(s, ".."@)
            },
            RefNameError::AtBrace(name) => {
                &&& name@ == s
                &&& s.len() > 0
                &&& !has_empty_component(s)
                &&& !text::contains_text(s, ".."@)
                &&& text::contains_text(s, "@{"@)
            },
            RefNameError::BareAt(name) => {
                &&& name@ == s
                &&& s == "@"@
                &&& s.len() > 0
                &&& !has_empty_component(s)
                &&& !text::contains_text(s, ".."@)
                &&& !text::contains_text(s, "@{"@)
            },
            RefNameError::TrailingDot(name) => {
                &&& name@ == s
                &&& s.len() > 0
                &&& !has_empty_component(s)
                &&& !text::contains_text(s, ".."@)
                &&& !text::contains_text(s, "@{"@)
                &&& s != "@"@
                &&& s.last() == '.'
            },
            RefNameError::BadChar { name, ch } => {
                &&& name@ == s
                &&& s.len() > 0
                &&& !has_empty_component(s)
                &&& !text::contains_text(s, ".."@)
                &&& !text::contains_text(s, "@{"@)
                &&& s != "@"@
                &&& s.last() != '.'
                &&& exists|at: int| first_at(s, at, |c: char| ref_char(c)) && s[at] == ch
            },
            RefNameError::ComponentLeadingDot(part) => {
                &&& s.len() > 0
                &&& !has_empty_component(s)
                &&& !text::contains_text(s, ".."@)
                &&& !text::contains_text(s, "@{"@)
                &&& s != "@"@
                &&& s.last() != '.'
                &&& forall|i: int| 0 <= i < s.len() ==> ref_char(#[trigger] s[i])
                &&& part@.len() > 0 && part@[0] == '.'
                &&& exists|at: int|
                    first_bad_component(s, at) && #[trigger] text::split(s, '/')[at] == part@
            },
            RefNameError::ComponentLockSuffix(part) => {
                &&& s.len() > 0
                &&& !has_empty_component(s)
                &&& !text::contains_text(s, ".."@)
                &&& !text::contains_text(s, "@{"@)
                &&& s != "@"@
                &&& s.last() != '.'
                &&& forall|i: int| 0 <= i < s.len() ==> ref_char(#[trigger] s[i])
                &&& !(part@.len() > 0 && part@[0] == '.')
                &&& exists|at: int|
                    first_bad_component(s, at) && #[trigger] text::split(s, '/')[at] == part@
            },
        }
    }

    pub open spec fn message(self) -> Seq<char> {
        match self {
            RefNameError::Empty => "the refname is empty"@,
            RefNameError::NotUnderRefs(name) => "'"@ + name@ + "' does not begin with 'refs/'"@,
            RefNameError::EmptyComponent(name) => "'"@ + name@ + "' has an empty component"@,
            RefNameError::DoubleDot(name) => "'"@ + name@ + "' contains '..'"@,
            RefNameError::AtBrace(name) => "'"@ + name@ + "' contains '@{'"@,
            RefNameError::BareAt(name) => "'"@ + name@ + "' is a bare '@'"@,
            RefNameError::TrailingDot(name) => "'"@ + name@ + "' ends with a dot"@,
            RefNameError::BadChar { name, ch } => "'"@ + name@ + "' contains '"@ + seq![ch]
                + "', which git rejects in a refname"@,
            RefNameError::ComponentLeadingDot(part) => "component '"@ + part@
                + "' begins with a dot"@,
            RefNameError::ComponentLockSuffix(part) => "component '"@ + part@
                + "' ends with '.lock'"@,
        }
    }

    pub fn text(&self) -> (out: String)
        ensures
            out@ == self.message(),
    {
        match self {
            RefNameError::Empty => "the refname is empty".to_owned(),
            RefNameError::NotUnderRefs(name) => cat3("'", name, "' does not begin with 'refs/'"),
            RefNameError::EmptyComponent(name) => cat3("'", name, "' has an empty component"),
            RefNameError::DoubleDot(name) => cat3("'", name, "' contains '..'"),
            RefNameError::AtBrace(name) => cat3("'", name, "' contains '@{'"),
            RefNameError::BareAt(name) => cat3("'", name, "' is a bare '@'"),
            RefNameError::TrailingDot(name) => cat3("'", name, "' ends with a dot"),
            RefNameError::BadChar { name, ch } => cat5(
                "'",
                name,
                "' contains '",
                &one(*ch),
                "', which git rejects in a refname",
            ),
            RefNameError::ComponentLeadingDot(part) => cat3(
                "component '",
                part,
                "' begins with a dot",
            ),
            RefNameError::ComponentLockSuffix(part) => cat3(
                "component '",
                part,
                "' ends with '.lock'",
            ),
        }
    }
}

fn may_stand_in_ref(c: char) -> (out: bool)
    ensures
        out == ref_char(c),
{
    !(c <= '\u{1f}' || ('\u{7f}' <= c && c <= '\u{9f}') || c == ' ' || c == '~' || c == '^' || c
        == ':' || c == '?' || c == '*' || c == '[' || c == '\\')
}

fn validate_ref_path(input: &str) -> (out: Result<(), RefNameError>)
    ensures
        match out {
            Ok(()) => is_ref_path(input@),
            Err(e) => e.refuses_path(input@),
        },
{
    let cs = chars_of(input);
    let n: usize = cs.len();
    if n == 0 {
        return Err(RefNameError::Empty);
    }
    if cs[0] == '/' || cs[n - 1] == '/' || holds_text(input, "//") {
        return Err(RefNameError::EmptyComponent(input.to_owned()));
    }
    if holds_text(input, "..") {
        return Err(RefNameError::DoubleDot(input.to_owned()));
    }
    if holds_text(input, "@{") {
        return Err(RefNameError::AtBrace(input.to_owned()));
    }
    if same(input, "@") {
        return Err(RefNameError::BareAt(input.to_owned()));
    }
    if cs[n - 1] == '.' {
        return Err(RefNameError::TrailingDot(input.to_owned()));
    }
    let ghost s = input@;
    let mut i: usize = 0;
    while i < n
        invariant
            i <= n == cs@.len(),
            n > 0,
            cs@ == input@,
            s == input@,
            !has_empty_component(s),
            !text::contains_text(s, ".."@),
            !text::contains_text(s, "@{"@),
            s != "@"@,
            s.last() != '.',
            forall|j: int| 0 <= j < i ==> ref_char(#[trigger] s[j]),
        decreases n - i,
    {
        let ch = cs[i];
        if !may_stand_in_ref(ch) {
            assert(first_at(s, i as int, |c: char| ref_char(c)));
            return Err(RefNameError::BadChar { name: input.to_owned(), ch });
        }
        i += 1;
    }
    let parts = split_text(input, '/');
    let mut k: usize = 0;
    while k < parts.len()
        invariant
            k <= parts@.len(),
            text::views(parts@) == text::split(s, '/'),
            s == input@,
            s.len() > 0,
            !has_empty_component(s),
            !text::contains_text(s, ".."@),
            !text::contains_text(s, "@{"@),
            s != "@"@,
            s.last() != '.',
            forall|j: int| 0 <= j < s.len() ==> ref_char(#[trigger] s[j]),
            forall|j: int| 0 <= j < k ==> !bad_component(#[trigger] text::split(s, '/')[j]),
        decreases parts@.len() - k,
    {
        let part = chars_of(&parts[k]);
        assert(text::split(s, '/')[k as int] == text::views(parts@)[k as int]);
        assert(text::views(parts@)[k as int] == part@);
        if part.len() > 0 && part[0] == '.' {
            assert(first_bad_component(s, k as int));
            return Err(RefNameError::ComponentLeadingDot(parts[k].clone()));
        }
        if crate::text::ends_with(&part, ".lock") {
            assert(first_bad_component(s, k as int));
            return Err(RefNameError::ComponentLockSuffix(parts[k].clone()));
        }
        k += 1;
    }
    Ok(())
}

impl View for BranchName {
    type V = Seq<char>;

    closed spec fn view(&self) -> Seq<char> {
        self.0@
    }
}

impl Clone for BranchName {
    fn clone(&self) -> (out: Self)
        ensures
            out@ == self@,
    {
        proof {
            use_type_invariant(self);
        }
        BranchName(self.0.clone())
    }
}

impl BranchName {
    #[verifier::type_invariant]
    closed spec fn valid(self) -> bool {
        is_ref_path(self.0@)
    }

    /// # Errors
    ///
    /// If any component is one git would reject.
    pub fn parse(input: &str) -> (out: Result<BranchName, RefNameError>)
        ensures
            match out {
                Ok(name) => is_ref_path(input@) && name@ == input@,
                Err(e) => e.refuses_path(input@),
            },
    {
        match validate_ref_path(input) {
            Ok(()) => {},
            Err(e) => return Err(e),
        }
        Ok(BranchName(input.to_owned()))
    }

    #[must_use]
    pub fn as_str(&self) -> (out: &str)
        ensures
            out@ == self@,
            is_ref_path(out@),
    {
        proof {
            use_type_invariant(self);
        }
        self.0.as_str()
    }
}

impl View for RefName {
    type V = Seq<char>;

    closed spec fn view(&self) -> Seq<char> {
        self.0@
    }
}

impl Clone for RefName {
    fn clone(&self) -> (out: Self)
        ensures
            out@ == self@,
    {
        proof {
            use_type_invariant(self);
        }
        RefName(self.0.clone())
    }
}

/// A refname that keeps the rules, under `refs/`.
pub open spec fn is_refname(s: Seq<char>) -> bool {
    text::has_prefix(s, "refs/"@) && is_ref_path(s)
}

impl RefName {
    #[verifier::type_invariant]
    closed spec fn valid(self) -> bool {
        is_refname(self.0@)
    }

    /// Validates structurally and conservatively. `git check-ref-format` stays the
    /// authority and runs at layer 2 before use.
    ///
    /// # Errors
    ///
    /// If the name is not under `refs/`, or breaks one of the rules checked here.
    pub fn parse(input: &str) -> (out: Result<RefName, RefNameError>)
        ensures
            match out {
                Ok(name) => is_refname(input@) && name@ == input@,
                Err(RefNameError::NotUnderRefs(name)) => !text::has_prefix(input@, "refs/"@) && name@
                    == input@,
                Err(e) => text::has_prefix(input@, "refs/"@) && e.refuses_path(input@),
            },
    {
        let cs = chars_of(input);
        if !crate::text::starts_with(&cs, "refs/") {
            return Err(RefNameError::NotUnderRefs(input.to_owned()));
        }
        match validate_ref_path(input) {
            Ok(()) => {},
            Err(e) => return Err(e),
        }
        Ok(RefName(input.to_owned()))
    }

    #[must_use]
    pub fn as_str(&self) -> (out: &str)
        ensures
            out@ == self@,
            is_refname(out@),
    {
        proof {
            use_type_invariant(self);
        }
        self.0.as_str()
    }
}

/// A path that is refused breaks the rules.
pub proof fn lemma_refused_path(s: Seq<char>, e: RefNameError)
    requires
        e.refuses_path(s),
    ensures
        !is_ref_path(s),
{
    match e {
        RefNameError::BadChar { .. } => {
            let at = choose|at: int| first_at(s, at, |c: char| ref_char(c)) && s[at] == e->ch;
            assert(!ref_char(s[at]));
        },
        RefNameError::ComponentLeadingDot(part) => {
            let at = choose|at: int|
                first_bad_component(s, at) && #[trigger] text::split(s, '/')[at] == part@;
            assert(bad_component(text::split(s, '/')[at]));
        },
        RefNameError::ComponentLockSuffix(part) => {
            let at = choose|at: int|
                first_bad_component(s, at) && #[trigger] text::split(s, '/')[at] == part@;
            assert(bad_component(text::split(s, '/')[at]));
        },
        _ => {},
    }
}

/// No two of the rules answer for one slug: each refused name has exactly one explanation.
pub proof fn slug_errors_exclude_each_other(s: Seq<char>, a: SlugError, b: SlugError)
    requires
        a.refuses_slug(s),
        b.refuses_slug(s),
    ensures
        a.message() == b.message(),
        !is_slug(s),
{
    match (a, b) {
        (SlugError::BadChar { ch: x, .. }, SlugError::BadChar { ch: y, .. }) => {
            let i = choose|at: int| first_at(s, at, |c: char| slug_char(c)) && s[at] == x;
            let j = choose|at: int| first_at(s, at, |c: char| slug_char(c)) && s[at] == y;
            if i < j {
                assert(slug_char(s[i]));
            }
            if j < i {
                assert(slug_char(s[j]));
            }
        },
        _ => {},
    }
}

/// What is wrong with a text as a slug, in words.
pub open spec fn slug_fault(s: Seq<char>) -> Seq<char> {
    (choose|e: SlugError| e.refuses_slug(s)).message()
}

/// What is wrong with a text as a profile's name, in words.
pub open spec fn profile_fault(s: Seq<char>) -> Seq<char> {
    if is_slug(s) {
        "'"@ + s + "' is reserved"@
    } else {
        slug_fault(s)
    }
}

/// The error that refuses a slug says what is wrong with it.
pub proof fn lemma_slug_fault(s: Seq<char>, e: SlugError)
    requires
        e.refuses_slug(s),
    ensures
        e.message() == slug_fault(s),
        !is_slug(s),
{
    slug_errors_exclude_each_other(s, e, choose|e: SlugError| e.refuses_slug(s));
}

/// A refname is one that git accepts: it is made of components, none empty, none beginning with a
/// dot or ending in `.lock`; it holds none of git's own characters, no `..` and no `@{`, is not `@`
/// alone and does not end with a dot.
pub proof fn a_refname_is_one_git_accepts(s: Seq<char>)
    requires
        s.len() > 0,
    ensures
        is_ref_path(s) <==> {
            let parts = text::split(s, '/');
            &&& forall|i: int|
                0 <= i < parts.len() ==> (#[trigger] parts[i]).len() > 0 && parts[i][0] != '.'
                    && !".lock"@.is_suffix_of(parts[i])
            &&& forall|i: int|
                0 <= i < s.len() ==> #[trigger] s[i] > ' ' && !('\u{7f}' <= s[i] && s[i]
                    <= '\u{9f}') && s[i] != '~' && s[i] != '^' && s[i] != ':' && s[i] != '?' && s[i]
                    != '*' && s[i] != '[' && s[i] != '\\'
            &&& !text::contains_text(s, ".."@)
            &&& !text::contains_text(s, "@{"@)
            &&& s != seq!['@']
            &&& s.last() != '.'
        },
{
    let parts = text::split(s, '/');
    lemma_empty_components(s);
    reveal_strlit("@");
    assert("@"@ =~= seq!['@']);
    assert forall|i: int| 0 <= i < parts.len() && (#[trigger] parts[i]).len() > 0 implies (
    bad_component(parts[i]) <==> parts[i][0] == '.' || ".lock"@.is_suffix_of(parts[i])) by {
        let part = parts[i];
        if text::has_suffix(part, ".lock"@) {
            assert(".lock"@ =~= part.subrange(part.len() - ".lock"@.len(), part.len() as int));
        }
        if ".lock"@.is_suffix_of(part) {
            assert(part.skip(part.len() - ".lock"@.len()) =~= ".lock"@);
        }
    }
    if is_ref_path(s) {
        assert forall|i: int| 0 <= i < s.len() implies #[trigger] s[i] > ' ' && !('\u{7f}' <= s[i]
            && s[i] <= '\u{9f}') && s[i] != '~' && s[i] != '^' && s[i] != ':' && s[i] != '?' && s[i]
            != '*' && s[i] != '[' && s[i] != '\\' by {
            assert(ref_char(s[i]));
        }
        assert forall|i: int| 0 <= i < parts.len() implies (#[trigger] parts[i]).len() > 0
            && parts[i][0] != '.' && !".lock"@.is_suffix_of(parts[i]) by {
            assert(!bad_component(parts[i]));
        }
    }
}

/// A component is empty exactly where a slash stands at an end or beside another.
proof fn lemma_empty_components(s: Seq<char>)
    requires
        s.len() > 0,
    ensures
        has_empty_component(s) <==> exists|i: int|
            0 <= i < text::split(s, '/').len() && (#[trigger] text::split(s, '/')[i]).len() == 0,
    decreases s.len(),
{
    text::lemma_position_bounds(s, '/');
    let at = text::position(s, '/');
    let parts = text::split(s, '/');
    reveal_strlit("//");
    if at == s.len() {
        assert(parts =~= seq![s]);
        if text::contains_text(s, "//"@) {
            let k = choose|k: int| text::occurs_at(s, "//"@, k);
            assert(s.subrange(k, k + 2)[0] == s[k]);
        }
    } else if at == 0 {
        assert(parts[0] == s.take(0));
        assert(parts[0].len() == 0);
    } else {
        let rest = s.skip(at + 1);
        let more = text::split(rest, '/');
        assert(parts == seq![s.take(at)] + more);
        if rest.len() == 0 {
            text::lemma_position(rest, '/', 0);
            assert(more =~= seq![rest]);
            assert(parts[1].len() == 0);
            assert(s.last() == '/');
        } else {
            lemma_empty_components(rest);
            assert(s.last() == rest.last());
            if has_empty_component(rest) {
                let i = choose|i: int| 0 <= i < more.len() && (#[trigger] more[i]).len() == 0;
                assert(parts[i + 1] == more[i]);
                if rest[0] == '/' {
                    assert(s.subrange(at, at + 2) =~= "//"@);
                    assert(text::occurs_at(s, "//"@, at));
                } else if rest.last() != '/' {
                    let k = choose|k: int| text::occurs_at(rest, "//"@, k);
                    assert(s.subrange(at + 1 + k, at + 1 + k + 2) =~= rest.subrange(k, k + 2));
                    assert(text::occurs_at(s, "//"@, at + 1 + k));
                }
            } else {
                assert forall|i: int| 0 <= i < parts.len() implies (#[trigger] parts[i]).len()
                    != 0 by {
                    if i > 0 {
                        assert(parts[i] == more[i - 1]);
                    }
                }
                if text::contains_text(s, "//"@) {
                    let k = choose|k: int| text::occurs_at(s, "//"@, k);
                    assert(s.subrange(k, k + 2)[0] == s[k] && s.subrange(k, k + 2)[1] == s[k + 1]);
                    if k < at {
                        assert(s[k] != '/');
                    } else if k == at {
                        assert(rest[0] == '/');
                    } else {
                        assert(rest.subrange(k - at - 1, k - at - 1 + 2) =~= s.subrange(k, k + 2));
                        assert(text::occurs_at(rest, "//"@, k - at - 1));
                    }
                }
            }
        }
    }
}

} // verus!
