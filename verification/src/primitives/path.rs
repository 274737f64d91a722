//! Absolute paths, and the expansion rules a config value goes through to become
//! one.
//!
//! A path is the bytes between its slashes. Nothing here assumes they are text: a name on
//! disk may hold anything but a slash and a NUL.
//!
//! On a host whose paths begin with a drive, a backslash separates as a slash does, and only a
//! path with both a drive and a root is absolute. The drive is then the first of its components.

use crate::text;
use crate::octets;
use crate::octets::{copy_bytes, join_bytes, lossy_text, same_bytes, split_bytes};
use crate::text::{between, cat2, cat3, cat5, chars_of, same};
use vstd::prelude::*;
use vstd::string::*;
use vstd::utf8::*;

verus! {

pub const ALLOWED: &'static str = "$HOME and $USER";

/// An absolute path with no empty, `.` or `..` component.
#[derive(Debug, PartialEq, Eq, PartialOrd, Ord, Hash)]
pub struct AbsPath {
    parts: Vec<Vec<u8>>,
}

#[derive(Debug, PartialEq, Eq)]
pub enum PathError {
    Empty,
    Relative(String),
    ParentComponent(String),
    NoHome,
    NamedHome(String),
    VariableNotAllowed(String),
    VariableUnset(String),
    UnterminatedBrace(String),
    NotALeaf(String),
}

/// What a [`PathError`] says, as text.
pub enum PathFault {
    Empty,
    Relative(Seq<char>),
    ParentComponent(Seq<char>),
    NoHome,
    NamedHome(Seq<char>),
    VariableNotAllowed(Seq<char>),
    VariableUnset(Seq<char>),
    UnterminatedBrace(Seq<char>),
    NotALeaf(Seq<char>),
}

impl View for PathError {
    type V = PathFault;

    open spec fn view(&self) -> PathFault {
        match self {
            PathError::Empty => PathFault::Empty,
            PathError::Relative(s) => PathFault::Relative(s@),
            PathError::ParentComponent(s) => PathFault::ParentComponent(s@),
            PathError::NoHome => PathFault::NoHome,
            PathError::NamedHome(s) => PathFault::NamedHome(s@),
            PathError::VariableNotAllowed(s) => PathFault::VariableNotAllowed(s@),
            PathError::VariableUnset(s) => PathFault::VariableUnset(s@),
            PathError::UnterminatedBrace(s) => PathFault::UnterminatedBrace(s@),
            PathError::NotALeaf(s) => PathFault::NotALeaf(s@),
        }
    }
}

impl PathFault {
    pub open spec fn message(self) -> Seq<char> {
        match self {
            PathFault::Empty => "the path is empty"@,
            PathFault::Relative(s) => "'"@ + s + "' is not absolute after expansion"@,
            PathFault::ParentComponent(s) => "'"@ + s
                + "' contains a '..' component; write the path out in full"@,
            PathFault::NoHome => "'~' cannot be expanded: no home directory"@,
            PathFault::NamedHome(s) => "'~"@ + s + "' is not supported; only a bare '~' expands"@,
            PathFault::VariableNotAllowed(s) => "'$"@ + s + "' is not expandable; only "@
                + ALLOWED@ + " expand"@,
            PathFault::VariableUnset(s) => "'$"@ + s + "' is unset or empty"@,
            PathFault::UnterminatedBrace(s) => "'"@ + s + "' has a '${' that is never closed"@,
            PathFault::NotALeaf(s) => "'"@ + s
                + "' is not a single name, so it would point outside the directory holding it"@,
        }
    }
}

impl PathError {
    pub fn text(&self) -> (out: String)
        ensures
            out@ == self@.message(),
    {
        match self {
            PathError::Empty => "the path is empty".to_owned(),
            PathError::Relative(s) => cat3("'", s, "' is not absolute after expansion"),
            PathError::ParentComponent(s) => cat3(
                "'",
                s,
                "' contains a '..' component; write the path out in full",
            ),
            PathError::NoHome => "'~' cannot be expanded: no home directory".to_owned(),
            PathError::NamedHome(s) => cat3(
                "'~",
                s,
                "' is not supported; only a bare '~' expands",
            ),
            PathError::VariableNotAllowed(s) => cat5(
                "'$",
                s,
                "' is not expandable; only ",
                ALLOWED,
                " expand",
            ),
            PathError::VariableUnset(s) => cat3("'$", s, "' is unset or empty"),
            PathError::UnterminatedBrace(s) => cat3("'", s, "' has a '${' that is never closed"),
            PathError::NotALeaf(s) => cat3(
                "'",
                s,
                "' is not a single name, so it would point outside the directory holding it",
            ),
        }
    }
}

// ---------------------------------------------------------------------------
// Components
// ---------------------------------------------------------------------------

pub const SLASH: u8 = 47;

/// The component `..`.
pub open spec fn dot_dot() -> Seq<u8> {
    seq![46u8, 46]
}

/// Whether a piece between two slashes names anything: an empty one and a `.` do not.
pub open spec fn names_something(piece: Seq<u8>) -> bool {
    piece.len() > 0 && piece != seq![46u8]
}

/// The pieces that name something, in order.
pub open spec fn named(pieces: Seq<Seq<u8>>) -> Seq<Seq<u8>>
    decreases pieces.len(),
{
    if pieces.len() == 0 {
        Seq::empty()
    } else if names_something(pieces.last()) {
        named(pieces.drop_last()).push(pieces.last())
    } else {
        named(pieces.drop_last())
    }
}

/// The components of a path, `..` included.
pub open spec fn components(raw: Seq<u8>) -> Seq<Seq<u8>> {
    named(text::split(raw, SLASH))
}

pub open spec fn starts_at_root(raw: Seq<u8>) -> bool {
    raw.len() > 0 && raw[0] == SLASH
}

/// What may stand between two slashes of a cleaned path.
pub open spec fn is_component(part: Seq<u8>) -> bool {
    names_something(part) && part != dot_dot() && !part.contains(SLASH)
}

pub open spec fn all_components(parts: Seq<Seq<u8>>) -> bool {
    forall|i: int| 0 <= i < parts.len() ==> is_component(#[trigger] parts[i])
}

/// Components written out from the root.
pub open spec fn rooted(parts: Seq<Seq<u8>>) -> Seq<u8> {
    seq![SLASH] + text::join(parts, seq![SLASH])
}

// ---------------------------------------------------------------------------
// Drives
// ---------------------------------------------------------------------------

pub const BACKSLASH: u8 = 92;

pub const COLON: u8 = 58;

/// A drive as the first of a path's components: a letter and a colon, or two slashes and the
/// names of a server and of what it shares, and a slash. No other component holds a slash, so
/// nothing else is taken for one.
pub open spec fn is_drive(part: Seq<u8>) -> bool {
    &&& part.len() > 0
    &&& part.last() == SLASH
    &&& drive_length(part) == Some(part.len() - 1)
    &&& !part.contains(BACKSLASH)
    &&& lettered(part) ==> part[0] <= 90
}

pub open spec fn has_drive(parts: Seq<Seq<u8>>) -> bool {
    parts.len() > 0 && is_drive(parts[0])
}

/// Bytes with a slash for every backslash.
pub open spec fn forward(raw: Seq<u8>) -> Seq<u8> {
    Seq::new(
        raw.len(),
        |i: int|
            if raw[i] == BACKSLASH {
                SLASH
            } else {
                raw[i]
            },
    )
}

/// Bytes with a backslash for every slash.
pub open spec fn backward(raw: Seq<u8>) -> Seq<u8> {
    Seq::new(
        raw.len(),
        |i: int|
            if raw[i] == SLASH {
                BACKSLASH
            } else {
                raw[i]
            },
    )
}

/// Whether bytes begin with the letter of a drive and a colon.
pub open spec fn lettered(raw: Seq<u8>) -> bool {
    raw.len() >= 2 && raw[1] == COLON && (65 <= raw[0] <= 90 || 97 <= raw[0] <= 122)
}

/// How many bytes at the start of a path with slashes name its drive, where it has one. A server
/// is not named by a dot or a question mark, which stand for devices and for paths that are taken
/// to the letter.
pub open spec fn drive_length(raw: Seq<u8>) -> Option<int> {
    if lettered(raw) {
        Some(2)
    } else if raw.len() >= 2 && raw[0] == SLASH && raw[1] == SLASH {
        let server = text::position(raw.skip(2), SLASH);
        let shared = raw.skip(2 + server + 1);
        if 0 < server < raw.len() - 2 && raw.subrange(2, 2 + server) != seq![46u8] && raw.subrange(
            2,
            2 + server,
        ) != seq![63u8] && text::position(shared, SLASH) > 0 {
            Some(2 + server + 1 + text::position(shared, SLASH))
        } else {
            None
        }
    } else {
        None
    }
}

/// The drive that the first `n` bytes of a path with slashes name, a letter in either case.
pub open spec fn drive_of(raw: Seq<u8>, n: int) -> Seq<u8> {
    (if lettered(raw) && 97 <= raw[0] {
        seq![(raw[0] - 32) as u8, COLON]
    } else {
        raw.take(n)
    }) + seq![SLASH]
}

/// What stands behind the drive of a path with slashes. A share is its own root.
pub open spec fn behind_drive(raw: Seq<u8>, n: int) -> Seq<u8> {
    if n == raw.len() && !lettered(raw) {
        seq![SLASH]
    } else {
        raw.skip(n)
    }
}

/// What a cleaned absolute path is made of: components, behind a drive where it has one. Behind a
/// drive none of them holds a backslash, which would separate there.
pub open spec fn absolute_parts(parts: Seq<Seq<u8>>) -> bool {
    if has_drive(parts) {
        &&& all_components(parts.skip(1))
        &&& forall|i: int|
            1 <= i < parts.len() ==> !(#[trigger] parts[i]).contains(BACKSLASH)
    } else {
        all_components(parts)
    }
}

/// An absolute path written out with slashes, whatever its host writes.
pub open spec fn slashed(parts: Seq<Seq<u8>>) -> Seq<u8> {
    if has_drive(parts) {
        parts[0].drop_last() + rooted(parts.skip(1))
    } else {
        rooted(parts)
    }
}

/// An absolute path written out as its host writes it.
pub open spec fn written(parts: Seq<Seq<u8>>) -> Seq<u8> {
    if has_drive(parts) {
        backward(slashed(parts))
    } else {
        rooted(parts)
    }
}

/// What a path's host puts between two components.
pub open spec fn separator(parts: Seq<Seq<u8>>) -> u8 {
    if has_drive(parts) {
        BACKSLASH
    } else {
        SLASH
    }
}

/// The components of a path beneath another, which decides what separates them.
pub open spec fn components_under(base: Seq<Seq<u8>>, raw: Seq<u8>) -> Seq<Seq<u8>> {
    if has_drive(base) {
        components(forward(raw))
    } else {
        components(raw)
    }
}

/// What a path cleans to on a host whose paths begin with a drive, or on one whose paths do not.
/// With a drive, a path that has none, or none before its root, moves with the current directory,
/// and is not absolute.
pub open spec fn cleaned_on(drives: bool, raw: Seq<u8>, shown: Seq<char>) -> Result<
    Seq<Seq<u8>>,
    PathFault,
> {
    if !drives {
        cleaned(raw, shown)
    } else {
        let whole = forward(raw);
        match drive_length(whole) {
            Some(n) => match cleaned(behind_drive(whole, n), shown) {
                Ok(parts) => Ok(seq![drive_of(whole, n)] + parts),
                Err(fault) => Err(fault),
            },
            None => if components(whole).contains(dot_dot()) {
                Err(PathFault::ParentComponent(shown))
            } else {
                Err(PathFault::Relative(shown))
            },
        }
    }
}

/// What a path cleans to: its components, or the first reason it is not an absolute path.
pub open spec fn cleaned(raw: Seq<u8>, shown: Seq<char>) -> Result<Seq<Seq<u8>>, PathFault> {
    if components(raw).contains(dot_dot()) {
        Err(PathFault::ParentComponent(shown))
    } else if !starts_at_root(raw) {
        Err(PathFault::Relative(shown))
    } else {
        Ok(components(raw))
    }
}

/// No piece of a split holds the separator.
pub proof fn lemma_split_free<T>(s: Seq<T>, sep: T)
    ensures
        forall|i: int| 0 <= i < text::split(s, sep).len() ==> !(#[trigger] text::split(s, sep)[i]).contains(sep),
    decreases s.len(),
{
    text::lemma_position_bounds(s, sep);
    let at = text::position(s, sep);
    if at < s.len() {
        lemma_split_free(s.skip(at + 1), sep);
        let tail = text::split(s.skip(at + 1), sep);
        assert forall|i: int| 0 <= i < text::split(s, sep).len() implies !(#[trigger] text::split(
            s,
            sep,
        )[i]).contains(sep) by {
            if i == 0 {
                assert(text::split(s, sep)[0] == s.take(at));
                if s.take(at).contains(sep) {
                    let j = choose|j: int| 0 <= j < s.take(at).len() && s.take(at)[j] == sep;
                    assert(s[j] == sep);
                }
            } else {
                assert(text::split(s, sep)[i] == tail[i - 1]);
            }
        }
    } else {
        if s.contains(sep) {
            let j = choose|j: int| 0 <= j < s.len() && s[j] == sep;
            assert(s[j] != sep);
        }
    }
}

proof fn lemma_named_members(pieces: Seq<Seq<u8>>)
    requires
        forall|i: int| 0 <= i < pieces.len() ==> !(#[trigger] pieces[i]).contains(SLASH),
    ensures
        forall|i: int|
            0 <= i < named(pieces).len() ==> names_something(#[trigger] named(pieces)[i])
                && !named(pieces)[i].contains(SLASH),
    decreases pieces.len(),
{
    if pieces.len() > 0 {
        assert forall|i: int| 0 <= i < pieces.drop_last().len() implies !(
        #[trigger] pieces.drop_last()[i]).contains(SLASH) by {
            assert(pieces.drop_last()[i] == pieces[i]);
        }
        lemma_named_members(pieces.drop_last());
        assert(!pieces[pieces.len() - 1].contains(SLASH));
        assert forall|i: int| 0 <= i < named(pieces).len() implies names_something(
            #[trigger] named(pieces)[i],
        ) && !named(pieces)[i].contains(SLASH) by {
            let before = named(pieces.drop_last());
            if i < before.len() {
                assert(named(pieces)[i] == before[i]);
            }
        }
    }
}

pub proof fn lemma_components(raw: Seq<u8>)
    ensures
        !components(raw).contains(dot_dot()) ==> all_components(components(raw)),
{
    lemma_split_free(raw, SLASH);
    lemma_named_members(text::split(raw, SLASH));
    if !components(raw).contains(dot_dot()) {
        assert forall|i: int| 0 <= i < components(raw).len() implies is_component(
            #[trigger] components(raw)[i],
        ) by {
            assert(components(raw).contains(components(raw)[i]));
        }
    }
}

/// The components of a path.
pub fn pieces(raw: &[u8]) -> (out: Vec<Vec<u8>>)
    ensures
        octets::byte_views(out@) == components(raw@),
{
    let all = split_bytes(raw, SLASH);
    let ghost views = octets::byte_views(all@);
    let mut out: Vec<Vec<u8>> = Vec::new();
    let mut i: usize = 0;
    assert(octets::byte_views(out@) =~= named(views.take(0)));
    while i < all.len()
        invariant
            i <= all@.len(),
            views == octets::byte_views(all@),
            octets::byte_views(out@) == named(views.take(i as int)),
        decreases all@.len() - i,
    {
        let piece = &all[i];
        let ghost before = octets::byte_views(out@);
        proof {
            assert(views.take(i + 1).drop_last() =~= views.take(i as int));
            assert(views.take(i + 1).last() == piece@);
        }
        let dot = piece.len() == 1 && piece[0] == 46;
        assert(dot == (piece@ == seq![46u8])) by {
            if dot {
                assert(piece@ =~= seq![46u8]);
            }
        }
        if piece.len() > 0 && !dot {
            out.push(copy_bytes(piece));
            assert(octets::byte_views(out@) =~= before.push(piece@));
        }
        i += 1;
    }
    assert(views.take(i as int) =~= views);
    out
}

fn holds_dot_dot(parts: &[Vec<u8>]) -> (out: bool)
    ensures
        out == octets::byte_views(parts@).contains(dot_dot()),
{
    let mut i: usize = 0;
    while i < parts.len()
        invariant
            i <= parts@.len(),
            forall|j: int| 0 <= j < i ==> octets::byte_views(parts@)[j] != dot_dot(),
        decreases parts@.len() - i,
    {
        let part = &parts[i];
        if part.len() == 2 && part[0] == 46 && part[1] == 46 {
            assert(part@ =~= dot_dot());
            assert(octets::byte_views(parts@)[i as int] == dot_dot());
            return true;
        }
        assert(octets::byte_views(parts@)[i as int] == part@);
        i += 1;
    }
    false
}

/// Whether two paths have the same components up to `n`.
pub fn same_parts(a: &[Vec<u8>], b: &[Vec<u8>], n: usize) -> (out: bool)
    requires
        n <= a@.len(),
        n <= b@.len(),
    ensures
        out == (octets::byte_views(a@).take(n as int) == octets::byte_views(b@).take(n as int)),
{
    let ghost x = octets::byte_views(a@).take(n as int);
    let ghost y = octets::byte_views(b@).take(n as int);
    let mut i: usize = 0;
    while i < n
        invariant
            i <= n <= a@.len(),
            n <= b@.len(),
            x == octets::byte_views(a@).take(n as int),
            y == octets::byte_views(b@).take(n as int),
            forall|j: int| 0 <= j < i ==> x[j] == y[j],
        decreases n - i,
    {
        assert(x[i as int] == a@[i as int]@ && y[i as int] == b@[i as int]@);
        if !same_bytes(&a[i], &b[i]) {
            return false;
        }
        i += 1;
    }
    assert(x =~= y);
    true
}

/// A copy of a list of components.
pub fn copy_parts(parts: &[Vec<u8>], n: usize) -> (out: Vec<Vec<u8>>)
    requires
        n <= parts@.len(),
    ensures
        octets::byte_views(out@) == octets::byte_views(parts@).take(n as int),
{
    let mut out: Vec<Vec<u8>> = Vec::new();
    let mut i: usize = 0;
    assert(octets::byte_views(out@) =~= octets::byte_views(parts@).take(0));
    while i < n
        invariant
            i <= n <= parts@.len(),
            octets::byte_views(out@) == octets::byte_views(parts@).take(i as int),
        decreases n - i,
    {
        let ghost before = octets::byte_views(out@);
        out.push(copy_bytes(&parts[i]));
        i += 1;
        assert(octets::byte_views(out@) =~= before.push(parts@[i - 1]@));
        assert(octets::byte_views(out@) =~= octets::byte_views(parts@).take(i as int));
    }
    assert(i == n);
    out
}

// ---------------------------------------------------------------------------
// Expansion
// ---------------------------------------------------------------------------

/// What a path is read against: the two variables it may name, and whether paths begin with a
/// drive on this host.
pub struct Vars {
    pub home: Option<String>,
    pub user: Option<String>,
    pub drives: bool,
}

/// The value of a variable, where it is one of the two and is set.
pub open spec fn lookup(name: Seq<char>, vars: Vars) -> Option<Seq<char>> {
    if name == "HOME"@ {
        crate::text::view_opt(vars.home)
    } else {
        crate::text::view_opt(vars.user)
    }
}

pub open spec fn allowed(name: Seq<char>) -> bool {
    name == "HOME"@ || name == "USER"@
}

pub open spec fn name_char(c: char) -> bool {
    'a' <= c && c <= 'z' || 'A' <= c && c <= 'Z' || '0' <= c && c <= '9' || c == '_'
}

/// How many characters at the start of `s` can belong to a variable's name.
pub open spec fn name_length(s: Seq<char>) -> int
    decreases s.len(),
{
    if s.len() == 0 || !name_char(s[0]) {
        0
    } else {
        1 + name_length(s.skip(1))
    }
}

/// The name that follows a `$`, bare or in braces, and what stands behind it. `None` where an
/// opening brace is never closed.
pub open spec fn variable(after: Seq<char>) -> Option<(Seq<char>, Seq<char>)> {
    if after.len() > 0 && after[0] == '{' {
        let braced = after.skip(1);
        let close = text::position(braced, '}');
        if close < braced.len() {
            Some((braced.take(close), braced.skip(close + 1)))
        } else {
            None
        }
    } else {
        let end = name_length(after);
        Some((after.take(end), after.skip(end)))
    }
}

/// `~` and `~/...` with the home directory in place of the tilde.
pub open spec fn home_expanded(input: Seq<char>, home: Option<Seq<char>>) -> Result<
    Seq<char>,
    PathFault,
> {
    if input.len() == 0 || input[0] != '~' {
        Ok(input)
    } else {
        let rest = input.skip(1);
        if rest.len() > 0 && rest[0] != '/' {
            Err(PathFault::NamedHome(text::split(rest, '/')[0]))
        } else {
            match home {
                Some(home) => Ok(home + rest),
                None => Err(PathFault::NoHome),
            }
        }
    }
}

/// Every `$NAME` and `${NAME}` replaced by its value.
pub open spec fn vars_expanded(whole: Seq<char>, rest: Seq<char>, vars: Vars) -> Result<
    Seq<char>,
    PathFault,
>
    decreases rest.len(),
{
    let at = text::position(rest, '$');
    if !(0 <= at < rest.len()) {
        Ok(rest)
    } else {
        match variable(rest.skip(at + 1)) {
            None => Err(PathFault::UnterminatedBrace(whole)),
            Some((name, tail)) => {
                if !allowed(name) {
                    Err(PathFault::VariableNotAllowed(name))
                } else {
                    match lookup(name, vars) {
                        Some(value) => {
                            if value.len() == 0 {
                                Err(PathFault::VariableUnset(name))
                            } else if tail.len() < rest.len() {
                                match vars_expanded(whole, tail, vars) {
                                    Ok(more) => Ok(rest.take(at) + value + more),
                                    Err(fault) => Err(fault),
                                }
                            } else {
                                Ok(rest)
                            }
                        },
                        None => Err(PathFault::VariableUnset(name)),
                    }
                }
            },
        }
    }
}

/// What a config value names: home first, then variables, then cleaning.
pub open spec fn resolved(input: Seq<char>, home: Option<Seq<char>>, vars: Vars) -> Result<
    Seq<Seq<u8>>,
    PathFault,
> {
    if input.len() == 0 {
        Err(PathFault::Empty)
    } else {
        match home_expanded(input, home) {
            Err(fault) => Err(fault),
            Ok(with_home) => match vars_expanded(with_home, with_home, vars) {
                Err(fault) => Err(fault),
                Ok(expanded) => cleaned_on(vars.drives, encode_utf8(expanded), input),
            },
        }
    }
}

pub open spec fn view_str_opt(v: Option<&str>) -> Option<Seq<char>> {
    match v {
        Some(s) => Some(s@),
        None => None,
    }
}

fn expand_home(input: &str, home: Option<&str>) -> (out: Result<String, PathError>)
    ensures
        match out {
            Ok(s) => home_expanded(input@, view_str_opt(home)) == Ok::<Seq<char>, PathFault>(s@),
            Err(e) => home_expanded(input@, view_str_opt(home)) == Err::<Seq<char>, PathFault>(e@),
        },
{
    let cs = chars_of(input);
    let len: usize = cs.len();
    if len == 0 || cs[0] != '~' {
        return Ok(input.to_owned());
    }
    let rest = between(&cs, 1, len);
    assert(rest@ =~= input@.skip(1));
    if len > 1 && cs[1] != '/' {
        let parts = crate::text::split_text(&rest, '/');
        proof {
            crate::text::lemma_split_nonempty(rest@, '/');
            assert(crate::text::views(parts@)[0] == parts@[0]@);
        }
        return Err(PathError::NamedHome(parts[0].clone()));
    }
    match home {
        Some(home) => Ok(cat2(home, &rest)),
        None => Err(PathError::NoHome),
    }
}

fn ident_length(s: &[char], from: usize) -> (out: usize)
    requires
        from <= s@.len(),
    ensures
        out <= s@.len() - from,
        out == name_length(s@.skip(from as int)),
{
    let mut i: usize = from;
    let ghost rest = s@.skip(from as int);
    assert(rest.skip(0) =~= rest);
    while i < s.len()
        invariant_except_break
            from <= i <= s@.len(),
            rest == s@.skip(from as int),
            name_length(rest) == i - from + name_length(rest.skip(i - from)),
        ensures
            from <= i <= s@.len(),
            name_length(rest) == i - from,
        decreases s@.len() - i,
    {
        let c = s[i];
        assert(rest.skip(i - from)[0] == c);
        if !(('a' <= c && c <= 'z') || ('A' <= c && c <= 'Z') || ('0' <= c && c <= '9') || c
            == '_') {
            break;
        }
        assert(rest.skip(i - from).skip(1) =~= rest.skip(i + 1 - from));
        i += 1;
    }
    i - from
}

/// The variable whose name begins at `from`, and where what follows it begins.
fn variable_at(cs: &[char], from: usize) -> (out: Option<(String, usize)>)
    requires
        from <= cs@.len(),
    ensures
        match out {
            Some((name, next)) => from <= next <= cs@.len() && variable(cs@.skip(from as int))
                == Some((name@, cs@.skip(next as int))),
            None => variable(cs@.skip(from as int)) is None,
        },
{
    let len: usize = cs.len();
    let ghost after = cs@.skip(from as int);
    if from < len && cs[from] == '{' {
        let ghost braced = after.skip(1);
        let start: usize = from + 1;
        assert(braced =~= cs@.skip(start as int));
        let mut close: usize = start;
        while close < len && cs[close] != '}'
            invariant
                start <= close <= len == cs@.len(),
                forall|j: int| start <= j < close ==> cs@[j] != '}',
            decreases len - close,
        {
            close += 1;
        }
        proof {
            text::lemma_position(braced, '}', close - start);
        }
        if close == len {
            return None;
        }
        let name = between(cs, start, close);
        assert(braced.take(close - start) =~= name@);
        assert(braced.skip(close - start + 1) =~= cs@.skip(close + 1));
        Some((name, close + 1))
    } else {
        let end: usize = from + ident_length(cs, from);
        let name = between(cs, from, end);
        assert(after.take(end - from) =~= name@);
        assert(after.skip(end - from) =~= cs@.skip(end as int));
        Some((name, end))
    }
}

/// One variable replaced: what is left to expand is what stands behind it.
proof fn lemma_expand_step(
    whole: Seq<char>,
    rest: Seq<char>,
    vars: Vars,
    at: int,
    name: Seq<char>,
    tail: Seq<char>,
)
    requires
        text::position(rest, '$') == at,
        0 <= at < rest.len(),
        variable(rest.skip(at + 1)) == Some((name, tail)),
        tail.len() < rest.len(),
    ensures
        vars_expanded(whole, rest, vars) == (if !allowed(name) {
            Err(PathFault::VariableNotAllowed(name))
        } else {
            match lookup(name, vars) {
                Some(value) => {
                    if value.len() == 0 {
                        Err(PathFault::VariableUnset(name))
                    } else {
                        match vars_expanded(whole, tail, vars) {
                            Ok(more) => Ok(rest.take(at) + value + more),
                            Err(fault) => Err(fault),
                        }
                    }
                },
                None => Err(PathFault::VariableUnset(name)),
            }
        }),
{
}

/// What a prefix already expanded leaves of the whole expansion.
spec fn behind(done: Seq<char>, more: Result<Seq<char>, PathFault>) -> Result<
    Seq<char>,
    PathFault,
> {
    match more {
        Ok(more) => Ok(done + more),
        Err(fault) => Err(fault),
    }
}

fn expand_vars(input: &str, vars: &Vars) -> (out: Result<String, PathError>)
    ensures
        match out {
            Ok(s) => vars_expanded(input@, input@, *vars) == Ok::<Seq<char>, PathFault>(s@),
            Err(e) => vars_expanded(input@, input@, *vars) == Err::<Seq<char>, PathFault>(e@),
        },
{
    let cs = chars_of(input);
    let len: usize = cs.len();
    let mut out = String::new();
    let mut from: usize = 0;
    let ghost goal = vars_expanded(input@, input@, *vars);
    proof {
        assert(cs@.skip(0) =~= cs@);
        match goal {
            Ok(more) => {
                assert(out@ + more =~= more);
            },
            Err(_) => {},
        }
    }
    let mut at: usize = 0;
    while at < len
        invariant
            from <= at <= len == cs@.len(),
            cs@ == input@,
            forall|j: int| from <= j < at ==> cs@[j] != '$',
            goal == vars_expanded(input@, input@, *vars),
            goal == behind(out@, vars_expanded(input@, cs@.skip(from as int), *vars)),
        decreases len - at,
    {
        if cs[at] != '$' {
            at += 1;
            continue ;
        }
        let ghost rest = cs@.skip(from as int);
        let ghost p = at - from;
        proof {
            text::lemma_position(rest, '$', p);
            assert(rest.skip(p + 1) =~= cs@.skip(at + 1));
        }
        let (name, next) = match variable_at(&cs, at + 1) {
            Some(found) => found,
            None => {
                return Err(PathError::UnterminatedBrace(input.to_owned()));
            },
        };
        let ghost tail = cs@.skip(next as int);
        proof {
            lemma_expand_step(input@, rest, *vars, p, name@, tail);
        }
        let is_home = same(&name, "HOME");
        if !is_home && !same(&name, "USER") {
            return Err(PathError::VariableNotAllowed(name));
        }
        let value: &Option<String> = if is_home {
            &vars.home
        } else {
            &vars.user
        };
        match value {
            Some(value) => {
                if value.as_str().is_empty() {
                    return Err(PathError::VariableUnset(name));
                }
                let plain = between(&cs, from, at);
                assert(plain@ =~= rest.take(p));
                let ghost before = out@;
                out.append(&plain);
                out.append(value);
                proof {
                    match vars_expanded(input@, tail, *vars) {
                        Ok(more) => {
                            assert(before + (rest.take(p) + value@ + more) =~= out@ + more);
                        },
                        Err(_) => {},
                    }
                }
            },
            None => {
                return Err(PathError::VariableUnset(name));
            },
        }
        from = next;
        at = next;
    }
    let tail = between(&cs, from, len);
    proof {
        let rest = cs@.skip(from as int);
        text::lemma_position(rest, '$', rest.len() as int);
        assert(tail@ =~= rest);
    }
    out.append(&tail);
    Ok(out)
}

/// [`forward`].
pub fn forward_bytes(raw: &[u8]) -> (out: Vec<u8>)
    ensures
        out@ == forward(raw@),
{
    let mut out: Vec<u8> = Vec::new();
    let mut i: usize = 0;
    while i < raw.len()
        invariant
            i <= raw@.len(),
            out@ == forward(raw@).take(i as int),
        decreases raw@.len() - i,
    {
        let ghost before = out@;
        out.push(if raw[i] == BACKSLASH {
            SLASH
        } else {
            raw[i]
        });
        i += 1;
        assert(out@ =~= forward(raw@).take(i as int));
    }
    assert(forward(raw@).take(i as int) =~= forward(raw@));
    out
}

fn backward_bytes(raw: &[u8]) -> (out: Vec<u8>)
    ensures
        out@ == backward(raw@),
{
    let mut out: Vec<u8> = Vec::new();
    let mut i: usize = 0;
    while i < raw.len()
        invariant
            i <= raw@.len(),
            out@ == backward(raw@).take(i as int),
        decreases raw@.len() - i,
    {
        out.push(if raw[i] == SLASH {
            BACKSLASH
        } else {
            raw[i]
        });
        i += 1;
        assert(out@ =~= backward(raw@).take(i as int));
    }
    assert(backward(raw@).take(i as int) =~= backward(raw@));
    out
}

/// [`lettered`].
pub fn is_lettered(raw: &[u8]) -> (out: bool)
    ensures
        out == lettered(raw@),
{
    raw.len() >= 2 && raw[1] == COLON && ((65 <= raw[0] && raw[0] <= 90) || (97 <= raw[0] && raw[0]
        <= 122))
}

fn slash_from(raw: &[u8], from: usize) -> (out: usize)
    requires
        from <= raw@.len(),
    ensures
        from <= out <= raw@.len(),
        out == from + text::position(raw@.skip(from as int), SLASH),
{
    let mut i: usize = from;
    let ghost rest = raw@.skip(from as int);
    while i < raw.len() && raw[i] != SLASH
        invariant
            from <= i <= raw@.len(),
            rest == raw@.skip(from as int),
            forall|j: int| 0 <= j < i - from ==> rest[j] != SLASH,
        decreases raw@.len() - i,
    {
        assert(rest[i - from] == raw@[i as int]);
        i += 1;
    }
    proof {
        if i < raw@.len() {
            assert(rest[i - from] == SLASH);
        }
        text::lemma_position(rest, SLASH, i - from);
    }
    i
}

/// [`drive_length`], of bytes with slashes.
pub fn drive_bytes(raw: &[u8]) -> (out: Option<usize>)
    ensures
        match out {
            Some(n) => drive_length(raw@) == Some(n as int) && n <= raw@.len(),
            None => drive_length(raw@) is None,
        },
{
    if is_lettered(raw) {
        return Some(2);
    }
    let len: usize = raw.len();
    if len < 2 || raw[0] != SLASH || raw[1] != SLASH {
        return None;
    }
    let end: usize = slash_from(raw, 2);
    if end == 2 || end == len {
        return None;
    }
    let ghost named = raw@.subrange(2, end as int);
    if end == 3 && (raw[2] == 46 || raw[2] == 63) {
        assert(named =~= seq![raw@[2]]);
        return None;
    }
    proof {
        if named == seq![46u8] {
            assert(named[0] == raw@[2]);
        }
        if named == seq![63u8] {
            assert(named[0] == raw@[2]);
        }
    }
    let share: usize = slash_from(raw, end + 1);
    if share == end + 1 {
        return None;
    }
    Some(share)
}

/// What a path with slashes names as its drive is one.
proof fn lemma_drive_of(raw: Seq<u8>, n: int)
    requires
        drive_length(raw) == Some(n),
        !raw.contains(BACKSLASH),
    ensures
        is_drive(drive_of(raw, n)),
{
    let drive = drive_of(raw, n);
    if lettered(raw) {
        assert(drive.len() == 3);
        assert(lettered(drive));
    } else {
        lemma_taken_drive(raw, n);
        lemma_share_length(raw.take(n), seq![SLASH]);
        assert(raw.take(n) + seq![SLASH] =~= drive);
    }
    assert forall|i: int| 0 <= i < drive.len() implies #[trigger] drive[i] != BACKSLASH by {
        if i < n && !(lettered(raw) && 97 <= raw[0] && i == 0) {
            assert(drive[i] == raw[i]);
            assert(raw.contains(raw[i]));
        }
    }
}

/// A share's name is itself one where nothing follows it.
proof fn lemma_taken_drive(raw: Seq<u8>, n: int)
    requires
        drive_length(raw) == Some(n),
        !lettered(raw),
    ensures
        n <= raw.len(),
        drive_length(raw.take(n)) == Some(n),
        !lettered(raw.take(n)),
{
    let below = raw.skip(2);
    text::lemma_position_bounds(below, SLASH);
    let server = text::position(below, SLASH);
    let shared = raw.skip(2 + server + 1);
    text::lemma_position_bounds(shared, SLASH);
    let share = text::position(shared, SLASH);
    let t = raw.take(n);
    assert forall|j: int| 0 <= j < server implies t.skip(2)[j] != SLASH by {
        assert(t.skip(2)[j] == below[j]);
    }
    assert(t.skip(2)[server] == below[server]);
    text::lemma_position(t.skip(2), SLASH, server);
    let cut = t.skip(2 + server + 1);
    assert forall|j: int| 0 <= j < share implies cut[j] != SLASH by {
        assert(cut[j] == shared[j]);
    }
    text::lemma_position(cut, SLASH, share);
    assert(t.subrange(2, 2 + server) =~= raw.subrange(2, 2 + server));
}

/// A share's name ends where a slash follows it.
proof fn lemma_share_length(share: Seq<u8>, rest: Seq<u8>)
    requires
        rest.len() > 0,
        rest[0] == SLASH,
        drive_length(share) == Some(share.len() as int),
        !lettered(share),
    ensures
        drive_length(share + rest) == Some(share.len() as int),
        !lettered(share + rest),
{
    let below = share.skip(2);
    text::lemma_position_bounds(below, SLASH);
    let server = text::position(below, SLASH);
    let shared = share.skip(2 + server + 1);
    text::lemma_position_bounds(shared, SLASH);
    let whole = share + rest;
    assert forall|j: int| 0 <= j < server implies whole.skip(2)[j] != SLASH by {
        assert(whole.skip(2)[j] == below[j]);
    }
    assert(whole.skip(2)[server] == below[server]);
    text::lemma_position(whole.skip(2), SLASH, server);
    let n = shared.len() as int;
    assert(text::position(shared, SLASH) == n);
    let longer = whole.skip(2 + server + 1);
    assert forall|j: int| 0 <= j < n implies longer[j] != SLASH by {
        assert(longer[j] == shared[j]);
    }
    assert(longer[n] == rest[0]);
    text::lemma_position(longer, SLASH, n);
    assert(whole.subrange(2, 2 + server) =~= share.subrange(2, 2 + server));
}

/// A drive that is written out with what is behind it is read as itself.
proof fn lemma_drive_reads_back(drive: Seq<u8>, rest: Seq<u8>)
    requires
        is_drive(drive),
        rest.len() > 0,
        rest[0] == SLASH,
    ensures
        ({
            let whole = drive.drop_last() + rest;
            &&& drive_length(whole) == Some(drive.len() - 1)
            &&& drive_of(whole, drive.len() - 1) == drive
            &&& behind_drive(whole, drive.len() - 1) == rest
        }),
{
    let whole = drive.drop_last() + rest;
    let n = drive.len() - 1;
    if lettered(drive) {
        assert(lettered(whole));
        assert(whole.take(2) + seq![SLASH] =~= drive);
    } else {
        lemma_taken_drive(drive, n);
        assert(drive.take(n) =~= drive.drop_last());
        lemma_share_length(drive.drop_last(), rest);
        assert(whole.take(n) + seq![SLASH] =~= drive);
    }
    assert(whole.skip(n) =~= rest);
}

/// Nothing is left of the backslashes.
proof fn lemma_forward(raw: Seq<u8>)
    ensures
        !forward(raw).contains(BACKSLASH),
        forall|n: int| 0 <= n <= raw.len() ==> !(#[trigger] forward(raw).skip(n)).contains(BACKSLASH),
{
    assert forall|n: int| 0 <= n <= raw.len() implies !(#[trigger] forward(raw).skip(n)).contains(
        BACKSLASH,
    ) by {
        let tail = forward(raw).skip(n);
        if tail.contains(BACKSLASH) {
            let i = choose|i: int| 0 <= i < tail.len() && tail[i] == BACKSLASH;
            assert(forward(raw)[i + n] == BACKSLASH);
        }
    }
    assert(forward(raw).skip(0) =~= forward(raw));
}

/// What no byte of a path is, no byte of its components is.
proof fn lemma_free_of(raw: Seq<u8>, byte: u8)
    requires
        !raw.contains(byte),
    ensures
        forall|i: int| 0 <= i < components(raw).len() ==> !(#[trigger] components(raw)[i]).contains(byte),
{
    lemma_pieces_free(raw, SLASH, byte);
    lemma_named_free(text::split(raw, SLASH), byte);
}

proof fn lemma_pieces_free(s: Seq<u8>, sep: u8, byte: u8)
    requires
        !s.contains(byte),
    ensures
        forall|i: int|
            0 <= i < text::split(s, sep).len() ==> !(#[trigger] text::split(s, sep)[i]).contains(byte),
    decreases s.len(),
{
    text::lemma_position_bounds(s, sep);
    let at = text::position(s, sep);
    if at < s.len() {
        let rest = s.skip(at + 1);
        let head = s.take(at);
        if rest.contains(byte) {
            let j = choose|j: int| 0 <= j < rest.len() && rest[j] == byte;
            assert(s[j + at + 1] == byte);
        }
        if head.contains(byte) {
            let j = choose|j: int| 0 <= j < head.len() && head[j] == byte;
            assert(s[j] == byte);
        }
        lemma_pieces_free(rest, sep, byte);
        let tail = text::split(rest, sep);
        assert forall|i: int| 0 <= i < text::split(s, sep).len() implies !(#[trigger] text::split(
            s,
            sep,
        )[i]).contains(byte) by {
            if i > 0 {
                assert(text::split(s, sep)[i] == tail[i - 1]);
            }
        }
    }
}

proof fn lemma_named_free(pieces: Seq<Seq<u8>>, byte: u8)
    requires
        forall|i: int| 0 <= i < pieces.len() ==> !(#[trigger] pieces[i]).contains(byte),
    ensures
        forall|i: int| 0 <= i < named(pieces).len() ==> !(#[trigger] named(pieces)[i]).contains(byte),
    decreases pieces.len(),
{
    if pieces.len() > 0 {
        let most = pieces.drop_last();
        assert forall|i: int| 0 <= i < most.len() implies !(#[trigger] most[i]).contains(byte) by {
            assert(most[i] == pieces[i]);
        }
        lemma_named_free(most, byte);
        assert(!pieces[pieces.len() - 1].contains(byte));
        assert forall|i: int| 0 <= i < named(pieces).len() implies !(#[trigger] named(
            pieces,
        )[i]).contains(byte) by {
            if i < named(most).len() {
                assert(named(pieces)[i] == named(most)[i]);
            }
        }
    }
}

/// Components alone hold no drive.
pub proof fn lemma_no_drive(parts: Seq<Seq<u8>>)
    requires
        all_components(parts),
    ensures
        !has_drive(parts),
        absolute_parts(parts),
{
    if has_drive(parts) {
        assert(is_component(parts[0]));
        assert(parts[0].contains(parts[0].last()));
    }
}

/// Only the first of a path's components is ever a drive.
pub proof fn lemma_last_is_no_drive(parts: Seq<Seq<u8>>)
    requires
        absolute_parts(parts),
        parts.len() > 0,
    ensures
        is_drive(parts.last()) ==> parts.len() == 1 && has_drive(parts),
{
    let last = parts.last();
    if is_drive(last) {
        assert(last.contains(last.last()));
        if has_drive(parts) {
            if parts.len() > 1 {
                assert(is_component(parts.skip(1)[parts.len() - 2]));
            }
        } else {
            assert(is_component(parts[parts.len() - 1]));
        }
    }
}

proof fn lemma_ancestor(parts: Seq<Seq<u8>>, n: int)
    requires
        absolute_parts(parts),
        0 <= n <= parts.len(),
    ensures
        absolute_parts(parts.take(n)),
{
    let above = parts.take(n);
    if has_drive(parts) && n > 0 {
        assert forall|i: int| 0 <= i < above.skip(1).len() implies is_component(
            #[trigger] above.skip(1)[i],
        ) by {
            assert(above.skip(1)[i] == parts.skip(1)[i]);
        }
    } else if !has_drive(parts) {
        assert forall|i: int| 0 <= i < above.len() implies is_component(#[trigger] above[i]) by {
            assert(above[i] == parts[i]);
        }
        lemma_no_drive(above);
    }
}

proof fn lemma_child(parts: Seq<Seq<u8>>, name: Seq<u8>)
    requires
        absolute_parts(parts),
        is_component(name),
        !name.contains(BACKSLASH),
    ensures
        absolute_parts(parts.push(name)),
{
    let all = parts.push(name);
    if has_drive(parts) {
        assert forall|i: int| 0 <= i < all.skip(1).len() implies is_component(
            #[trigger] all.skip(1)[i],
        ) by {
            if i < parts.skip(1).len() {
                assert(all.skip(1)[i] == parts.skip(1)[i]);
            }
        }
        assert forall|i: int| 1 <= i < all.len() implies !(#[trigger] all[i]).contains(
            BACKSLASH,
        ) by {
            if i < parts.len() {
                assert(all[i] == parts[i]);
            }
        }
    } else {
        assert forall|i: int| 0 <= i < all.len() implies is_component(#[trigger] all[i]) by {
            if i < parts.len() {
                assert(all[i] == parts[i]);
            }
        }
        lemma_no_drive(all);
    }
}

impl View for AbsPath {
    type V = Seq<Seq<u8>>;

    closed spec fn view(&self) -> Seq<Seq<u8>> {
        octets::byte_views(self.parts@)
    }
}

impl Clone for AbsPath {
    fn clone(&self) -> (out: Self)
        ensures
            out@ == self@,
    {
        proof {
            use_type_invariant(self);
        }
        let parts = copy_parts(&self.parts, self.parts.len());
        assert(octets::byte_views(self.parts@).take(self.parts@.len() as int) =~= octets::byte_views(self.parts@));
        AbsPath { parts }
    }
}

impl AbsPath {
    #[verifier::type_invariant]
    closed spec fn valid(self) -> bool {
        absolute_parts(octets::byte_views(self.parts@))
    }

    /// Expands and validates a config value against a supplied environment, so `doctor` can
    /// re-resolve a root under the launchd agent's environment and compare. For a host whose
    /// paths begin with a drive, [`AbsPath::parse_in`] takes that too.
    ///
    /// # Errors
    ///
    /// Every way the value can fail to name an absolute path, one variant each, so
    /// `config check` can report all of a file's problems at once.
    pub fn parse_with<F: Fn(&str) -> Option<String>>(
        input: &str,
        home: Option<&str>,
        var: F,
    ) -> (out: Result<AbsPath, PathError>)
        requires
            forall|name: &str| #[trigger] call_requires(var, (name,)),
        ensures
            exists|vars: Vars|
                {
                    &&& exists|name: &str| name@ == "HOME"@ && call_ensures(var, (name,), vars.home)
                    &&& exists|name: &str| name@ == "USER"@ && call_ensures(var, (name,), vars.user)
                    &&& !vars.drives
                    &&& match out {
                        Ok(path) => #[trigger] resolved(input@, view_str_opt(home), vars) == Ok::<
                            Seq<Seq<u8>>,
                            PathFault,
                        >(path@),
                        Err(e) => resolved(input@, view_str_opt(home), vars) == Err::<
                            Seq<Seq<u8>>,
                            PathFault,
                        >(e@),
                    }
                },
    {
        let vars = Vars { home: var("HOME"), user: var("USER"), drives: false };
        AbsPath::parse_in(input, home, &vars)
    }

    /// The same expansion with the two variables already read, on either kind of host.
    ///
    /// # Errors
    ///
    /// As [`AbsPath::parse_with`].
    pub fn parse_in(input: &str, home: Option<&str>, vars: &Vars) -> (out: Result<
        AbsPath,
        PathError,
    >)
        ensures
            match out {
                Ok(path) => resolved(input@, view_str_opt(home), *vars) == Ok::<
                    Seq<Seq<u8>>,
                    PathFault,
                >(path@),
                Err(e) => resolved(input@, view_str_opt(home), *vars) == Err::<
                    Seq<Seq<u8>>,
                    PathFault,
                >(e@),
            },
    {
        if input.is_empty() {
            return Err(PathError::Empty);
        }
        let with_home = match expand_home(input, home) {
            Ok(s) => s,
            Err(e) => return Err(e),
        };
        let expanded = match expand_vars(&with_home, vars) {
            Ok(s) => s,
            Err(e) => return Err(e),
        };
        AbsPath::clean_on(vars.drives, expanded.as_str().as_bytes(), input)
    }

    /// For a path a walk produced, which is already absolute and need not be UTF-8.
    ///
    /// # Errors
    ///
    /// If the path is relative or contains a `..` component.
    pub fn from_absolute(path: &[u8]) -> (out: Result<AbsPath, PathError>)
        ensures
            match out {
                Ok(abs) => cleaned(path@, octets::lossy(path@)) == Ok::<Seq<Seq<u8>>, PathFault>(abs@),
                Err(e) => cleaned(path@, octets::lossy(path@)) == Err::<Seq<Seq<u8>>, PathFault>(e@),
            },
    {
        let shown = lossy_text(path);
        AbsPath::clean(path, &shown)
    }

    /// [`AbsPath::from_absolute`] on a host whose paths begin with a drive, or on one whose
    /// paths do not.
    ///
    /// # Errors
    ///
    /// As [`AbsPath::from_absolute`].
    pub fn from_absolute_on(drives: bool, path: &[u8]) -> (out: Result<AbsPath, PathError>)
        ensures
            match out {
                Ok(abs) => cleaned_on(drives, path@, octets::lossy(path@)) == Ok::<
                    Seq<Seq<u8>>,
                    PathFault,
                >(abs@),
                Err(e) => cleaned_on(drives, path@, octets::lossy(path@)) == Err::<
                    Seq<Seq<u8>>,
                    PathFault,
                >(e@),
            },
    {
        let shown = lossy_text(path);
        AbsPath::clean_on(drives, path, &shown)
    }

    fn clean_on(drives: bool, path: &[u8], shown: &str) -> (out: Result<AbsPath, PathError>)
        ensures
            match out {
                Ok(abs) => cleaned_on(drives, path@, shown@) == Ok::<Seq<Seq<u8>>, PathFault>(abs@),
                Err(e) => cleaned_on(drives, path@, shown@) == Err::<Seq<Seq<u8>>, PathFault>(e@),
            },
    {
        if !drives {
            return AbsPath::clean(path, shown);
        }
        let slashes = forward_bytes(path);
        if let Some(n) = drive_bytes(&slashes) {
            let len: usize = slashes.len();
            let letter = is_lettered(&slashes);
            let rest: Vec<u8> = if n == len && !letter {
                vec![SLASH]
            } else {
                octets::range(&slashes, n, len)
            };
            assert(rest@ =~= behind_drive(slashes@, n as int));
            let below = match AbsPath::clean(&rest, shown) {
                Ok(below) => below,
                Err(e) => return Err(e),
            };
            let mut drive: Vec<u8> = if letter && 97 <= slashes[0] {
                vec![slashes[0] - 32, COLON]
            } else {
                octets::range(&slashes, 0, n)
            };
            drive.push(SLASH);
            assert(drive@ =~= drive_of(slashes@, n as int));
            let ghost under = below@;
            let mut parts: Vec<Vec<u8>> = vec![drive];
            let mut more = below.parts;
            parts.append(&mut more);
            proof {
                let all = octets::byte_views(parts@);
                assert(all =~= seq![drive_of(slashes@, n as int)] + under);
                assert(all.skip(1) =~= under);
                assert(under == components(rest@));
                lemma_components(rest@);
                lemma_forward(path@);
                lemma_drive_of(slashes@, n as int);
                assert(!rest@.contains(BACKSLASH)) by {
                    if n < len || letter {
                        assert(rest@ =~= forward(path@).skip(n as int));
                    }
                }
                lemma_free_of(rest@, BACKSLASH);
                assert forall|i: int| 1 <= i < all.len() implies !(#[trigger] all[i]).contains(
                    BACKSLASH,
                ) by {
                    assert(all[i] == under[i - 1]);
                }
            }
            return Ok(AbsPath { parts });
        }
        let parts = pieces(&slashes);
        if holds_dot_dot(&parts) {
            return Err(PathError::ParentComponent(shown.to_owned()));
        }
        Err(PathError::Relative(shown.to_owned()))
    }

    fn clean(path: &[u8], shown: &str) -> (out: Result<AbsPath, PathError>)
        ensures
            match out {
                Ok(abs) => cleaned(path@, shown@) == Ok::<Seq<Seq<u8>>, PathFault>(abs@),
                Err(e) => cleaned(path@, shown@) == Err::<Seq<Seq<u8>>, PathFault>(e@),
            },
    {
        let parts = pieces(path);
        if holds_dot_dot(&parts) {
            return Err(PathError::ParentComponent(shown.to_owned()));
        }
        if path.len() == 0 || path[0] != SLASH {
            return Err(PathError::Relative(shown.to_owned()));
        }
        proof {
            lemma_components(path@);
            lemma_no_drive(components(path@));
        }
        Ok(AbsPath { parts })
    }

    /// Whether the path begins with a drive.
    pub fn on_drive(&self) -> (out: bool)
        ensures
            out == has_drive(self@),
    {
        if self.parts.len() == 0 {
            return false;
        }
        proof {
            use_type_invariant(self);
            assert(self@[0] == self.parts@[0]@);
            if !has_drive(self@) {
                assert(is_component(self@[0]));
            }
        }
        let first = &self.parts[0];
        let n: usize = first.len();
        n > 0 && first[n - 1] == SLASH
    }

    /// What the path's host puts between two components.
    pub fn separator(&self) -> (out: u8)
        ensures
            out == separator(self@),
    {
        if self.on_drive() {
            BACKSLASH
        } else {
            SLASH
        }
    }

    /// The path as bytes, with slashes whatever its host writes.
    pub fn slashed(&self) -> (out: Vec<u8>)
        ensures
            out@ == slashed(self@),
    {
        let slash: Vec<u8> = vec![SLASH];
        assert(slash@ =~= seq![SLASH]);
        if self.on_drive() {
            let n: usize = self.parts.len();
            let mut rest: Vec<Vec<u8>> = Vec::new();
            let mut i: usize = 1;
            while i < n
                invariant
                    1 <= i <= n == self.parts@.len(),
                    octets::byte_views(rest@) == self@.skip(1).take(i - 1),
                decreases n - i,
            {
                let ghost before = octets::byte_views(rest@);
                rest.push(copy_bytes(&self.parts[i]));
                i += 1;
                assert(octets::byte_views(rest@) =~= before.push(self@[i - 1]));
                assert(octets::byte_views(rest@) =~= self@.skip(1).take(i - 1));
            }
            assert(self@.skip(1).take(n - 1) =~= self@.skip(1));
            assert(self@[0] == self.parts@[0]@);
            let mut out: Vec<u8> = copy_bytes(&self.parts[0]);
            let ghost head = out@;
            let body = join_bytes(&rest, &slash);
            crate::octets::extend(&mut out, &body);
            assert(head =~= self@[0].drop_last() + seq![SLASH]);
            assert(out@ =~= self@[0].drop_last() + (seq![SLASH] + body@));
            return out;
        }
        let mut out: Vec<u8> = vec![SLASH];
        assert(out@ =~= seq![SLASH]);
        let body = join_bytes(&self.parts, &slash);
        crate::octets::extend(&mut out, &body);
        out
    }

    /// The path as bytes.
    #[must_use]
    pub fn as_path(&self) -> (out: Vec<u8>)
        ensures
            out@ == written(self@),
    {
        let out = self.slashed();
        if self.on_drive() {
            backward_bytes(&out)
        } else {
            out
        }
    }

    /// The path as bytes, by value.
    #[must_use]
    pub fn into_path_buf(self) -> (out: Vec<u8>)
        ensures
            out@ == written(self@),
    {
        self.as_path()
    }

    /// The path as text.
    #[must_use]
    pub fn text(&self) -> (out: String)
        ensures
            out@ == octets::lossy(written(self@)),
    {
        lossy_text(&self.as_path())
    }

    /// How many components the path has.
    pub fn depth(&self) -> (out: usize)
        ensures
            out == self@.len(),
    {
        self.parts.len()
    }

    /// The components.
    pub fn parts(&self) -> (out: &Vec<Vec<u8>>)
        ensures
            octets::byte_views(out@) == self@,
            absolute_parts(self@),
    {
        proof {
            use_type_invariant(self);
        }
        &self.parts
    }

    /// Whether `other` is this path or lies beneath it. Compares components, so
    /// `/a` does not contain `/ab`.
    #[must_use]
    pub fn contains(&self, other: &AbsPath) -> (out: bool)
        ensures
            out == holds_path(self@, other@),
    {
        if self.parts.len() > other.parts.len() {
            return false;
        }
        let out = same_parts(&self.parts, &other.parts, self.parts.len());
        assert(octets::byte_views(self.parts@).take(self.parts@.len() as int) =~= self@);
        out
    }

    /// The first `n` components.
    pub fn ancestor(&self, n: usize) -> (out: AbsPath)
        requires
            n <= self@.len(),
        ensures
            out@ == self@.take(n as int),
    {
        proof {
            use_type_invariant(self);
        }
        let parts = copy_parts(&self.parts, n);
        proof {
            lemma_ancestor(self@, n as int);
        }
        AbsPath { parts }
    }

    /// A name directly beneath this path.
    pub fn join(&self, name: &[u8]) -> (out: AbsPath)
        requires
            is_component(name@),
            !name@.contains(BACKSLASH),
        ensures
            out@ == self@.push(name@),
    {
        proof {
            use_type_invariant(self);
        }
        let mut parts = copy_parts(&self.parts, self.parts.len());
        let ghost before = octets::byte_views(parts@);
        assert(before =~= self@);
        parts.push(copy_bytes(name));
        assert(octets::byte_views(parts@) =~= before.push(name@));
        proof {
            lemma_child(before, name@);
        }
        AbsPath { parts }
    }

    /// Whether both name the same path.
    pub fn same(&self, other: &AbsPath) -> (out: bool)
        ensures
            out == (self@ == other@),
    {
        if self.parts.len() != other.parts.len() {
            return false;
        }
        let n: usize = self.parts.len();
        let out = same_parts(&self.parts, &other.parts, n);
        assert(octets::byte_views(self.parts@).take(n as int) =~= self@);
        assert(octets::byte_views(other.parts@).take(n as int) =~= other@);
        out
    }
}

/// Whether `inner` is `outer` or lies beneath it.
pub open spec fn holds_path(outer: Seq<Seq<u8>>, inner: Seq<Seq<u8>>) -> bool {
    outer.len() <= inner.len() && inner.take(outer.len() as int) == outer
}

// ---------------------------------------------------------------------------
// Tree paths
// ---------------------------------------------------------------------------

/// A path inside the store's tree: relative, separated by `/`, with no `.git`
/// component. Such a path is never written into the tree "asserted rather than assumed", so
/// the assertion lives in this constructor and nowhere else.
#[derive(Debug, PartialEq, Eq, PartialOrd, Ord, Hash)]
pub struct TreePath {
    parts: Vec<Vec<u8>>,
}

#[derive(Debug, PartialEq, Eq)]
pub enum TreePathError {
    Empty,
    Absolute(String),
    DotComponent(String),
    GitComponent(String),
}

/// `.git` in any mixture of capitals and small letters.
pub open spec fn is_git_name(part: Seq<u8>) -> bool {
    &&& part.len() == 4
    &&& part[0] == 46
    &&& (part[1] == 71 || part[1] == 103)
    &&& (part[2] == 73 || part[2] == 105)
    &&& (part[3] == 84 || part[3] == 116)
}

pub open spec fn any_git(parts: Seq<Seq<u8>>) -> bool {
    exists|i: int| 0 <= i < parts.len() && is_git_name(#[trigger] parts[i])
}

/// Whether a path holds a `.` component, wherever it stands.
pub open spec fn any_dot(raw: Seq<u8>) -> bool {
    text::split(raw, SLASH).contains(seq![46u8])
}

pub open spec fn is_tree_path(raw: Seq<u8>) -> bool {
    &&& raw.len() > 0
    &&& !starts_at_root(raw)
    &&& !any_git(components(raw))
    &&& !any_dot(raw)
    &&& !components(raw).contains(dot_dot())
    &&& components(raw).len() > 0
}

/// What is said of a path that is no tree path: the first of the rules that it breaks.
pub open spec fn tree_fault(raw: Seq<u8>) -> Seq<char> {
    let shown = octets::lossy(raw);
    if raw.len() == 0 {
        "a tree path cannot be empty"@
    } else if starts_at_root(raw) {
        "'"@ + shown + "' is absolute; a tree path is relative to the tree root"@
    } else if any_git(components(raw)) {
        "'"@ + shown + "' contains a '.git' component, which must never reach the tree"@
    } else if any_dot(raw) || components(raw).contains(dot_dot()) {
        "'"@ + shown + "' contains a '.' or '..' component"@
    } else {
        "a tree path cannot be empty"@
    }
}

/// The error a path is refused with says what is wrong with it, and a path that is refused is
/// no tree path.
pub proof fn lemma_tree_fault(raw: Seq<u8>, e: TreePathError)
    requires
        e.refuses(raw),
    ensures
        e.message() == tree_fault(raw),
        !is_tree_path(raw),
{
    reveal_strlit(".git");
    if raw.len() > 0 && !starts_at_root(raw) && components(raw).len() == 0 {
        assert(!any_git(components(raw)));
        assert(!components(raw).contains(dot_dot()));
    }
}

impl TreePathError {
    /// Whether this is what is wrong with a path: the first of the rules that it breaks.
    pub open spec fn refuses(self, raw: Seq<u8>) -> bool {
        match self {
            TreePathError::Empty => {
                ||| raw.len() == 0
                ||| {
                    &&& !starts_at_root(raw)
                    &&& !any_dot(raw)
                    &&& components(raw).len() == 0
                }
            },
            TreePathError::Absolute(shown) => starts_at_root(raw) && shown@ == octets::lossy(raw),
            TreePathError::GitComponent(shown) => {
                &&& raw.len() > 0
                &&& !starts_at_root(raw)
                &&& any_git(components(raw))
                &&& shown@ == octets::lossy(raw)
            },
            TreePathError::DotComponent(shown) => {
                &&& raw.len() > 0
                &&& !starts_at_root(raw)
                &&& !any_git(components(raw))
                &&& (any_dot(raw) || components(raw).contains(dot_dot()))
                &&& shown@ == octets::lossy(raw)
            },
        }
    }

    pub open spec fn message(self) -> Seq<char> {
        match self {
            TreePathError::Empty => "a tree path cannot be empty"@,
            TreePathError::Absolute(s) => "'"@ + s@
                + "' is absolute; a tree path is relative to the tree root"@,
            TreePathError::DotComponent(s) => "'"@ + s@ + "' contains a '.' or '..' component"@,
            TreePathError::GitComponent(s) => "'"@ + s@
                + "' contains a '.git' component, which must never reach the tree"@,
        }
    }

    pub fn text(&self) -> (out: String)
        ensures
            out@ == self.message(),
    {
        match self {
            TreePathError::Empty => "a tree path cannot be empty".to_owned(),
            TreePathError::Absolute(s) => cat3(
                "'",
                s,
                "' is absolute; a tree path is relative to the tree root",
            ),
            TreePathError::DotComponent(s) => cat3("'", s, "' contains a '.' or '..' component"),
            TreePathError::GitComponent(s) => cat3(
                "'",
                s,
                "' contains a '.git' component, which must never reach the tree",
            ),
        }
    }
}

pub(crate) fn holds_git(parts: &[Vec<u8>]) -> (out: bool)
    ensures
        out == any_git(octets::byte_views(parts@)),
{
    let mut i: usize = 0;
    while i < parts.len()
        invariant
            i <= parts@.len(),
            forall|j: int| 0 <= j < i ==> !is_git_name(#[trigger] octets::byte_views(parts@)[j]),
        decreases parts@.len() - i,
    {
        let p = &parts[i];
        assert(octets::byte_views(parts@)[i as int] == p@);
        if p.len() == 4 && p[0] == 46 && (p[1] == 71 || p[1] == 103) && (p[2] == 73 || p[2] == 105)
            && (p[3] == 84 || p[3] == 116) {
            return true;
        }
        i += 1;
    }
    false
}

fn holds_dot(raw: &[u8]) -> (out: bool)
    ensures
        out == any_dot(raw@),
{
    let parts = split_bytes(raw, SLASH);
    let ghost all = text::split(raw@, SLASH);
    let mut i: usize = 0;
    while i < parts.len()
        invariant
            i <= parts@.len(),
            octets::byte_views(parts@) == all,
            all == text::split(raw@, SLASH),
            forall|j: int| 0 <= j < i ==> #[trigger] all[j] != seq![46u8],
        decreases parts@.len() - i,
    {
        let part = &parts[i];
        assert(all[i as int] == part@);
        if part.len() == 1 && part[0] == 46 {
            assert(part@ =~= seq![46u8]);
            return true;
        }
        i += 1;
    }
    false
}

impl View for TreePath {
    type V = Seq<Seq<u8>>;

    closed spec fn view(&self) -> Seq<Seq<u8>> {
        octets::byte_views(self.parts@)
    }
}

impl Clone for TreePath {
    fn clone(&self) -> (out: Self)
        ensures
            out@ == self@,
    {
        proof {
            use_type_invariant(self);
        }
        let parts = copy_parts(&self.parts, self.parts.len());
        assert(octets::byte_views(self.parts@).take(self.parts@.len() as int) =~= octets::byte_views(self.parts@));
        TreePath { parts }
    }
}

/// What a tree path is made of.
pub open spec fn tree_parts(parts: Seq<Seq<u8>>) -> bool {
    parts.len() > 0 && all_components(parts) && !any_git(parts)
}

impl TreePath {
    #[verifier::type_invariant]
    closed spec fn valid(self) -> bool {
        tree_parts(octets::byte_views(self.parts@))
    }

    /// # Errors
    ///
    /// If the path is empty, absolute, contains `.` or `..`, or contains a `.git`
    /// component in any case.
    pub fn parse(path: &[u8]) -> (out: Result<TreePath, TreePathError>)
        ensures
            match out {
                Ok(tree) => is_tree_path(path@) && tree@ == components(path@),
                Err(e) => e.refuses(path@),
            },
    {
        if path.len() == 0 {
            return Err(TreePathError::Empty);
        }
        if path[0] == SLASH {
            return Err(TreePathError::Absolute(lossy_text(path)));
        }
        let parts = pieces(path);
        if holds_git(&parts) {
            return Err(TreePathError::GitComponent(lossy_text(path)));
        }
        if holds_dot(path) || holds_dot_dot(&parts) {
            return Err(TreePathError::DotComponent(lossy_text(path)));
        }
        if parts.len() == 0 {
            return Err(TreePathError::Empty);
        }
        proof {
            lemma_components(path@);
        }
        Ok(TreePath { parts })
    }

    /// The path as git writes it: its components with `/` between them, never rewriting a
    /// byte inside one.
    #[must_use]
    pub fn as_path(&self) -> (out: Vec<u8>)
        ensures
            out@ == text::join(self@, seq![SLASH]),
    {
        let slash: Vec<u8> = vec![SLASH];
        assert(slash@ =~= seq![SLASH]);
        join_bytes(&self.parts, &slash)
    }

    /// The path as text.
    #[must_use]
    pub fn text(&self) -> (out: String)
        ensures
            out@ == octets::lossy(text::join(self@, seq![SLASH])),
    {
        lossy_text(&self.as_path())
    }

    /// The components.
    pub fn parts(&self) -> (out: &Vec<Vec<u8>>)
        ensures
            octets::byte_views(out@) == self@,
            tree_parts(self@),
    {
        proof {
            use_type_invariant(self);
        }
        &self.parts
    }
}

/// Whether any component is a `.git` marker, which must never reach the store tree.
#[must_use]
pub fn has_git_component(path: &[u8]) -> (out: bool)
    ensures
        out == any_git(components(path@)),
{
    holds_git(&pieces(path))
}

// ---------------------------------------------------------------------------
// Laws
// ---------------------------------------------------------------------------

/// Splitting pieces that hold no separator gives back the pieces that were joined.
pub proof fn lemma_split_join<T>(parts: Seq<Seq<T>>, sep: T)
    requires
        parts.len() > 0,
        forall|i: int| 0 <= i < parts.len() ==> !(#[trigger] parts[i]).contains(sep),
    ensures
        text::split(text::join(parts, seq![sep]), sep) == parts,
    decreases parts.len(),
{
    let head = parts[0];
    if parts.len() == 1 {
        let whole = text::join(parts, seq![sep]);
        assert(whole == head);
        assert forall|i: int| 0 <= i < head.len() implies head[i] != sep by {
            if head[i] == sep {
                assert(head.contains(sep));
            }
        }
        text::lemma_position(head, sep, head.len() as int);
        assert(parts =~= seq![head]);
    } else {
        let rest = parts.skip(1);
        assert(parts =~= seq![head] + rest);
        crate::text::lemma_join_prepend(head, rest, seq![sep]);
        let whole = text::join(parts, seq![sep]);
        let tail = text::join(rest, seq![sep]);
        assert forall|i: int| 0 <= i < rest.len() implies !(#[trigger] rest[i]).contains(sep) by {
            assert(rest[i] == parts[i + 1]);
        }
        lemma_split_join(rest, sep);
        assert forall|i: int| 0 <= i < head.len() implies whole[i] != sep by {
            assert(whole[i] == head[i]);
            if head[i] == sep {
                assert(head.contains(sep));
            }
        }
        assert(whole[head.len() as int] == sep);
        text::lemma_position(whole, sep, head.len() as int);
        assert(whole.take(head.len() as int) =~= head);
        assert(whole.skip(head.len() as int + 1) =~= tail);
    }
}

pub proof fn lemma_named_keeps(parts: Seq<Seq<u8>>)
    requires
        all_components(parts),
    ensures
        named(parts) == parts,
    decreases parts.len(),
{
    if parts.len() > 0 {
        assert forall|i: int| 0 <= i < parts.drop_last().len() implies is_component(
            #[trigger] parts.drop_last()[i],
        ) by {
            assert(parts.drop_last()[i] == parts[i]);
        }
        lemma_named_keeps(parts.drop_last());
        assert(is_component(parts.last()));
        assert(parts.drop_last().push(parts.last()) =~= parts);
    }
}

pub proof fn lemma_named_add(a: Seq<Seq<u8>>, b: Seq<Seq<u8>>)
    ensures
        named(a + b) == named(a) + named(b),
    decreases b.len(),
{
    if b.len() == 0 {
        assert(a + b =~= a);
        assert(named(a) + named(b) =~= named(a));
    } else {
        lemma_named_add(a, b.drop_last());
        assert((a + b).drop_last() =~= a + b.drop_last());
        assert((a + b).last() == b.last());
        assert(named(a) + named(b.drop_last()).push(b.last()) =~= (named(a) + named(
            b.drop_last(),
        )).push(b.last()));
    }
}

/// Splitting around one more separator splits what stands on either side of it.
pub proof fn lemma_split_around<T>(a: Seq<T>, sep: T, b: Seq<T>)
    ensures
        text::split(a + seq![sep] + b, sep) == text::split(a, sep) + text::split(b, sep),
    decreases a.len(),
{
    text::lemma_position_bounds(a, sep);
    let whole = a + seq![sep] + b;
    let at = text::position(a, sep);
    assert forall|i: int| 0 <= i < at implies whole[i] != sep by {
        assert(whole[i] == a[i]);
    }
    assert(whole[at] == sep);
    text::lemma_position(whole, sep, at);
    assert(whole.take(at) =~= a.take(at));
    if at < a.len() {
        let rest = a.skip(at + 1);
        assert(whole.skip(at + 1) =~= rest + seq![sep] + b);
        lemma_split_around(rest, sep, b);
        assert(seq![a.take(at)] + (text::split(rest, sep) + text::split(b, sep)) =~= (seq![a.take(at)] + text::split(
            rest,
            sep,
        )) + text::split(b, sep));
    } else {
        assert(whole.skip(at + 1) =~= b);
        assert(a.take(at) =~= a);
    }
}

/// Components that are written out from the root clean to themselves.
proof fn lemma_rooted(parts: Seq<Seq<u8>>, shown: Seq<char>)
    requires
        all_components(parts),
    ensures
        cleaned(rooted(parts), shown) == Ok::<Seq<Seq<u8>>, PathFault>(parts),
{
    let raw = rooted(parts);
    let body = text::join(parts, seq![SLASH]);
    assert(raw[0] == SLASH);
    text::lemma_position(raw, SLASH, 0);
    assert(raw.take(0) =~= Seq::<u8>::empty());
    assert(raw.skip(1) =~= body);
    assert(text::split(raw, SLASH) == seq![Seq::<u8>::empty()] + text::split(body, SLASH));
    let first = seq![Seq::<u8>::empty()];
    lemma_named_add(first, text::split(body, SLASH));
    assert(first.drop_last() =~= Seq::<Seq<u8>>::empty());
    assert(first.last() =~= Seq::<u8>::empty());
    assert(!names_something(first.last()));
    assert(named(Seq::<Seq<u8>>::empty()) =~= Seq::<Seq<u8>>::empty());
    assert(named(first) =~= Seq::<Seq<u8>>::empty());
    if parts.len() == 0 {
        text::lemma_position(body, SLASH, 0);
        assert(text::split(body, SLASH) =~= seq![body]);
        assert(seq![body].drop_last() =~= Seq::<Seq<u8>>::empty());
        assert(named(seq![body]) =~= Seq::<Seq<u8>>::empty());
    } else {
        assert forall|i: int| 0 <= i < parts.len() implies !(#[trigger] parts[i]).contains(
            SLASH,
        ) by {
            assert(is_component(parts[i]));
        }
        lemma_split_join(parts, SLASH);
        lemma_named_keeps(parts);
    }
    assert(components(raw) =~= parts);
    if components(raw).contains(dot_dot()) {
        let i = choose|i: int| 0 <= i < parts.len() && parts[i] == dot_dot();
        assert(is_component(parts[i]));
    }
}

/// What is written out of a path with a drive is read as its slashes.
proof fn lemma_drive_written(parts: Seq<Seq<u8>>)
    requires
        has_drive(parts),
        absolute_parts(parts),
    ensures
        forward(written(parts)) == slashed(parts),
{
    let tail = parts.skip(1);
    assert forall|i: int| 0 <= i < tail.len() implies !(#[trigger] tail[i]).contains(BACKSLASH) by {
        assert(tail[i] == parts[i + 1]);
    }
    lemma_join_free(tail, BACKSLASH);
    let whole = slashed(parts);
    let drive = parts[0];
    let n = drive.len() as int;
    let body = text::join(tail, seq![SLASH]);
    assert(whole =~= drive + body);
    assert forall|i: int| 0 <= i < whole.len() implies #[trigger] whole[i] != BACKSLASH by {
        if i >= n {
            if body[i - n] == BACKSLASH {
                assert(body.contains(BACKSLASH));
            }
        } else {
            assert(drive.contains(drive[i]));
        }
    }
    assert(forward(backward(whole)) =~= whole);
}

proof fn lemma_join_free(parts: Seq<Seq<u8>>, byte: u8)
    requires
        byte != SLASH,
        forall|i: int| 0 <= i < parts.len() ==> !(#[trigger] parts[i]).contains(byte),
    ensures
        !text::join(parts, seq![SLASH]).contains(byte),
    decreases parts.len(),
{
    let whole = text::join(parts, seq![SLASH]);
    if parts.len() == 1 {
        assert(whole == parts[0]);
    } else if parts.len() > 1 {
        let head = parts[0];
        let rest = parts.skip(1);
        assert(parts =~= seq![head] + rest);
        crate::text::lemma_join_prepend(head, rest, seq![SLASH]);
        assert forall|i: int| 0 <= i < rest.len() implies !(#[trigger] rest[i]).contains(byte) by {
            assert(rest[i] == parts[i + 1]);
        }
        lemma_join_free(rest, byte);
        let tail = text::join(rest, seq![SLASH]);
        if whole.contains(byte) {
            let i = choose|i: int| 0 <= i < whole.len() && whole[i] == byte;
            if i < head.len() {
                assert(head[i] == byte);
            } else if i > head.len() {
                assert(tail[i - head.len() - 1] == byte);
            }
        }
    }
}

/// A cleaned path cleans to itself: writing one out and reading it back on its host changes
/// nothing.
pub proof fn cleaning_is_idempotent(parts: Seq<Seq<u8>>, shown: Seq<char>)
    requires
        absolute_parts(parts),
    ensures
        cleaned_on(has_drive(parts), written(parts), shown) == Ok::<Seq<Seq<u8>>, PathFault>(parts),
{
    if has_drive(parts) {
        lemma_drive_written(parts);
        lemma_rooted(parts.skip(1), shown);
        lemma_drive_reads_back(parts[0], rooted(parts.skip(1)));
        assert(seq![parts[0]] + parts.skip(1) =~= parts);
    } else {
        lemma_rooted(parts, shown);
    }
}

/// The components of a path written beneath another are those of the one behind those of the
/// other.
pub proof fn lemma_components_beneath(base: Seq<Seq<u8>>, rest: Seq<u8>, shown: Seq<char>)
    requires
        absolute_parts(base),
    ensures
        cleaned_on(has_drive(base), written(base) + seq![separator(base)] + rest, shown) == if components_under(
            base,
            rest,
        ).contains(dot_dot()) {
            Err::<Seq<Seq<u8>>, PathFault>(PathFault::ParentComponent(shown))
        } else {
            Ok::<Seq<Seq<u8>>, PathFault>(base + components_under(base, rest))
        },
{
    let raw = written(base) + seq![separator(base)] + rest;
    if has_drive(base) {
        lemma_drive_written(base);
        let tail = base.skip(1);
        lemma_rooted_beneath(tail, forward(rest), shown);
        assert(forward(raw) =~= slashed(base) + seq![SLASH] + forward(rest));
        let below = rooted(tail) + seq![SLASH] + forward(rest);
        assert(forward(raw) =~= base[0].drop_last() + below);
        lemma_drive_reads_back(base[0], below);
        assert(seq![base[0]] + (tail + components(forward(rest))) =~= base + components(
            forward(rest),
        ));
    } else {
        lemma_rooted_beneath(base, rest, shown);
    }
}

proof fn lemma_rooted_beneath(base: Seq<Seq<u8>>, rest: Seq<u8>, shown: Seq<char>)
    requires
        all_components(base),
    ensures
        cleaned(rooted(base) + seq![SLASH] + rest, shown) == if components(rest).contains(dot_dot()) {
            Err::<Seq<Seq<u8>>, PathFault>(PathFault::ParentComponent(shown))
        } else {
            Ok::<Seq<Seq<u8>>, PathFault>(base + components(rest))
        },
{
    let raw = rooted(base) + seq![SLASH] + rest;
    lemma_split_around(rooted(base), SLASH, rest);
    lemma_named_add(text::split(rooted(base), SLASH), text::split(rest, SLASH));
    lemma_rooted(base, shown);
    assert(components(raw) == base + components(rest));
    assert(raw[0] == rooted(base)[0]);
    let below = components(rest);
    if below.contains(dot_dot()) {
        let i = choose|i: int| 0 <= i < below.len() && below[i] == dot_dot();
        assert(components(raw)[base.len() + i] == dot_dot());
    }
    if components(raw).contains(dot_dot()) {
        let i = choose|i: int| 0 <= i < components(raw).len() && components(raw)[i] == dot_dot();
        if i < base.len() {
            assert(is_component(base[i]));
        } else {
            assert(below[i - base.len()] == dot_dot());
        }
    }
}

/// Only a path without a drive is written with a slash first.
proof fn lemma_first_byte(parts: Seq<Seq<u8>>)
    requires
        absolute_parts(parts),
    ensures
        written(parts).len() > 0,
        (written(parts)[0] == SLASH) == !has_drive(parts),
{
    if has_drive(parts) {
        assert(written(parts).len() == slashed(parts).len());
        assert(written(parts)[0] != SLASH);
    }
}

/// Two paths that are written alike are the same path.
pub proof fn written_is_injective(a: Seq<Seq<u8>>, b: Seq<Seq<u8>>)
    requires
        absolute_parts(a),
        absolute_parts(b),
        written(a) == written(b),
    ensures
        a == b,
{
    cleaning_is_idempotent(a, Seq::empty());
    cleaning_is_idempotent(b, Seq::empty());
    lemma_first_byte(a);
    lemma_first_byte(b);
}

/// Containment is an order: every path contains itself, two that contain each other are one,
/// and what is inside an inner path is inside the outer one.
pub proof fn containment_is_an_order(a: Seq<Seq<u8>>, b: Seq<Seq<u8>>, c: Seq<Seq<u8>>)
    ensures
        holds_path(a, a),
        holds_path(a, b) && holds_path(b, a) ==> a == b,
        holds_path(a, b) && holds_path(b, c) ==> holds_path(a, c),
{
    assert(a.take(a.len() as int) =~= a);
    if holds_path(a, b) && holds_path(b, a) {
        assert(b.take(a.len() as int) =~= b);
    }
    if holds_path(a, b) && holds_path(b, c) {
        assert(c.take(a.len() as int) =~= c.take(b.len() as int).take(a.len() as int));
    }
}

/// Two paths that both contain a third are nested one in the other.
pub proof fn containers_are_nested(a: Seq<Seq<u8>>, b: Seq<Seq<u8>>, c: Seq<Seq<u8>>)
    requires
        holds_path(a, c),
        holds_path(b, c),
    ensures
        holds_path(a, b) || holds_path(b, a),
{
    if a.len() <= b.len() {
        assert(b.take(a.len() as int) =~= c.take(b.len() as int).take(a.len() as int));
        assert(c.take(b.len() as int).take(a.len() as int) =~= c.take(a.len() as int));
    } else {
        assert(a.take(b.len() as int) =~= c.take(a.len() as int).take(b.len() as int));
        assert(c.take(a.len() as int).take(b.len() as int) =~= c.take(b.len() as int));
    }
}

/// A variable outside the two is never expanded, and an unset or empty one never becomes an
/// empty string: a value that was resolved had neither.
pub proof fn only_set_variables_expand(whole: Seq<char>, rest: Seq<char>, vars: Vars)
    requires
        vars_expanded(whole, rest, vars) is Ok,
        text::position(rest, '$') < rest.len(),
        0 <= text::position(rest, '$'),
    ensures
        variable(rest.skip(text::position(rest, '$') + 1)) is Some,
        ({
            let (name, tail) = variable(rest.skip(text::position(rest, '$') + 1)).unwrap();
            allowed(name) && lookup(name, vars) is Some && lookup(name, vars)->0.len() > 0
        }),
{
}

/// Dictionary order, component by component.
pub open spec fn path_less(a: Seq<Seq<u8>>, b: Seq<Seq<u8>>) -> bool
    decreases a.len(),
{
    if b.len() == 0 {
        false
    } else if a.len() == 0 {
        true
    } else if a[0] == b[0] {
        path_less(a.skip(1), b.skip(1))
    } else {
        octets::bytes_less(a[0], b[0])
    }
}

pub proof fn lemma_path_transitive(a: Seq<Seq<u8>>, b: Seq<Seq<u8>>, c: Seq<Seq<u8>>)
    requires
        path_less(a, b),
        path_less(b, c),
    ensures
        path_less(a, c),
    decreases a.len(),
{
    if a.len() > 0 {
        if a[0] == b[0] && b[0] == c[0] {
            lemma_path_transitive(a.skip(1), b.skip(1), c.skip(1));
        } else if a[0] != b[0] && b[0] != c[0] {
            octets::lemma_bytes_transitive(a[0], b[0], c[0]);
            octets::lemma_bytes_irreflexive(a[0]);
            if a[0] == c[0] {
                octets::lemma_bytes_irreflexive(a[0]);
            }
        }
    }
}

pub proof fn lemma_path_irreflexive(a: Seq<Seq<u8>>)
    ensures
        !path_less(a, a),
    decreases a.len(),
{
    if a.len() > 0 {
        lemma_path_irreflexive(a.skip(1));
    }
}

pub proof fn lemma_path_total(a: Seq<Seq<u8>>, b: Seq<Seq<u8>>)
    ensures
        a == b || path_less(a, b) || path_less(b, a),
    decreases a.len(),
{
    if a.len() == 0 {
        assert(b.len() == 0 ==> a =~= b);
    } else if b.len() > 0 {
        if a[0] == b[0] {
            lemma_path_total(a.skip(1), b.skip(1));
            if a.skip(1) == b.skip(1) {
                assert(a =~= seq![a[0]] + a.skip(1));
                assert(b =~= seq![b[0]] + b.skip(1));
            }
        } else {
            octets::lemma_bytes_total(a[0], b[0]);
        }
    }
}

impl AbsPath {
    /// Whether this path comes before another, component by component.
    pub fn precedes(&self, other: &AbsPath) -> (out: bool)
        ensures
            out == path_less(self@, other@),
    {
        let a = &self.parts;
        let b = &other.parts;
        let ghost x = octets::byte_views(a@);
        let ghost y = octets::byte_views(b@);
        let mut i: usize = 0;
        assert(x.skip(0) =~= x);
        assert(y.skip(0) =~= y);
        while i < a.len() && i < b.len()
            invariant
                i <= a@.len(),
                i <= b@.len(),
                x == octets::byte_views(a@),
                y == octets::byte_views(b@),
                x == self@,
                y == other@,
                path_less(x, y) == path_less(x.skip(i as int), y.skip(i as int)),
            decreases a@.len() - i,
        {
            assert(x.skip(i as int)[0] == a@[i as int]@);
            assert(y.skip(i as int)[0] == b@[i as int]@);
            if !same_bytes(&a[i], &b[i]) {
                return octets::less(&a[i], &b[i]);
            }
            assert(x.skip(i as int).skip(1) =~= x.skip(i + 1));
            assert(y.skip(i as int).skip(1) =~= y.skip(i + 1));
            i += 1;
        }
        i < b.len()
    }
}

/// To contain a path is to begin as it does: containment goes by whole components.
pub proof fn containing_is_beginning_alike(a: Seq<Seq<u8>>, b: Seq<Seq<u8>>)
    ensures
        holds_path(a, b) == a.is_prefix_of(b),
{
    if a.is_prefix_of(b) {
        assert(b.take(a.len() as int) =~= a);
    }
    if holds_path(a, b) {
        assert(a =~= b.subrange(0, a.len() as int));
    }
}

/// The parts of a relative path, written out with slashes between, are read as those parts, and
/// make a path of the tree exactly where none of them is `.git` in any case.
pub proof fn a_tree_path_reads_back(parts: Seq<Seq<u8>>)
    requires
        parts.len() > 0,
        forall|i: int|
            0 <= i < parts.len() ==> (#[trigger] parts[i]).len() > 0 && !parts[i].contains(SLASH)
                && parts[i] != seq![46u8] && parts[i] != seq![46u8, 46u8],
    ensures
        components(text::join(parts, seq![SLASH])) == parts,
        is_tree_path(text::join(parts, seq![SLASH])) == !(exists|i: int|
            0 <= i < parts.len() && is_git_name(#[trigger] parts[i])),
{
    let raw = text::join(parts, seq![SLASH]);
    lemma_split_join(parts, SLASH);
    assert forall|i: int| 0 <= i < parts.len() implies is_component(#[trigger] parts[i]) by {
        assert(parts[i].len() > 0);
    }
    lemma_named_keeps(parts);
    if parts.contains(seq![46u8]) {
        let i = choose|i: int| 0 <= i < parts.len() && parts[i] == seq![46u8];
        assert(is_component(parts[i]));
    }
    if parts.contains(dot_dot()) {
        let i = choose|i: int| 0 <= i < parts.len() && parts[i] == dot_dot();
        assert(is_component(parts[i]));
    }
    let head = parts[0];
    assert(head.len() > 0);
    if parts.len() == 1 {
        assert(raw == head);
    } else {
        let rest = parts.skip(1);
        assert(parts =~= seq![head] + rest);
        text::lemma_join_prepend(head, rest, seq![SLASH]);
    }
    assert(raw[0] == head[0]);
    if head[0] == SLASH {
        assert(head.contains(SLASH));
    }
}

/// What is refused of the tree: nothing at all, what is absolute, and what has a `.`, a `..` or a
/// `.git` in any case between its slashes. A path of the tree names something.
pub proof fn a_tree_path_is_plain(raw: Seq<u8>)
    ensures
        raw.len() == 0 ==> !is_tree_path(raw),
        raw.len() > 0 && raw[0] == SLASH ==> !is_tree_path(raw),
        forall|i: int|
            0 <= i < text::split(raw, SLASH).len() && {
                let part = #[trigger] text::split(raw, SLASH)[i];
                part == seq![46u8] || part == seq![46u8, 46u8] || is_git_name(part)
            } ==> !is_tree_path(raw),
{
    let all = text::split(raw, SLASH);
    assert forall|i: int|
        0 <= i < all.len() && {
            let part = #[trigger] all[i];
            part == seq![46u8] || part == seq![46u8, 46u8] || is_git_name(part)
        } implies !is_tree_path(raw) by {
        let part = all[i];
        if part == seq![46u8] {
            assert(all.contains(part));
        } else {
            assert(part.len() >= 2);
            assert(names_something(part));
            lemma_named_has(all, i);
            let k = choose|k: int| 0 <= k < named(all).len() && named(all)[k] == part;
            assert(components(raw)[k] == part);
            if part == seq![46u8, 46u8] {
                assert(components(raw).contains(dot_dot()));
            }
        }
    }
}

proof fn lemma_named_has(pieces: Seq<Seq<u8>>, i: int)
    requires
        0 <= i < pieces.len(),
        names_something(pieces[i]),
    ensures
        named(pieces).contains(pieces[i]),
    decreases pieces.len(),
{
    if i == pieces.len() - 1 {
        let all = named(pieces);
        assert(all[all.len() - 1] == pieces[i]);
    } else {
        lemma_named_has(pieces.drop_last(), i);
        assert(pieces.drop_last()[i] == pieces[i]);
        let k = choose|k: int|
            0 <= k < named(pieces.drop_last()).len() && named(pieces.drop_last())[k] == pieces[i];
        assert(named(pieces)[k] == pieces[i]);
    }
}

/// A path that is read keeps what it names in order: the empty pieces and the dots between its
/// slashes are dropped, and nothing else is.
pub proof fn cleaning_drops_only_what_names_nothing(raw: Seq<u8>, shown: Seq<char>)
    ensures
        cleaned(raw, shown) is Ok == (raw.len() > 0 && raw[0] == SLASH && !text::split(
            raw,
            SLASH,
        ).contains(seq![46u8, 46u8])),
        cleaned(raw, shown) matches Ok(parts) ==> parts == text::split(raw, SLASH).filter(
            |piece: Seq<u8>| piece.len() > 0 && piece != seq![46u8],
        ),
{
    let all = text::split(raw, SLASH);
    lemma_named_filters(all);
    if all.contains(dot_dot()) {
        let i = choose|i: int| 0 <= i < all.len() && all[i] == dot_dot();
        assert(dot_dot().len() == 2 && seq![46u8].len() == 1);
        lemma_named_has(all, i);
    }
    if components(raw).contains(dot_dot()) {
        let keeps = |piece: Seq<u8>| piece.len() > 0 && piece != seq![46u8];
        all.lemma_filter_contains_rev(keeps, dot_dot());
    }
}

proof fn lemma_named_filters(pieces: Seq<Seq<u8>>)
    ensures
        named(pieces) == pieces.filter(
            |piece: Seq<u8>| piece.len() > 0 && piece != seq![46u8],
        ),
    decreases pieces.len(),
{
    reveal(Seq::filter);
    if pieces.len() > 0 {
        lemma_named_filters(pieces.drop_last());
    }
}

/// A split leaves no separator in any part, and joining the parts again gives back the whole.
pub proof fn a_split_parts_at_every_separator<T>(s: Seq<T>, sep: T)
    ensures
        text::join(text::split(s, sep), seq![sep]) == s,
        forall|i: int|
            0 <= i < text::split(s, sep).len() ==> !(#[trigger] text::split(s, sep)[i]).contains(
                sep,
            ),
{
    text::lemma_join_split(s, sep);
    lemma_split_free(s, sep);
}

/// A tilde at the start, alone or before a slash, is the home directory; before a name it is
/// refused, and anywhere else it is itself.
pub proof fn a_tilde_is_the_home_directory(rest: Seq<char>, home: Seq<char>, input: Seq<char>)
    ensures
        rest.len() == 0 || rest[0] == '/' ==> home_expanded(seq!['~'] + rest, Some(home)) == Ok::<
            Seq<char>,
            PathFault,
        >(home + rest),
        rest.len() == 0 || rest[0] == '/' ==> home_expanded(seq!['~'] + rest, None) is Err,
        rest.len() > 0 && rest[0] != '/' ==> home_expanded(seq!['~'] + rest, Some(home)) is Err,
        input.len() == 0 || input[0] != '~' ==> home_expanded(input, Some(home)) == Ok::<
            Seq<char>,
            PathFault,
        >(input) && home_expanded(input, None) == Ok::<Seq<char>, PathFault>(input),
{
    let whole = seq!['~'] + rest;
    assert(whole.skip(1) =~= rest);
    assert(whole[0] == '~');
}

/// A variable, bare or in braces, is its value where it is one of the two and has one; a text
/// without a `$` is left alone.
pub proof fn a_variable_is_its_value(
    whole: Seq<char>,
    before: Seq<char>,
    rest: Seq<char>,
    vars: Vars,
    value: Seq<char>,
)
    requires
        !before.contains('$'),
        vars.home matches Some(h) && h@ == value,
        value.len() > 0,
    ensures
        vars_expanded(whole, before, vars) == Ok::<Seq<char>, PathFault>(before),
        vars_expanded(whole, before + "${HOME}"@ + rest, vars) == match vars_expanded(
            whole,
            rest,
            vars,
        ) {
            Ok(more) => Ok::<Seq<char>, PathFault>(before + value + more),
            Err(fault) => Err(fault),
        },
        rest.len() == 0 || !name_char(rest[0]) ==> vars_expanded(
            whole,
            before + "$HOME"@ + rest,
            vars,
        ) == match vars_expanded(whole, rest, vars) {
            Ok(more) => Ok::<Seq<char>, PathFault>(before + value + more),
            Err(fault) => Err(fault),
        },
{
    reveal_strlit("${HOME}");
    reveal_strlit("$HOME");
    reveal_strlit("HOME");
    let n = before.len() as int;
    assert forall|i: int| 0 <= i < n implies before[i] != '$' by {
        if before[i] == '$' {
            assert(before.contains('$'));
        }
    }
    text::lemma_position(before, '$', n);
    let braced = before + "${HOME}"@ + rest;
    text::lemma_position(braced, '$', n);
    let after = braced.skip(n + 1);
    assert(after =~= seq!['{', 'H', 'O', 'M', 'E', '}'] + rest);
    let inside = after.skip(1);
    assert(inside =~= seq!['H', 'O', 'M', 'E', '}'] + rest);
    text::lemma_position(inside, '}', 4);
    assert(inside.take(4) =~= "HOME"@);
    assert(inside.skip(5) =~= rest);
    assert(braced.take(n) =~= before);
    let bare = before + "$HOME"@ + rest;
    text::lemma_position(bare, '$', n);
    let behind = bare.skip(n + 1);
    assert(behind =~= "HOME"@ + rest);
    if rest.len() == 0 || !name_char(rest[0]) {
        lemma_name_length("HOME"@, rest);
        assert(behind.take(4) =~= "HOME"@);
        assert(behind.skip(4) =~= rest);
        assert(bare.take(n) =~= before);
    }
}

proof fn lemma_name_length(name: Seq<char>, rest: Seq<char>)
    requires
        forall|i: int| 0 <= i < name.len() ==> name_char(#[trigger] name[i]),
        rest.len() == 0 || !name_char(rest[0]),
    ensures
        name_length(name + rest) == name.len(),
    decreases name.len(),
{
    let all = name + rest;
    if name.len() > 0 {
        assert(all[0] == name[0]);
        assert(all.skip(1) =~= name.skip(1) + rest);
        assert forall|i: int| 0 <= i < name.skip(1).len() implies name_char(
            #[trigger] name.skip(1)[i],
        ) by {
            assert(name[i + 1] == name.skip(1)[i]);
        }
        lemma_name_length(name.skip(1), rest);
    } else {
        assert(all =~= rest);
    }
}

/// The order of two paths is decided by the first component in which they differ, and where there
/// is none, what holds another comes before it.
pub proof fn the_first_different_component_decides(a: Seq<Seq<u8>>, b: Seq<Seq<u8>>, at: int)
    requires
        0 <= at <= a.len(),
        at <= b.len(),
        a.take(at) == b.take(at),
    ensures
        at == a.len() ==> path_less(a, b) == (at < b.len()),
        at == b.len() ==> !path_less(a, b),
        at < a.len() && at < b.len() && a[at] != b[at] ==> path_less(a, b) == octets::bytes_less(
            a[at],
            b[at],
        ),
    decreases at,
{
    if at > 0 {
        assert(a.take(at)[0] == a[0] && b.take(at)[0] == b[0]);
        let x = a.skip(1);
        let y = b.skip(1);
        assert(x.take(at - 1) =~= a.take(at).skip(1));
        assert(y.take(at - 1) =~= b.take(at).skip(1));
        the_first_different_component_decides(x, y, at - 1);
        if at < a.len() {
            assert(x[at - 1] == a[at]);
        }
        if at < b.len() {
            assert(y[at - 1] == b[at]);
        }
    }
}

/// Where paths begin with a drive either slash separates, and a drive's letter is the same in either
/// case.
pub proof fn a_drive_is_read_either_way(raw: Seq<u8>, rest: Seq<u8>, letter: u8, shown: Seq<char>)
    requires
        97 <= letter <= 122,
    ensures
        cleaned_on(true, raw, shown) == cleaned_on(true, forward(raw), shown),
        cleaned_on(true, seq![letter, COLON] + rest, shown) == cleaned_on(
            true,
            seq![(letter - 32) as u8, COLON] + rest,
            shown,
        ),
{
    assert(forward(forward(raw)) =~= forward(raw));
    let small = forward(seq![letter, COLON] + rest);
    let big = forward(seq![(letter - 32) as u8, COLON] + rest);
    assert(small[0] == letter && small[1] == COLON && big[0] == letter - 32 && big[1] == COLON);
    assert(small.skip(2) =~= big.skip(2));
    assert(big.take(2) =~= seq![(letter - 32) as u8, COLON]);
    assert(drive_of(small, 2) =~= drive_of(big, 2));
    assert(behind_drive(small, 2) =~= behind_drive(big, 2));
}

/// A path without a drive is refused where paths begin with one, and one with a drive and no root
/// too: both move with the current directory.
pub proof fn a_path_that_moves_is_refused(raw: Seq<u8>, letter: u8, rest: Seq<u8>, shown: Seq<char>)
    requires
        65 <= letter <= 90,
        rest.len() == 0 || (rest[0] != SLASH && rest[0] != BACKSLASH),
    ensures
        drive_length(forward(raw)) is None ==> cleaned_on(true, raw, shown) is Err,
        cleaned_on(true, seq![letter, COLON] + rest, shown) is Err,
        raw.len() == 0 || raw[0] != SLASH ==> cleaned_on(false, raw, shown) is Err,
{
    let whole = forward(seq![letter, COLON] + rest);
    assert(whole[0] == letter && whole[1] == COLON);
    assert(whole.skip(2) =~= forward(rest));
    if rest.len() > 0 {
        assert(forward(rest)[0] == rest[0]);
    }
}

} // verus!
