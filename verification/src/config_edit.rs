//! In-place config rewriting for the `watch`, `ignore` and `reinclude`
//! commands, and for profiles, remotes and schedules.
//!
//! **The file's most valuable lines are the explanations**: why a path is excluded,
//! why a remote is optional, what a schedule is for. Reserialising the whole file
//! would lose every comment, blank line and hand-chosen ordering the first time
//! somebody used a command instead of an editor.
//!
//! The file remains something you can own and hand-edit; these commands are a
//! convenience, not the interface.

pub mod document;

use crate::config::raw::RawSchedule;
use crate::config::schedule;
use crate::config::schedule::{Duration, Schedule};
use crate::config::validate;
use crate::lines;
use crate::text;
use crate::text::{cat2, cat3, cat4, decimal, join_text, same};
use document::{
    close_list, count_tables, fields_at, has_key, has_root_key, indent_last, new_document,
    new_list, new_tables, push_inline, push_table, push_text, read_document,
    remove_item, remove_key, remove_table, scalar_at, set_inline, set_nested, set_scalar, texts_at,
    write_document, Node, Scalar, Table,
};
use vstd::prelude::*;

verus! {

#[derive(Debug, PartialEq, Eq)]
pub enum EditError {
    Io { context: String, source: String },
    Malformed { path: String, source: String },
    NoProfile(String),
    NoProfiles,
    Ambiguous(String),
    NotPresent { value: String, list: String },
}

#[allow(inconsistent_fields)]
pub enum EditFault {
    Io { context: Seq<char>, source: Seq<char> },
    Malformed { path: Seq<char>, source: Seq<char> },
    NoProfile(Seq<char>),
    NoProfiles,
    Ambiguous(Seq<char>),
    NotPresent { value: Seq<char>, list: Seq<char> },
}

impl View for EditError {
    type V = EditFault;

    open spec fn view(&self) -> EditFault {
        match self {
            EditError::Io { context, source } => EditFault::Io {
                context: context@,
                source: source@,
            },
            EditError::Malformed { path, source } => EditFault::Malformed {
                path: path@,
                source: source@,
            },
            EditError::NoProfile(name) => EditFault::NoProfile(name@),
            EditError::NoProfiles => EditFault::NoProfiles,
            EditError::Ambiguous(names) => EditFault::Ambiguous(names@),
            EditError::NotPresent { value, list } => EditFault::NotPresent {
                value: value@,
                list: list@,
            },
        }
    }
}

impl EditFault {
    pub open spec fn message(self) -> Seq<char> {
        match self {
            EditFault::Io { context, source } => context + ": "@ + source,
            EditFault::Malformed { path, source } => path + " is not readable as TOML: "@ + source,
            EditFault::NoProfile(name) => "no profile named '"@ + name + "' in this config"@,
            EditFault::NoProfiles =>
                "the config has no profiles, so there is nothing to add a rule to"@,
            EditFault::Ambiguous(names) => "name a profile with -p: "@ + names,
            EditFault::NotPresent { value, list } => "'"@ + value + "' is not in "@ + list,
        }
    }
}

impl EditError {
    pub fn text(&self) -> (out: String)
        ensures
            out@ == self@.message(),
    {
        match self {
            EditError::Io { context, source } => cat3(context, ": ", source),
            EditError::Malformed { path, source } => {
                cat3(path, " is not readable as TOML: ", source)
            },
            EditError::NoProfile(name) => cat3("no profile named '", name, "' in this config"),
            EditError::NoProfiles => {
                "the config has no profiles, so there is nothing to add a rule to".to_owned()
            },
            EditError::Ambiguous(names) => cat2("name a profile with -p: ", names),
            EditError::NotPresent { value, list } => cat4("'", value, "' is not in ", list),
        }
    }
}

/// Which list a rule goes in. A sum type rather than a string, because these are the
/// only three keys and a typo would silently create a fourth that nothing reads.
#[derive(Clone, Copy, Debug, PartialEq, Eq, Structural)]
pub enum List {
    Watch,
    Ignore,
    Reinclude,
}

impl List {
    pub open spec fn name(self) -> Seq<char> {
        match self {
            List::Watch => "watch"@,
            List::Ignore => "ignore"@,
            List::Reinclude => "reinclude"@,
        }
    }

    #[must_use]
    pub fn key(self) -> (out: &'static str)
        ensures
            out@ == self.name(),
    {
        match self {
            List::Watch => "watch",
            List::Ignore => "ignore",
            List::Reinclude => "reinclude",
        }
    }
}

/// A remote as read back from the file, unvalidated.
#[derive(Debug, PartialEq, Eq)]
pub struct RemoteEntry {
    pub name: String,
    pub path: String,
    pub optional: bool,
    pub trust_ownership: bool,
    pub behind_tolerance: Option<u32>,
}

pub struct RemoteEntryView {
    pub name: Seq<char>,
    pub path: Seq<char>,
    pub optional: bool,
    pub trust_ownership: bool,
    pub behind_tolerance: Option<u32>,
}

impl View for RemoteEntry {
    type V = RemoteEntryView;

    open spec fn view(&self) -> RemoteEntryView {
        RemoteEntryView {
            name: self.name@,
            path: self.path@,
            optional: self.optional,
            trust_ownership: self.trust_ownership,
            behind_tolerance: self.behind_tolerance,
        }
    }
}

pub open spec fn remote_entry_views(v: Seq<RemoteEntry>) -> Seq<RemoteEntryView> {
    v.map_values(|r: RemoteEntry| r@)
}

/// A remote to append. Every field here becomes a key in the same inline table
/// a hand-written one has, and a default-valued one is omitted rather than written
/// out, so an added remote reads the way a hand-written one would.
#[derive(Debug, PartialEq, Eq)]
pub struct NewRemote {
    pub name: String,
    pub path: String,
    pub optional: bool,
    pub trust_ownership: bool,
    pub behind_tolerance: Option<u32>,
}

/// A profile to append.
#[derive(Debug, PartialEq, Eq)]
pub struct NewProfile {
    pub name: String,
    pub watch: Vec<String>,
    pub remotes: Vec<NewRemote>,
    pub schedule: Option<Schedule>,
    pub local_only: bool,
}

// ---------------------------------------------------------------------------
// What the file says
// ---------------------------------------------------------------------------

/// The text under a key of a table, where there is one.
pub open spec fn text_in(table: Table, key: Seq<char>) -> Option<Seq<char>> {
    if table.dom().contains(key) {
        match table[key] {
            Node::Text(s) => Some(s),
            _ => None,
        }
    } else {
        None
    }
}

/// The flag under a key of a table, or `false` where there is none.
pub open spec fn flag_in(table: Table, key: Seq<char>) -> bool {
    table.dom().contains(key) && table[key] == Node::Flag(true)
}

/// The names of the first `n` tables that have one.
pub open spec fn names_in(tables: Seq<Table>, n: int) -> Seq<Seq<char>>
    decreases n,
{
    if n <= 0 {
        Seq::empty()
    } else {
        match text_in(tables[n - 1], "name"@) {
            Some(name) => names_in(tables, n - 1).push(name),
            None => names_in(tables, n - 1),
        }
    }
}

pub open spec fn profile_names(root: Table) -> Seq<Seq<char>> {
    match document::tables_in(root) {
        Some(tables) => names_in(tables, tables.len() as int),
        None => Seq::empty(),
    }
}

/// The texts among the first `n` values of a list.
pub open spec fn texts_in(list: Seq<Node>, n: int) -> Seq<Seq<char>>
    decreases n,
{
    if n <= 0 {
        Seq::empty()
    } else {
        match list[n - 1] {
            Node::Text(s) => texts_in(list, n - 1).push(s),
            _ => texts_in(list, n - 1),
        }
    }
}

pub open spec fn entries_in(root: Table, profile: int, key: Seq<char>) -> Seq<Seq<char>> {
    match document::list_at(root, profile, key) {
        Some(list) => texts_in(list, list.len() as int),
        None => Seq::empty(),
    }
}

/// A remote's tolerance, where it is written as a number that can be one.
pub open spec fn tolerance_in(table: Table) -> Option<u32> {
    if table.dom().contains("behind_tolerance"@) {
        match table["behind_tolerance"@] {
            Node::Whole(n) => if 0 <= n <= u32::MAX {
                Some(n as u32)
            } else {
                None
            },
            _ => None,
        }
    } else {
        None
    }
}

/// What a value of `remotes` says, where it is an inline table with a name and a path.
pub open spec fn remote_in(node: Node) -> Option<RemoteEntryView> {
    match node {
        Node::Inline(table) => match (text_in(table, "name"@), text_in(table, "path"@)) {
            (Some(name), Some(path)) => Some(
                RemoteEntryView {
                    name,
                    path,
                    optional: flag_in(table, "optional"@),
                    trust_ownership: flag_in(table, "trust_ownership"@),
                    behind_tolerance: tolerance_in(table),
                },
            ),
            _ => None,
        },
        _ => None,
    }
}

pub open spec fn remotes_read(list: Seq<Node>, n: int) -> Seq<RemoteEntryView>
    decreases n,
{
    if n <= 0 {
        Seq::empty()
    } else {
        match remote_in(list[n - 1]) {
            Some(remote) => remotes_read(list, n - 1).push(remote),
            None => remotes_read(list, n - 1),
        }
    }
}

pub open spec fn remotes_in(root: Table, profile: int) -> Seq<RemoteEntryView> {
    match document::list_at(root, profile, "remotes"@) {
        Some(list) => remotes_read(list, list.len() as int),
        None => Seq::empty(),
    }
}

/// Which profile a command means, or why it means none.
pub open spec fn which_of(names: Seq<Seq<char>>, wanted: Option<Seq<char>>) -> Result<int, EditFault> {
    match wanted {
        Some(name) => if text::position(names, name) < names.len() {
            Ok(text::position(names, name))
        } else {
            Err(EditFault::NoProfile(name))
        },
        None => if names.len() == 0 {
            Err(EditFault::NoProfiles)
        } else if names.len() == 1 {
            Ok(0)
        } else {
            Err(EditFault::Ambiguous(text::join(names, ", "@)))
        },
    }
}

/// What refuses an edit of a profile that has no table.
pub open spec fn table_fault(root: Table, profile: int) -> EditFault {
    match document::tables_in(root) {
        None => EditFault::NoProfiles,
        Some(_) => EditFault::NoProfile(text::decimal_text(profile as nat)),
    }
}

/// The document with a list under a key, where the key was missing.
pub open spec fn with_list(root: Table, profile: int, key: Seq<char>) -> Table {
    if document::table_at(root, profile).dom().contains(key) {
        root
    } else {
        document::with_node(root, profile, key, Node::List(Seq::empty()))
    }
}

/// What refuses an edit of a list: no profile's table, or a value under its key that is no list.
pub open spec fn list_fault(root: Table, profile: int, key: Seq<char>) -> Option<EditFault> {
    if !document::has_table(root, profile) {
        Some(table_fault(root, profile))
    } else if document::list_at(with_list(root, profile, key), profile, key) is None {
        Some(EditFault::NotPresent { value: key, list: "an array"@ })
    } else {
        None
    }
}

/// The list an edit works on.
pub open spec fn list_edited(root: Table, profile: int, key: Seq<char>) -> Seq<Node> {
    document::list_at(with_list(root, profile, key), profile, key)->0
}

/// The document with a value in a list, which it goes to the end of where it was missing.
pub open spec fn with_entry(root: Table, profile: int, key: Seq<char>, value: Seq<char>) -> Table {
    let items = list_edited(root, profile, key);
    if items.contains(Node::Text(value)) {
        with_list(root, profile, key)
    } else {
        document::with_node(
            with_list(root, profile, key),
            profile,
            key,
            Node::List(items.push(Node::Text(value))),
        )
    }
}

// ---------------------------------------------------------------------------
// What is written
// ---------------------------------------------------------------------------

/// The inline table a remote is written as.
pub open spec fn remote_table(remote: NewRemote) -> Table {
    let t = Map::<Seq<char>, Node>::empty().insert("name"@, Node::Text(remote.name@)).insert(
        "path"@,
        Node::Text(remote.path@),
    );
    let t = if remote.optional {
        t.insert("optional"@, Node::Flag(true))
    } else {
        t
    };
    let t = if remote.trust_ownership {
        t.insert("trust_ownership"@, Node::Flag(true))
    } else {
        t
    };
    match remote.behind_tolerance {
        Some(n) => t.insert("behind_tolerance"@, Node::Whole(n as i64)),
        None => t,
    }
}

/// The compact form of an interval.
pub open spec fn every_text(seconds: nat) -> Seq<char> {
    if seconds > 0 && seconds % 3600 == 0 {
        text::decimal_text(seconds / 3600) + "h"@
    } else if seconds < 60 {
        text::decimal_text(1) + "m"@
    } else {
        text::decimal_text(seconds / 60) + "m"@
    }
}

/// The inline table a schedule is written as: the three shapes that are read.
pub open spec fn schedule_table(schedule: Schedule) -> Table {
    match schedule {
        Schedule::Daily { at } => Map::<Seq<char>, Node>::empty().insert(
            "daily"@,
            Node::Inline(Map::<Seq<char>, Node>::empty().insert("at"@, Node::Text(at.shown()))),
        ),
        Schedule::Weekly { day, at } => Map::<Seq<char>, Node>::empty().insert(
            "weekly"@,
            Node::Inline(
                Map::<Seq<char>, Node>::empty().insert("day"@, Node::Text(day.word())).insert(
                    "at"@,
                    Node::Text(at.shown()),
                ),
            ),
        ),
        Schedule::Every(every) => Map::<Seq<char>, Node>::empty().insert(
            "every"@,
            Node::Text(every_text(every.secs as nat)),
        ),
    }
}

pub open spec fn text_nodes(texts: Seq<String>, n: int) -> Seq<Node>
    decreases n,
{
    if n <= 0 {
        Seq::empty()
    } else {
        text_nodes(texts, n - 1).push(Node::Text(texts[n - 1]@))
    }
}

pub open spec fn remote_nodes(remotes: Seq<NewRemote>, n: int) -> Seq<Node>
    decreases n,
{
    if n <= 0 {
        Seq::empty()
    } else {
        remote_nodes(remotes, n - 1).push(Node::Inline(remote_table(remotes[n - 1])))
    }
}

/// The table a new profile is written as. What says nothing is left out.
pub open spec fn profile_table(new: NewProfile) -> Table {
    let t = Map::<Seq<char>, Node>::empty().insert("name"@, Node::Text(new.name@));
    let t = if new.watch@.len() > 0 {
        t.insert("watch"@, Node::List(text_nodes(new.watch@, new.watch@.len() as int)))
    } else {
        t
    };
    let t = if new.remotes@.len() > 0 {
        t.insert("remotes"@, Node::List(remote_nodes(new.remotes@, new.remotes@.len() as int)))
    } else {
        t
    };
    let t = match new.schedule {
        Some(schedule) => t.insert("schedule"@, Node::Inline(schedule_table(schedule))),
        None => t,
    };
    if new.local_only {
        t.insert("local_only"@, Node::Flag(true))
    } else {
        t
    }
}

// ---------------------------------------------------------------------------
// How it is laid out
// ---------------------------------------------------------------------------

/// The document whose list an edit works on: the list is made where its key is missing.
pub open spec fn opened(
    document: toml_edit::DocumentMut,
    profile: int,
    key: Seq<char>,
) -> toml_edit::DocumentMut {
    let root = document::root_of(document);
    if !document::has_table(root, profile) || document::table_at(root, profile).dom().contains(
        key,
    ) {
        document
    } else {
        document::list_made(document, profile, key)
    }
}

/// A document with a text at the end of a list, on a line of its own. What stands before every
/// other entry stays.
pub open spec fn line_added(
    document: toml_edit::DocumentMut,
    profile: int,
    key: Seq<char>,
    value: Seq<char>,
) -> toml_edit::DocumentMut {
    document::last_indented(
        document::text_pushed(document, profile, key, value),
        profile,
        key,
        "\n  "@,
    )
}

/// The pairs a remote is written as, in order. A default is left out.
pub open spec fn remote_fields(remote: NewRemote) -> Seq<(Seq<char>, Node)> {
    seq![("name"@, Node::Text(remote.name@)), ("path"@, Node::Text(remote.path@))] + (
    if remote.optional {
        seq![("optional"@, Node::Flag(true))]
    } else {
        seq![]
    }) + (if remote.trust_ownership {
        seq![("trust_ownership"@, Node::Flag(true))]
    } else {
        seq![]
    }) + (match remote.behind_tolerance {
        Some(tolerance) => seq![("behind_tolerance"@, Node::Whole(tolerance as i64))],
        None => seq![],
    })
}

/// A document with a remote at the end of a list, on a line of its own.
pub open spec fn remote_added(
    document: toml_edit::DocumentMut,
    profile: int,
    key: Seq<char>,
    remote: NewRemote,
) -> toml_edit::DocumentMut {
    document::last_indented(
        document::inline_pushed(document, profile, key, remote_fields(remote)),
        profile,
        key,
        "\n  "@,
    )
}

/// A document with a schedule under its key of a profile.
pub open spec fn schedule_written(
    document: toml_edit::DocumentMut,
    profile: int,
    schedule: Schedule,
) -> toml_edit::DocumentMut {
    match schedule {
        Schedule::Daily { at } => document::nested_set(
            document,
            profile,
            "schedule"@,
            "daily"@,
            seq![("at"@, at.shown())],
        ),
        Schedule::Weekly { day, at } => document::nested_set(
            document,
            profile,
            "schedule"@,
            "weekly"@,
            seq![("day"@, day.word()), ("at"@, at.shown())],
        ),
        Schedule::Every(every) => document::inline_set(
            document,
            profile,
            "schedule"@,
            seq![("every"@, every_text(every.secs as nat))],
        ),
    }
}

/// A document with the first `n` of some texts at the end of a list, each on a line of its own.
pub open spec fn lines_added(
    document: toml_edit::DocumentMut,
    profile: int,
    key: Seq<char>,
    texts: Seq<String>,
    n: int,
) -> toml_edit::DocumentMut
    decreases n,
{
    if n <= 0 {
        document
    } else {
        line_added(lines_added(document, profile, key, texts, n - 1), profile, key, texts[n - 1]@)
    }
}

/// A document with the first `n` of some remotes at the end of a list, each on a line of its own.
pub open spec fn remotes_added(
    document: toml_edit::DocumentMut,
    profile: int,
    key: Seq<char>,
    remotes: Seq<NewRemote>,
    n: int,
) -> toml_edit::DocumentMut
    decreases n,
{
    if n <= 0 {
        document
    } else {
        remote_added(
            remotes_added(document, profile, key, remotes, n - 1),
            profile,
            key,
            remotes[n - 1],
        )
    }
}

/// A document with a list of texts under a key, one to a line.
pub open spec fn texts_written(
    document: toml_edit::DocumentMut,
    profile: int,
    key: Seq<char>,
    texts: Seq<String>,
) -> toml_edit::DocumentMut {
    document::list_closed(
        lines_added(
            document::list_made(document, profile, key),
            profile,
            key,
            texts,
            texts.len() as int,
        ),
        profile,
        key,
        "\n"@,
    )
}

/// A document with a list of remotes under a key, one to a line.
pub open spec fn remotes_written(
    document: toml_edit::DocumentMut,
    profile: int,
    key: Seq<char>,
    remotes: Seq<NewRemote>,
) -> toml_edit::DocumentMut {
    document::list_closed(
        remotes_added(
            document::list_made(document, profile, key),
            profile,
            key,
            remotes,
            remotes.len() as int,
        ),
        profile,
        key,
        "\n"@,
    )
}

/// A document with a new profile's table behind the others. What says nothing is left out.
pub open spec fn profile_written(
    document: toml_edit::DocumentMut,
    new: NewProfile,
) -> toml_edit::DocumentMut {
    let at = document::tables_in(document::root_of(document))->0.len() as int;
    let d = document::table_pushed(document);
    let d = document::scalar_set(d, at, "name"@, Node::Text(new.name@));
    let d = if new.watch@.len() > 0 {
        texts_written(d, at, "watch"@, new.watch@)
    } else {
        d
    };
    let d = if new.remotes@.len() > 0 {
        remotes_written(d, at, "remotes"@, new.remotes@)
    } else {
        d
    };
    let d = match new.schedule {
        Some(schedule) => schedule_written(d, at, schedule),
        None => d,
    };
    if new.local_only {
        document::scalar_set(d, at, "local_only"@, Node::Flag(true))
    } else {
        d
    }
}

/// A document with a new profile's table, under a `profile` that is made where it is missing.
pub open spec fn profile_added(
    document: toml_edit::DocumentMut,
    new: NewProfile,
) -> toml_edit::DocumentMut {
    if document::root_of(document).dom().contains("profile"@) {
        profile_written(document, new)
    } else {
        profile_written(document::tables_made(document), new)
    }
}

/// The compact `<N>h`/`<N>m` form the `every:` grammar accepts - the only shape
/// `schedule set` ever produces here, so round-tripping it back through the same two
/// units is exact.
pub fn every_spec(duration: Duration) -> (out: String)
    ensures
        out@ == every_text(duration.secs as nat),
{
    let seconds: u64 = duration.as_secs();
    if seconds > 0 && seconds % 3600 == 0 {
        cat2(&decimal(seconds / 3600), "h")
    } else if seconds < 60 {
        cat2(&decimal(1), "m")
    } else {
        cat2(&decimal(seconds / 60), "m")
    }
}

fn remote_pairs(remote: &NewRemote) -> (out: Vec<(String, Scalar)>)
    ensures
        document::pair_table(out@) == remote_table(*remote),
        document::pair_views(out@) == remote_fields(*remote),
{
    let mut out: Vec<(String, Scalar)> = Vec::new();
    push_pair(&mut out, "name", Scalar::Text(remote.name.clone()));
    push_pair(&mut out, "path", Scalar::Text(remote.path.clone()));
    if remote.optional {
        push_pair(&mut out, "optional", Scalar::Flag(true));
    }
    if remote.trust_ownership {
        push_pair(&mut out, "trust_ownership", Scalar::Flag(true));
    }
    if let Some(tolerance) = remote.behind_tolerance {
        push_pair(&mut out, "behind_tolerance", Scalar::Whole(tolerance as i64));
    }
    assert(document::pair_views(out@) =~= remote_fields(*remote));
    out
}

fn push_pair(pairs: &mut Vec<(String, Scalar)>, key: &str, value: Scalar)
    ensures
        document::pair_table(final(pairs)@) == document::pair_table(old(pairs)@).insert(
            key@,
            value@,
        ),
        document::pair_views(final(pairs)@) == document::pair_views(old(pairs)@).push(
            (key@, value@),
        ),
{
    let ghost before = pairs@;
    let ghost pair = (key@, value@);
    pairs.push((key.to_owned(), value));
    assert(pairs@.drop_last() =~= before);
    assert(document::pair_views(pairs@) =~= document::pair_views(before).push(pair));
}

/// The value at a place in what was read of a list, or nothing.
fn field(read: &Option<Vec<Option<Scalar>>>, i: usize) -> (out: Option<&Scalar>)
    requires
        read matches Some(items) ==> i < items@.len(),
    ensures
        match read {
            Some(items) => match items@[i as int] {
                Some(s) => out == Some(&s),
                None => out is None,
            },
            None => out is None,
        },
{
    match read {
        Some(items) => match &items[i] {
            Some(s) => Some(s),
            None => None,
        },
        None => None,
    }
}

/// A config file open for editing.
#[derive(Debug)]
pub struct Editing {
    document: toml_edit::DocumentMut,
    path: String,
}

impl Editing {
    /// The document, with its comments and its layout.
    pub closed spec fn document(self) -> toml_edit::DocumentMut {
        self.document
    }

    /// What the file holds.
    pub open spec fn root(self) -> Table {
        document::root_of(self.document())
    }

    /// The text the file is written as.
    pub open spec fn shown(self) -> Seq<char> {
        document::written_as(self.document())
    }

    pub closed spec fn file(self) -> Seq<char> {
        self.path@
    }

    /// Takes what reading the file came to.
    ///
    /// # Errors
    ///
    /// If the file could not be read or is not TOML.
    pub fn open(path: &str, read: Result<String, String>) -> (out: Result<Editing, EditError>)
        ensures
            match read {
                Err(source) => out matches Err(e) && e@ == (EditFault::Io {
                    context: "reading "@ + path@,
                    source: source@,
                }),
                Ok(text) => match document::document_read(text@) {
                    Ok(document) => out matches Ok(editing) && editing.document() == document
                        && editing.file() == path@,
                    Err(source) => out matches Err(e) && e@ == (EditFault::Malformed {
                        path: path@,
                        source,
                    }),
                },
            },
    {
        let text = match read {
            Ok(text) => text,
            Err(source) => return Err(
                EditError::Io { context: cat2("reading ", path), source },
            ),
        };
        match read_document(&text) {
            Ok(document) => Ok(Editing { document, path: path.to_owned() }),
            Err(source) => Err(EditError::Malformed { path: path.to_owned(), source }),
        }
    }

    /// Takes what writing [`Editing::text`] back came to.
    ///
    /// # Errors
    ///
    /// If the file could not be written.
    pub fn save(&self, wrote: Result<(), String>) -> (out: Result<(), EditError>)
        ensures
            match wrote {
                Ok(()) => out is Ok,
                Err(source) => out matches Err(e) && e@ == (EditFault::Io {
                    context: "writing "@ + self.file(),
                    source: source@,
                }),
            },
    {
        match wrote {
            Ok(()) => Ok(()),
            Err(source) => Err(EditError::Io { context: cat2("writing ", &self.path), source }),
        }
    }

    /// The document, comments and all.
    #[must_use]
    pub fn text(&self) -> (out: String)
        ensures
            out@ == self.shown(),
    {
        write_document(&self.document)
    }

    /// Where the file is.
    pub fn path(&self) -> (out: &str)
        ensures
            out@ == self.file(),
    {
        self.path.as_str()
    }

    /// Names every profile in the file, in file order.
    #[must_use]
    pub fn profiles(&self) -> (out: Vec<String>)
        ensures
            text::views(out@) == profile_names(self.root()),
    {
        let ghost root = self.root();
        let mut out: Vec<String> = Vec::new();
        assert(text::views(out@) =~= Seq::<Seq<char>>::empty());
        let len: usize = match count_tables(&self.document) {
            Some(len) => len,
            None => return out,
        };
        let ghost tables = document::tables_in(root)->0;
        let mut i: usize = 0;
        while i < len
            invariant
                i <= len,
                root == self.root(),
                document::tables_in(root) == Some(tables),
                len == tables.len(),
                text::views(out@) == names_in(tables, i as int),
            decreases len - i,
        {
            let ghost before = text::views(out@);
            match scalar_at(&self.document, i, "name") {
                Some(Scalar::Text(name)) => {
                    out.push(name);
                    assert(text::views(out@) =~= before.push(name@));
                },
                _ => {},
            }
            i += 1;
        }
        out
    }

    /// Whether there is a table for a profile.
    fn has_profile(&self, profile: usize) -> (out: bool)
        ensures
            out == document::has_table(self.root(), profile as int),
    {
        match count_tables(&self.document) {
            Some(len) => profile < len,
            None => false,
        }
    }

    /// Every entry currently in one of a profile's lists.
    #[must_use]
    pub fn entries(&self, profile: usize, list: List) -> (out: Vec<String>)
        ensures
            text::views(out@) == entries_in(self.root(), profile as int, list.name()),
    {
        let ghost root = self.root();
        let ghost key = list.name();
        let mut out: Vec<String> = Vec::new();
        assert(text::views(out@) =~= Seq::<Seq<char>>::empty());
        if !self.has_profile(profile) {
            return out;
        }
        let items = match texts_at(&self.document, profile, list.key()) {
            Some(items) => items,
            None => return out,
        };
        let ghost nodes = document::list_at(root, profile as int, key)->0;
        let mut i: usize = 0;
        while i < items.len()
            invariant
                i <= items@.len(),
                items@.len() == nodes.len(),
                forall|k: int|
                    0 <= k < items@.len() ==> match (#[trigger] items@[k]) {
                        Some(s) => nodes[k] == Node::Text(s@),
                        None => !(nodes[k] is Text),
                    },
                text::views(out@) == texts_in(nodes, i as int),
            decreases items@.len() - i,
        {
            let ghost before = text::views(out@);
            let ghost found = items@[i as int];
            if let Some(s) = &items[i] {
                let value = s.clone();
                out.push(value);
                assert(text::views(out@) =~= before.push(s@));
            }
            i += 1;
        }
        out
    }

    /// Resolves which profile a command means: the one named, or the only one there.
    ///
    /// # Errors
    ///
    /// If the name is not present, or none was given and there is more than one.
    pub fn which(&self, wanted: Option<&str>) -> (out: Result<usize, EditError>)
        ensures
            match which_of(
                profile_names(self.root()),
                crate::primitives::path::view_str_opt(wanted),
            ) {
                Ok(index) => out matches Ok(i) && i == index,
                Err(fault) => out matches Err(e) && e@ == fault,
            },
    {
        let names = self.profiles();
        let ghost all = profile_names(self.root());
        assert(text::views(names@).len() == names@.len());
        match wanted {
            Some(name) => {
                let mut i: usize = 0;
                assert(all.skip(0) =~= all);
                while i < names.len()
                    invariant
                        i <= names@.len(),
                        all == profile_names(self.root()),
                        all == text::views(names@),
                        all.len() == names@.len(),
                        wanted == Some(name),
                        text::position(all, name@) == i + text::position(
                            all.skip(i as int),
                            name@,
                        ),
                    decreases names@.len() - i,
                {
                    assert(all.skip(i as int)[0] == names@[i as int]@);
                    if same(&names[i], name) {
                        return Ok(i);
                    }
                    assert(all.skip(i as int).skip(1) =~= all.skip(i + 1));
                    i += 1;
                }
                Err(EditError::NoProfile(name.to_owned()))
            },
            None => {
                if names.len() == 0 {
                    Err(EditError::NoProfiles)
                } else if names.len() == 1 {
                    Ok(0)
                } else {
                    Err(EditError::Ambiguous(join_text(&names, ", ")))
                }
            },
        }
    }

    /// What refuses an edit of a profile, where it has no table.
    fn refuse(&self, profile: usize) -> (out: Option<EditError>)
        ensures
            match out {
                Some(e) => !document::has_table(self.root(), profile as int) && e@ == table_fault(
                    self.root(),
                    profile as int,
                ),
                None => document::has_table(self.root(), profile as int),
            },
    {
        match count_tables(&self.document) {
            None => Some(EditError::NoProfiles),
            Some(len) => {
                if profile < len {
                    None
                } else {
                    Some(EditError::NoProfile(decimal(profile as u64)))
                }
            },
        }
    }

    /// Makes the list under a key where the key is missing.
    fn array(&mut self, profile: usize, key: &str) -> (out: Result<Vec<Option<String>>, EditError>)
        ensures
            final(self).file() == old(self).file(),
            !document::has_table(old(self).root(), profile as int) ==> final(self).root() == old(
                self,
            ).root(),
            document::has_table(old(self).root(), profile as int) ==> final(self).root()
                == with_list(old(self).root(), profile as int, key@),
            final(self).document() == opened(old(self).document(), profile as int, key@),
            document::table_at(old(self).root(), profile as int).dom().contains(key@)
                ==> *final(self) == *old(self),
            match list_fault(old(self).root(), profile as int, key@) {
                Some(fault) => out matches Err(e) && e@ == fault,
                None => out matches Ok(items) && ({
                    let list = list_edited(old(self).root(), profile as int, key@);
                    &&& items@.len() == list.len()
                    &&& forall|i: int|
                        0 <= i < items@.len() ==> match (#[trigger] items@[i]) {
                            Some(s) => list[i] == Node::Text(s@),
                            None => !(list[i] is Text),
                        }
                }),
            },
    {
        if let Some(error) = self.refuse(profile) {
            return Err(error);
        }
        if !has_key(&self.document, profile, key) {
            new_list(&mut self.document, profile, key);
        }
        match texts_at(&self.document, profile, key) {
            Some(items) => Ok(items),
            None => Err(
                EditError::NotPresent { value: key.to_owned(), list: "an array".to_owned() },
            ),
        }
    }

    /// Appends a value, creating the array if it is not there yet.
    ///
    /// Returns whether anything changed, so a repeat says so rather than rewriting an
    /// identical file.
    ///
    /// # Errors
    ///
    /// If the profile does not exist.
    pub fn add(&mut self, profile: usize, list: List, value: &str) -> (out: Result<bool, EditError>)
        ensures
            final(self).file() == old(self).file(),
            match list_fault(old(self).root(), profile as int, list.name()) {
                Some(fault) => out matches Err(e) && e@ == fault && final(self).root() == (
                if document::has_table(old(self).root(), profile as int) {
                    with_list(old(self).root(), profile as int, list.name())
                } else {
                    old(self).root()
                }),
                None => {
                    &&& out matches Ok(changed) && changed == !list_edited(
                        old(self).root(),
                        profile as int,
                        list.name(),
                    ).contains(Node::Text(value@))
                    &&& final(self).root() == with_entry(
                        old(self).root(),
                        profile as int,
                        list.name(),
                        value@,
                    )
                },
            },
            ({
                let made = opened(old(self).document(), profile as int, list.name());
                final(self).document() == if out matches Ok(true) {
                    line_added(made, profile as int, list.name(), value@)
                } else {
                    made
                }
            }),
            out matches Ok(false) ==> *final(self) == *old(self),
    {
        let key = list.key();
        let ghost nodes = list_edited(self.root(), profile as int, key@);
        let ghost made = with_list(self.root(), profile as int, key@);
        let ghost before = self.root();
        let items = match self.array(profile, key) {
            Ok(items) => items,
            Err(error) => return Err(error),
        };
        match place_of(&items, value, Ghost(nodes)) {
            Some(_) => return Ok(false),
            None => {},
        }
        push_text(&mut self.document, profile, key, value);
        // One entry per line. These lists are read far more than they are written, and
        // a wrapped single line is unreadable at ten entries - but only the entry just
        // added is reformatted, so a hand-chosen layout elsewhere survives.
        indent_last(&mut self.document, profile, key, "\n  ");
        Ok(true)
    }

    /// Removes a value and its own decoration.
    ///
    /// An entry's leading comment is that entry's own, so
    /// removing it takes the comment lines immediately above with it. A comment separated by
    /// a blank line belongs to
    /// what follows it rather than to this entry, and stays put.
    ///
    /// # Errors
    ///
    /// If the profile does not exist, or the value is not in the list.
    pub fn remove(&mut self, profile: usize, list: List, value: &str) -> (out: Result<
        (),
        EditError,
    >)
        ensures
            final(self).file() == old(self).file(),
            match list_fault(old(self).root(), profile as int, list.name()) {
                Some(fault) => out matches Err(e) && e@ == fault && final(self).root() == (
                if document::has_table(old(self).root(), profile as int) {
                    with_list(old(self).root(), profile as int, list.name())
                } else {
                    old(self).root()
                }),
                None => ({
                    let items = list_edited(old(self).root(), profile as int, list.name());
                    let made = with_list(old(self).root(), profile as int, list.name());
                    let at = text::position(items, Node::Text(value@));
                    if at < items.len() {
                        out is Ok && final(self).root() == document::with_node(
                            made,
                            profile as int,
                            list.name(),
                            Node::List(items.remove(at)),
                        )
                    } else {
                        out matches Err(e) && e@ == (EditFault::NotPresent {
                            value: value@,
                            list: list.name(),
                        }) && final(self).root() == made
                    }
                }),
            },
            ({
                let made = opened(old(self).document(), profile as int, list.name());
                let items = list_edited(old(self).root(), profile as int, list.name());
                final(self).document() == if out is Ok {
                    document::item_removed(
                        made,
                        profile as int,
                        list.name(),
                        text::position(items, Node::Text(value@)),
                    )
                } else {
                    made
                }
            }),
    {
        let key = list.key();
        let ghost nodes = list_edited(self.root(), profile as int, key@);
        let items = match self.array(profile, key) {
            Ok(items) => items,
            Err(error) => return Err(error),
        };
        match place_of(&items, value, Ghost(nodes)) {
            Some(index) => {
                remove_item(&mut self.document, profile, key, index);
                Ok(())
            },
            None => Err(
                EditError::NotPresent { value: value.to_owned(), list: key.to_owned() },
            ),
        }
    }

    /// Appends a new `[[profile]]` table.
    ///
    /// # Errors
    ///
    /// If the document's `profile` key exists and is not an array of tables.
    pub fn add_profile(&mut self, new: &NewProfile) -> (out: Result<(), EditError>)
        ensures
            final(self).file() == old(self).file(),
            if !old(self).root().dom().contains("profile"@) {
                out is Ok && final(self).root() == document::with_tables(
                    old(self).root(),
                    seq![profile_table(*new)],
                )
            } else {
                match document::tables_in(old(self).root()) {
                    Some(tables) => out is Ok && final(self).root() == document::with_tables(
                        old(self).root(),
                        tables.push(profile_table(*new)),
                    ),
                    None => out matches Err(e) && e@ is NoProfiles && final(self).root() == old(
                        self,
                    ).root(),
                }
            },
            final(self).document() == if out is Ok {
                profile_added(old(self).document(), *new)
            } else {
                old(self).document()
            },
    {
        let ghost before = self.root();
        if !has_root_key(&self.document, "profile") {
            new_tables(&mut self.document);
            assert(document::tables_in(self.root()) == Some(Seq::<Table>::empty()));
        }
        let ghost made = self.root();
        if count_tables(&self.document).is_none() {
            return Err(EditError::NoProfiles);
        }
        build_profile_table(&mut self.document, new);
        proof {
            let tables = document::tables_in(made)->0;
            if !before.dom().contains("profile"@) {
                assert(tables.push(profile_table(*new)) =~= seq![profile_table(*new)]);
                assert(document::with_tables(
                    document::with_tables(before, Seq::empty()),
                    seq![profile_table(*new)],
                ) =~= document::with_tables(before, seq![profile_table(*new)]));
            }
        }
        Ok(())
    }

    /// Removes the profile at `index`.
    ///
    /// # Errors
    ///
    /// If there is no profile at that index.
    pub fn remove_profile(&mut self, index: usize) -> (out: Result<(), EditError>)
        ensures
            final(self).file() == old(self).file(),
            if document::has_table(old(self).root(), index as int) {
                out is Ok && final(self).root() == document::with_tables(
                    old(self).root(),
                    document::tables_in(old(self).root())->0.remove(index as int),
                )
            } else {
                out matches Err(e) && e@ == table_fault(old(self).root(), index as int)
                    && final(self).root() == old(self).root()
            },
            final(self).document() == if out is Ok {
                document::table_removed(old(self).document(), index as int)
            } else {
                old(self).document()
            },
    {
        if let Some(error) = self.refuse(index) {
            return Err(error);
        }
        remove_table(&mut self.document, index);
        Ok(())
    }

    /// Every remote configured on a profile, in file order.
    #[must_use]
    pub fn remotes(&self, profile: usize) -> (out: Vec<RemoteEntry>)
        ensures
            remote_entry_views(out@) == remotes_in(self.root(), profile as int),
    {
        let ghost root = self.root();
        let mut out: Vec<RemoteEntry> = Vec::new();
        assert(remote_entry_views(out@) =~= Seq::<RemoteEntryView>::empty());
        if !self.has_profile(profile) {
            return out;
        }
        let names = match fields_at(&self.document, profile, "remotes", "name") {
            Some(names) => names,
            None => return out,
        };
        let paths = fields_at(&self.document, profile, "remotes", "path");
        let optional = fields_at(&self.document, profile, "remotes", "optional");
        let trusted = fields_at(&self.document, profile, "remotes", "trust_ownership");
        let tolerances = fields_at(&self.document, profile, "remotes", "behind_tolerance");
        let ghost nodes = document::list_at(root, profile as int, "remotes"@)->0;
        let mut i: usize = 0;
        while i < names.len()
            invariant
                i <= names@.len(),
                names@.len() == nodes.len(),
                forall|k: int|
                    0 <= k < names@.len() ==> document::field_reads_as(
                        nodes[k],
                        "name"@,
                        #[trigger] names@[k],
                    ),
                fields_read(paths, nodes, "path"@),
                fields_read(optional, nodes, "optional"@),
                fields_read(trusted, nodes, "trust_ownership"@),
                fields_read(tolerances, nodes, "behind_tolerance"@),
                remote_entry_views(out@) == remotes_read(nodes, i as int),
            decreases names@.len() - i,
        {
            let ghost before = remote_entry_views(out@);
            assert(document::field_reads_as(nodes[i as int], "name"@, names@[i as int]));
            let path = field(&paths, i);
            let remote = remote_entry(
                &names[i],
                path,
                field(&optional, i),
                field(&trusted, i),
                field(&tolerances, i),
                Ghost(nodes[i as int]),
            );
            if let Some(remote) = remote {
                out.push(remote);
                assert(remote_entry_views(out@) =~= before.push(remote@));
            }
            i += 1;
        }
        out
    }

    /// Appends a remote to a profile's `remotes` array, creating it if this is the
    /// first one.
    ///
    /// # Errors
    ///
    /// If the profile does not exist.
    pub fn add_remote(&mut self, profile: usize, remote: &NewRemote) -> (out: Result<(), EditError>)
        ensures
            final(self).file() == old(self).file(),
            match list_fault(old(self).root(), profile as int, "remotes"@) {
                Some(fault) => out matches Err(e) && e@ == fault && final(self).root() == (
                if document::has_table(old(self).root(), profile as int) {
                    with_list(old(self).root(), profile as int, "remotes"@)
                } else {
                    old(self).root()
                }),
                None => out is Ok && final(self).root() == document::with_node(
                    with_list(old(self).root(), profile as int, "remotes"@),
                    profile as int,
                    "remotes"@,
                    Node::List(
                        list_edited(old(self).root(), profile as int, "remotes"@).push(
                            Node::Inline(remote_table(*remote)),
                        ),
                    ),
                ),
            },
            ({
                let made = opened(old(self).document(), profile as int, "remotes"@);
                final(self).document() == if out is Ok {
                    remote_added(made, profile as int, "remotes"@, *remote)
                } else {
                    made
                }
            }),
    {
        match self.array(profile, "remotes") {
            Ok(_) => {},
            Err(error) => return Err(error),
        }
        let pairs = remote_pairs(remote);
        push_inline(&mut self.document, profile, "remotes", &pairs);
        indent_last(&mut self.document, profile, "remotes", "\n  ");
        Ok(())
    }

    /// Removes a remote by name.
    ///
    /// # Errors
    ///
    /// If the profile does not exist, or has no remote by that name.
    pub fn remove_remote(&mut self, profile: usize, name: &str) -> (out: Result<(), EditError>)
        ensures
            final(self).file() == old(self).file(),
            match list_fault(old(self).root(), profile as int, "remotes"@) {
                Some(fault) => out matches Err(e) && e@ == fault && final(self).root() == (
                if document::has_table(old(self).root(), profile as int) {
                    with_list(old(self).root(), profile as int, "remotes"@)
                } else {
                    old(self).root()
                }),
                None => ({
                    let items = list_edited(old(self).root(), profile as int, "remotes"@);
                    let made = with_list(old(self).root(), profile as int, "remotes"@);
                    let at = named_at(items, name@);
                    if at < items.len() {
                        out is Ok && final(self).root() == document::with_node(
                            made,
                            profile as int,
                            "remotes"@,
                            Node::List(items.remove(at)),
                        )
                    } else {
                        out matches Err(e) && e@ == (EditFault::NotPresent {
                            value: name@,
                            list: "remotes"@,
                        }) && final(self).root() == made
                    }
                }),
            },
            ({
                let made = opened(old(self).document(), profile as int, "remotes"@);
                let items = list_edited(old(self).root(), profile as int, "remotes"@);
                final(self).document() == if out is Ok {
                    document::item_removed(
                        made,
                        profile as int,
                        "remotes"@,
                        named_at(items, name@),
                    )
                } else {
                    made
                }
            }),
    {
        let ghost nodes = list_edited(self.root(), profile as int, "remotes"@);
        match self.array(profile, "remotes") {
            Ok(_) => {},
            Err(error) => return Err(error),
        }
        let names = fields_at(&self.document, profile, "remotes", "name");
        match name_place(&names, name, Ghost(nodes)) {
            Some(index) => {
                remove_item(&mut self.document, profile, "remotes", index);
                Ok(())
            },
            None => Err(
                EditError::NotPresent { value: name.to_owned(), list: "remotes".to_owned() },
            ),
        }
    }

    /// Whether a profile has **said** it wants no remotes.
    ///
    /// Not the same question as having none. A profile with an empty `remotes` and no
    /// `local_only` is unfinished setup and fails `config check`; one with the flag is
    /// a deliberate choice that passes. Reporting both as "local only" told somebody
    /// their broken config was a decision they had made.
    #[must_use]
    pub fn is_local_only(&self, profile: usize) -> (out: bool)
        ensures
            out == (document::has_table(self.root(), profile as int) && flag_in(
                document::table_at(self.root(), profile as int),
                "local_only"@,
            )),
    {
        if !self.has_profile(profile) {
            return false;
        }
        match scalar_at(&self.document, profile, "local_only") {
            Some(Scalar::Flag(said)) => said,
            _ => false,
        }
    }

    /// A profile's `store_path` override, exactly as written.
    ///
    /// Unexpanded, because that is how the file holds it and how it stays portable;
    /// the caller parses it, which is the one place `~` and
    /// `$HOME` are resolved.
    #[must_use]
    pub fn store_path(&self, profile: usize) -> (out: Option<String>)
        ensures
            text::view_opt(out) == if document::has_table(self.root(), profile as int) {
                text_in(document::table_at(self.root(), profile as int), "store_path"@)
            } else {
                None
            },
    {
        if !self.has_profile(profile) {
            return None;
        }
        match scalar_at(&self.document, profile, "store_path") {
            Some(Scalar::Text(path)) => Some(path),
            _ => None,
        }
    }

    /// Sets or clears `local_only` on a profile. It is never written `false`.
    ///
    /// # Errors
    ///
    /// If the profile does not exist.
    pub fn set_local_only(&mut self, profile: usize, value: bool) -> (out: Result<(), EditError>)
        ensures
            final(self).file() == old(self).file(),
            if document::has_table(old(self).root(), profile as int) {
                out is Ok && final(self).root() == document::with_table(
                    old(self).root(),
                    profile as int,
                    if value {
                        document::table_at(old(self).root(), profile as int).insert(
                            "local_only"@,
                            Node::Flag(true),
                        )
                    } else {
                        document::table_at(old(self).root(), profile as int).remove(
                            "local_only"@,
                        )
                    },
                )
            } else {
                out matches Err(e) && e@ == table_fault(old(self).root(), profile as int)
                    && final(self).root() == old(self).root()
            },
            final(self).document() == if out is Err {
                old(self).document()
            } else if value {
                document::scalar_set(
                    old(self).document(),
                    profile as int,
                    "local_only"@,
                    Node::Flag(true),
                )
            } else {
                document::key_removed(old(self).document(), profile as int, "local_only"@)
            },
    {
        if let Some(error) = self.refuse(profile) {
            return Err(error);
        }
        if value {
            set_scalar(&mut self.document, profile, "local_only", &Scalar::Flag(true));
        } else {
            remove_key(&mut self.document, profile, "local_only");
        }
        Ok(())
    }

    /// Replaces a profile's schedule.
    ///
    /// # Errors
    ///
    /// If the profile does not exist.
    pub fn set_schedule(&mut self, profile: usize, schedule: Schedule) -> (out: Result<
        (),
        EditError,
    >)
        ensures
            final(self).file() == old(self).file(),
            if document::has_table(old(self).root(), profile as int) {
                out is Ok && final(self).root() == document::with_node(
                    old(self).root(),
                    profile as int,
                    "schedule"@,
                    Node::Inline(schedule_table(schedule)),
                )
            } else {
                out matches Err(e) && e@ == table_fault(old(self).root(), profile as int)
                    && final(self).root() == old(self).root()
            },
            final(self).document() == if out is Ok {
                schedule_written(old(self).document(), profile as int, schedule)
            } else {
                old(self).document()
            },
    {
        if let Some(error) = self.refuse(profile) {
            return Err(error);
        }
        write_schedule(&mut self.document, profile, schedule);
        Ok(())
    }

    /// Clears a profile's schedule, so it only runs when invoked by hand.
    ///
    /// # Errors
    ///
    /// If the profile does not exist.
    pub fn clear_schedule(&mut self, profile: usize) -> (out: Result<(), EditError>)
        ensures
            final(self).file() == old(self).file(),
            if document::has_table(old(self).root(), profile as int) {
                out is Ok && final(self).root() == document::with_table(
                    old(self).root(),
                    profile as int,
                    document::table_at(old(self).root(), profile as int).remove("schedule"@),
                )
            } else {
                out matches Err(e) && e@ == table_fault(old(self).root(), profile as int)
                    && final(self).root() == old(self).root()
            },
            final(self).document() == if out is Ok {
                document::key_removed(old(self).document(), profile as int, "schedule"@)
            } else {
                old(self).document()
            },
    {
        if let Some(error) = self.refuse(profile) {
            return Err(error);
        }
        remove_key(&mut self.document, profile, "schedule");
        Ok(())
    }

    /// Whether a profile carries a `schedule` key at all, without validating it -
    /// that is `config check`'s job.
    #[must_use]
    pub fn has_schedule(&self, profile: usize) -> (out: bool)
        ensures
            out == (document::has_table(self.root(), profile as int) && document::table_at(
                self.root(),
                profile as int,
            ).dom().contains("schedule"@)),
    {
        self.has_profile(profile) && has_key(&self.document, profile, "schedule")
    }
}

/// Whether what was read of a list's fields is what they hold.
pub open spec fn fields_read(
    read: Option<Vec<Option<Scalar>>>,
    nodes: Seq<Node>,
    field: Seq<char>,
) -> bool {
    read matches Some(items) && items@.len() == nodes.len() && forall|k: int|
        0 <= k < items@.len() ==> document::field_reads_as(
            nodes[k],
            field,
            #[trigger] items@[k],
        )
}

/// The place of the first remote of a name, or the length of the list where none has it.
pub open spec fn named_at(list: Seq<Node>, name: Seq<char>) -> int
    decreases list.len(),
{
    if list.len() == 0 {
        0
    } else if is_named(list[0], name) {
        0
    } else {
        1 + named_at(list.skip(1), name)
    }
}

pub open spec fn is_named(node: Node, name: Seq<char>) -> bool {
    node matches Node::Inline(table) && text_in(table, "name"@) == Some(name)
}

fn name_place(names: &Option<Vec<Option<Scalar>>>, name: &str, nodes: Ghost<Seq<Node>>) -> (out:
    Option<usize>)
    requires
        fields_read(*names, nodes@, "name"@),
    ensures
        match out {
            Some(i) => i == named_at(nodes@, name@) && i < nodes@.len(),
            None => named_at(nodes@, name@) == nodes@.len(),
        },
{
    let items = match names {
        Some(items) => items,
        None => return None,
    };
    let mut i: usize = 0;
    assert(nodes@.skip(0) =~= nodes@);
    while i < items.len()
        invariant
            i <= items@.len(),
            items@.len() == nodes@.len(),
            forall|k: int|
                0 <= k < items@.len() ==> document::field_reads_as(
                    nodes@[k],
                    "name"@,
                    #[trigger] items@[k],
                ),
            named_at(nodes@, name@) == i + named_at(nodes@.skip(i as int), name@),
        decreases items@.len() - i,
    {
        assert(nodes@.skip(i as int)[0] == nodes@[i as int]);
        assert(document::field_reads_as(nodes@[i as int], "name"@, items@[i as int]));
        if let Some(Scalar::Text(found)) = &items[i] {
            if same(found, name) {
                return Some(i);
            }
        }
        assert(nodes@.skip(i as int).skip(1) =~= nodes@.skip(i + 1));
        i += 1;
    }
    None
}

/// The place of a text among what was read of a list.
fn place_of(items: &[Option<String>], value: &str, nodes: Ghost<Seq<Node>>) -> (out: Option<usize>)
    requires
        items@.len() == nodes@.len(),
        forall|i: int|
            0 <= i < items@.len() ==> match (#[trigger] items@[i]) {
                Some(s) => nodes@[i] == Node::Text(s@),
                None => !(nodes@[i] is Text),
            },
    ensures
        match out {
            Some(i) => i == text::position(nodes@, Node::Text(value@)) && i < nodes@.len()
                && nodes@.contains(Node::Text(value@)),
            None => text::position(nodes@, Node::Text(value@)) == nodes@.len() && !nodes@.contains(
                Node::Text(value@),
            ),
        },
{
    let ghost wanted = Node::Text(value@);
    let mut i: usize = 0;
    assert(nodes@.skip(0) =~= nodes@);
    while i < items.len()
        invariant
            i <= items@.len(),
            items@.len() == nodes@.len(),
            wanted == Node::Text(value@),
            forall|i: int|
                0 <= i < items@.len() ==> match (#[trigger] items@[i]) {
                    Some(s) => nodes@[i] == Node::Text(s@),
                    None => !(nodes@[i] is Text),
                },
            forall|k: int| 0 <= k < i ==> #[trigger] nodes@[k] != wanted,
            text::position(nodes@, wanted) == i + text::position(nodes@.skip(i as int), wanted),
        decreases items@.len() - i,
    {
        let ghost found = items@[i as int];
        assert(nodes@.skip(i as int)[0] == nodes@[i as int]);
        if let Some(s) = &items[i] {
            if same(s, value) {
                assert(nodes@[i as int] == wanted);
                return Some(i);
            }
        }
        assert(nodes@.skip(i as int).skip(1) =~= nodes@.skip(i + 1));
        i += 1;
    }
    None
}

fn remote_entry(
    name: &Option<Scalar>,
    path: Option<&Scalar>,
    optional: Option<&Scalar>,
    trusted: Option<&Scalar>,
    tolerance: Option<&Scalar>,
    node: Ghost<Node>,
) -> (out: Option<RemoteEntry>)
    requires
        document::field_reads_as(node@, "name"@, *name),
        document::field_reads_as(node@, "path"@, own(path)),
        document::field_reads_as(node@, "optional"@, own(optional)),
        document::field_reads_as(node@, "trust_ownership"@, own(trusted)),
        document::field_reads_as(node@, "behind_tolerance"@, own(tolerance)),
    ensures
        match out {
            Some(remote) => remote_in(node@) == Some(remote@),
            None => remote_in(node@) is None,
        },
{
    let name = match name {
        Some(Scalar::Text(name)) => name.clone(),
        _ => return None,
    };
    let path = match path {
        Some(Scalar::Text(path)) => path.clone(),
        _ => return None,
    };
    let optional = match optional {
        Some(Scalar::Flag(said)) => *said,
        _ => false,
    };
    let trust_ownership = match trusted {
        Some(Scalar::Flag(said)) => *said,
        _ => false,
    };
    let behind_tolerance: Option<u32> = match tolerance {
        Some(Scalar::Whole(n)) => {
            if 0 <= *n && *n <= 4_294_967_295 {
                Some(*n as u32)
            } else {
                None
            }
        },
        _ => None,
    };
    Some(RemoteEntry { name, path, optional, trust_ownership, behind_tolerance })
}

/// A borrowed value, by itself.
pub open spec fn own(s: Option<&Scalar>) -> Option<Scalar> {
    match s {
        Some(s) => Some(*s),
        None => None,
    }
}

fn write_schedule(document: &mut toml_edit::DocumentMut, profile: usize, schedule: Schedule)
    requires
        document::has_table(document::root_of(*old(document)), profile as int),
    ensures
        document::root_of(*final(document)) == document::with_node(
            document::root_of(*old(document)),
            profile as int,
            "schedule"@,
            Node::Inline(schedule_table(schedule)),
        ),
        *final(document) == schedule_written(*old(document), profile as int, schedule),
{
    match schedule {
        Schedule::Daily { at } => {
            let shown = at.text();
            let pairs: Vec<(&str, &str)> = vec![("at", shown.as_str())];
            proof {
                reveal_with_fuel(document::text_table, 2);
                assert(document::text_views(pairs@) =~= seq![("at"@, at.shown())]);
            }
            set_nested(document, profile, "schedule", "daily", &pairs);
        },
        Schedule::Weekly { day, at } => {
            let shown = at.text();
            let pairs: Vec<(&str, &str)> = vec![("day", day.as_str()), ("at", shown.as_str())];
            proof {
                reveal_with_fuel(document::text_table, 3);
                assert(pairs@.drop_last().drop_last() =~= Seq::empty());
                assert(document::text_views(pairs@) =~= seq![
                    ("day"@, day.word()),
                    ("at"@, at.shown()),
                ]);
            }
            set_nested(document, profile, "schedule", "weekly", &pairs);
        },
        Schedule::Every(every) => {
            let shown = every_spec(every);
            let pairs: Vec<(&str, &str)> = vec![("every", shown.as_str())];
            proof {
                reveal_with_fuel(document::text_table, 2);
                assert(document::text_views(pairs@) =~= seq![
                    ("every"@, every_text(every.secs as nat)),
                ]);
            }
            set_inline(document, profile, "schedule", &pairs);
        },
    }
}

/// Appends the table a new profile is written as, one entry per line in its lists - a wrapped
/// single line is unreadable past a handful of entries.
fn build_profile_table(document: &mut toml_edit::DocumentMut, new: &NewProfile)
    requires
        document::tables_in(document::root_of(*old(document))) is Some,
    ensures
        document::root_of(*final(document)) == document::with_tables(
            document::root_of(*old(document)),
            document::tables_in(document::root_of(*old(document)))->0.push(profile_table(*new)),
        ),
        *final(document) == profile_written(*old(document), *new),
{
    let ghost root = document::root_of(*document);
    let ghost tables = document::tables_in(root)->0;
    let at: usize = match count_tables(document) {
        Some(at) => at,
        None => return,
    };
    push_table(document);
    let ghost mut built: Table = Map::empty();
    proof {
        lemma_last(root, tables, built);
    }
    set_scalar(document, at, "name", &Scalar::Text(new.name.clone()));
    proof {
        lemma_last_changed(root, tables, built, "name"@, Node::Text(new.name@));
        built = built.insert("name"@, Node::Text(new.name@));
    }
    if new.watch.len() > 0 {
        write_texts(document, at, "watch", &new.watch);
        proof {
            let list = Node::List(text_nodes(new.watch@, new.watch@.len() as int));
            lemma_last_changed(root, tables, built, "watch"@, list);
            built = built.insert("watch"@, list);
        }
    }
    if new.remotes.len() > 0 {
        write_remotes(document, at, "remotes", &new.remotes);
        proof {
            let list = Node::List(remote_nodes(new.remotes@, new.remotes@.len() as int));
            lemma_last_changed(root, tables, built, "remotes"@, list);
            built = built.insert("remotes"@, list);
        }
    }
    if let Some(schedule) = new.schedule {
        write_schedule(document, at, schedule);
        proof {
            let node = Node::Inline(schedule_table(schedule));
            lemma_last_changed(root, tables, built, "schedule"@, node);
            built = built.insert("schedule"@, node);
        }
    }
    if new.local_only {
        set_scalar(document, at, "local_only", &Scalar::Flag(true));
        proof {
            lemma_last_changed(root, tables, built, "local_only"@, Node::Flag(true));
            built = built.insert("local_only"@, Node::Flag(true));
        }
    }
}

/// What the last of a document's tables is.
proof fn lemma_last(root: Table, tables: Seq<Table>, table: Table)
    ensures
        ({
            let made = document::with_tables(root, tables.push(table));
            &&& document::tables_in(made) == Some(tables.push(table))
            &&& document::has_table(made, tables.len() as int)
            &&& document::table_at(made, tables.len() as int) == table
        }),
{
}

/// What an edit of the last of a document's tables comes to.
proof fn lemma_last_changed(
    root: Table,
    tables: Seq<Table>,
    table: Table,
    key: Seq<char>,
    node: Node,
)
    ensures
        document::with_node(
            document::with_tables(root, tables.push(table)),
            tables.len() as int,
            key,
            node,
        ) == document::with_tables(root, tables.push(table.insert(key, node))),
        document::has_table(
            document::with_tables(root, tables.push(table.insert(key, node))),
            tables.len() as int,
        ),
        document::table_at(
            document::with_tables(root, tables.push(table.insert(key, node))),
            tables.len() as int,
        ) == table.insert(key, node),
{
    let made = document::with_tables(root, tables.push(table));
    let next = table.insert(key, node);
    assert(tables.push(table).update(tables.len() as int, next) =~= tables.push(next));
    assert(document::with_tables(made, tables.push(next)) =~= document::with_tables(
        root,
        tables.push(next),
    ));
}

/// What an edit of a list comes to when it follows another edit of the same list.
pub proof fn lemma_list_changed(root: Table, profile: int, key: Seq<char>, first: Node, second: Node)
    requires
        document::has_table(root, profile),
    ensures
        document::has_table(document::with_node(root, profile, key, first), profile),
        document::table_at(document::with_node(root, profile, key, first), profile)
            == document::table_at(root, profile).insert(key, first),
        document::with_node(document::with_node(root, profile, key, first), profile, key, second)
            == document::with_node(root, profile, key, second),
{
    let tables = document::tables_in(root)->0;
    let table = document::table_at(root, profile);
    let a = table.insert(key, first);
    let b = table.insert(key, second);
    assert(a.insert(key, second) =~= b);
    assert(tables.update(profile, a).update(profile, b) =~= tables.update(profile, b));
    assert(document::with_tables(
        document::with_tables(root, tables.update(profile, a)),
        tables.update(profile, b),
    ) =~= document::with_tables(root, tables.update(profile, b)));
}

fn write_texts(
    document: &mut toml_edit::DocumentMut,
    profile: usize,
    key: &str,
    texts: &[String],
)
    requires
        document::has_table(document::root_of(*old(document)), profile as int),
    ensures
        document::root_of(*final(document)) == document::with_node(
            document::root_of(*old(document)),
            profile as int,
            key@,
            Node::List(text_nodes(texts@, texts@.len() as int)),
        ),
        *final(document) == texts_written(*old(document), profile as int, key@, texts@),
{
    let ghost root = document::root_of(*document);
    new_list(document, profile, key);
    let ghost made = *document;
    let mut i: usize = 0;
    proof {
        lemma_list_changed(root, profile as int, key@, Node::List(Seq::empty()), Node::Other);
    }
    while i < texts.len()
        invariant
            i <= texts@.len(),
            document::has_table(root, profile as int),
            document::root_of(*document) == document::with_node(
                root,
                profile as int,
                key@,
                Node::List(text_nodes(texts@, i as int)),
            ),
            *document == lines_added(made, profile as int, key@, texts@, i as int),
            document::list_at(document::root_of(*document), profile as int, key@) == Some(
                text_nodes(texts@, i as int),
            ),
        decreases texts@.len() - i,
    {
        push_text(document, profile, key, &texts[i]);
        proof {
            let list = Node::List(text_nodes(texts@, i as int));
            let more = Node::List(text_nodes(texts@, i + 1));
            lemma_list_changed(root, profile as int, key@, list, more);
            lemma_list_changed(root, profile as int, key@, more, more);
        }
        indent_last(document, profile, key, "\n  ");
        i += 1;
    }
    close_list(document, profile, key, "\n");
}

fn write_remotes(
    document: &mut toml_edit::DocumentMut,
    profile: usize,
    key: &str,
    remotes: &[NewRemote],
)
    requires
        document::has_table(document::root_of(*old(document)), profile as int),
    ensures
        document::root_of(*final(document)) == document::with_node(
            document::root_of(*old(document)),
            profile as int,
            key@,
            Node::List(remote_nodes(remotes@, remotes@.len() as int)),
        ),
        *final(document) == remotes_written(*old(document), profile as int, key@, remotes@),
{
    let ghost root = document::root_of(*document);
    new_list(document, profile, key);
    let ghost made = *document;
    let mut i: usize = 0;
    proof {
        lemma_list_changed(root, profile as int, key@, Node::List(Seq::empty()), Node::Other);
    }
    while i < remotes.len()
        invariant
            i <= remotes@.len(),
            document::has_table(root, profile as int),
            document::root_of(*document) == document::with_node(
                root,
                profile as int,
                key@,
                Node::List(remote_nodes(remotes@, i as int)),
            ),
            *document == remotes_added(made, profile as int, key@, remotes@, i as int),
            document::list_at(document::root_of(*document), profile as int, key@) == Some(
                remote_nodes(remotes@, i as int),
            ),
        decreases remotes@.len() - i,
    {
        let pairs = remote_pairs(&remotes[i]);
        push_inline(document, profile, key, &pairs);
        proof {
            let list = Node::List(remote_nodes(remotes@, i as int));
            let more = Node::List(remote_nodes(remotes@, i + 1));
            lemma_list_changed(root, profile as int, key@, list, more);
            lemma_list_changed(root, profile as int, key@, more, more);
        }
        indent_last(document, profile, key, "\n  ");
        i += 1;
    }
    close_list(document, profile, key, "\n");
}

/// The TOML block `profile add --dry-run` would append, without touching a file: the text of a
/// document that holds the new profile and nothing else.
#[must_use]
pub fn preview_profile(new: &NewProfile) -> (out: String)
    ensures
        exists|empty: toml_edit::DocumentMut|
            document::root_of(empty) == Map::<Seq<char>, Node>::empty() && out@
                == document::written_as(#[trigger] profile_added(empty, *new))
                && document::root_of(profile_added(empty, *new)) == document::with_tables(
                Map::empty(),
                seq![profile_table(*new)],
            ),
{
    let mut document = new_document();
    let ghost empty = document;
    new_tables(&mut document);
    proof {
        assert(document::tables_in(document::root_of(document)) == Some(Seq::<Table>::empty()));
    }
    build_profile_table(&mut document, new);
    proof {
        let none: Table = Map::empty();
        assert(Seq::<Table>::empty().push(profile_table(*new)) =~= seq![profile_table(*new)]);
        assert(document::with_tables(
            document::with_tables(none, Seq::empty()),
            seq![profile_table(*new)],
        ) =~= document::with_tables(none, seq![profile_table(*new)]));
    }
    assert(document == profile_added(empty, *new));
    write_document(&document)
}

/// The starter file `config init` writes.
///
/// Every line somebody would want to change is present and explained, because a
/// config whose options you have to look up is a config people leave at its defaults.
pub const STARTER: &'static str = "# Tycho captures what you list here into a git store and pushes that store to\n# folders that survive this machine. `tycho config check` validates this file.\nversion = 1\n# This checkout's path, so `tycho __bootstrap` does not have to guess it.\n# source = \"~/Developer/tycho\"\n\n# Nothing is watched until a profile exists. `tycho profile add` writes one, and\n# `tycho config check` prints the exact command - everything below is what it\n# produces, so hand-editing instead is equally supported.\n#\n# [[profile]]\n# name = \"personal\"\n#\n# Everything under these is captured. A git repository inside one is captured\n# with its full history, plus what git alone could never bring back:\n# uncommitted edits, untracked files, and anything gitignored.\n# watch = [\n#   \"~/Documents\",\n# ]\n#\n# Paths and globs to leave out. `tycho run --dry-run` reports every rule that\n# matched nothing, which is how a typo surfaces before it costs you gigabytes.\n# ignore = []\n#\n# Exceptions to the line above, for something inside a path you ignored.\n# reinclude = []\n#\n# Where the backup goes: a synced cloud folder, or a drive. Tycho creates the\n# repository inside it on first run and writes nowhere else. Mark a removable\n# drive optional so being unplugged is a warning rather than a failure, and add\n# trust_ownership on one that records none - exFAT and FAT32 - which git\n# otherwise refuses to operate on.\n#\n# `name` is a label for this destination, not a location - `path` finds the\n# drive. It is what `status` and `doctor` call the remote, so make it read like\n# the thing printed on the drive. Renaming it later starts that remote's\n# history over: the state file keys last-seen and behind-count by the name, so\n# a rename shows as `unseen` and re-verifies from scratch.\n# remotes = [\n#   { name = \"drive\", path = \"~/Library/CloudStorage/GoogleDrive-you/Backups\" },\n#   { name = \"t7\", path = \"/Volumes/T7/tycho\", optional = true, trust_ownership = true },\n# ]\n#\n# When it runs by itself, once `tycho service install` has been run.\n# schedule = { weekly = { day = \"sunday\", at = \"12:00\" } }\n";

#[must_use]
pub fn starter() -> (out: String)
    ensures
        out@ == STARTER@,
{
    STARTER.to_owned()
}

// ---------------------------------------------------------------------------
// Laws
// ---------------------------------------------------------------------------

proof fn lemma_position_behind<T>(s: Seq<T>, x: T)
    requires
        !s.contains(x),
    ensures
        text::position(s.push(x), x) == s.len(),
    decreases s.len(),
{
    if s.len() == 0 {
        assert(s.push(x)[0] == x);
    } else {
        assert(s.contains(s[0]));
        let rest = s.skip(1);
        assert forall|y: T| rest.contains(y) implies s.contains(y) by {
            let k = choose|k: int| 0 <= k < rest.len() && rest[k] == y;
            assert(s[k + 1] == y);
        }
        assert(s.push(x).skip(1) =~= rest.push(x));
        lemma_position_behind(rest, x);
    }
}

proof fn lemma_texts_prefix(list: Seq<Node>, x: Node, n: int)
    requires
        0 <= n <= list.len(),
    ensures
        texts_in(list.push(x), n) == texts_in(list, n),
    decreases n,
{
    if n > 0 {
        lemma_texts_prefix(list, x, n - 1);
        assert(list.push(x)[n - 1] == list[n - 1]);
    }
}

/// What was added is listed behind what was there, no other list changes, and adding it again
/// finds it.
pub proof fn an_added_entry_is_listed(
    root: Table,
    profile: int,
    key: Seq<char>,
    other: Seq<char>,
    value: Seq<char>,
)
    requires
        document::list_at(root, profile, key) is Some,
    ensures
        ({
            let list = document::list_at(root, profile, key)->0;
            let added = document::with_node(
                root,
                profile,
                key,
                Node::List(list.push(Node::Text(value))),
            );
            &&& entries_in(added, profile, key) == entries_in(root, profile, key).push(value)
            &&& list_edited(added, profile, key).contains(Node::Text(value))
            &&& with_list(added, profile, key) == added
            &&& other != key ==> entries_in(added, profile, other) == entries_in(
                root,
                profile,
                other,
            )
        }),
{
    let list = document::list_at(root, profile, key)->0;
    let longer = list.push(Node::Text(value));
    lemma_list_changed(root, profile, key, Node::List(longer), Node::Other);
    lemma_texts_prefix(list, Node::Text(value), list.len() as int);
    assert(longer[list.len() as int] == Node::Text(value));
}

/// What was added is in the list, and adding it again finds it there: the second time there is
/// nothing to change.
pub proof fn adding_again_changes_nothing(
    root: Table,
    profile: int,
    key: Seq<char>,
    value: Seq<char>,
)
    requires
        list_fault(root, profile, key) is None,
    ensures
        ({
            let added = with_entry(root, profile, key, value);
            &&& list_fault(added, profile, key) is None
            &&& list_edited(added, profile, key).contains(Node::Text(value))
            &&& with_entry(added, profile, key, value) == added
            &&& entries_in(added, profile, key).contains(value)
        }),
{
    let made = with_list(root, profile, key);
    let list = list_edited(root, profile, key);
    let added = with_entry(root, profile, key, value);
    if !document::table_at(root, profile).dom().contains(key) {
        lemma_list_changed(root, profile, key, Node::List(Seq::empty()), Node::Other);
    }
    assert(document::list_at(made, profile, key) == Some(list));
    if list.contains(Node::Text(value)) {
        assert(with_list(made, profile, key) == made);
        lemma_texts_hold(list, value, list.len() as int);
    } else {
        an_added_entry_is_listed(made, profile, key, key, value);
        assert(entries_in(added, profile, key).last() == value);
    }
}

proof fn lemma_texts_hold(list: Seq<Node>, value: Seq<char>, n: int)
    requires
        0 <= n <= list.len(),
        exists|i: int| 0 <= i < n && list[i] == Node::Text(value),
    ensures
        texts_in(list, n).contains(value),
    decreases n,
{
    let i = choose|i: int| 0 <= i < n && list[i] == Node::Text(value);
    if i < n - 1 {
        lemma_texts_hold(list, value, n - 1);
        let before = texts_in(list, n - 1);
        let k = choose|k: int| 0 <= k < before.len() && before[k] == value;
        assert(texts_in(list, n)[k] == value);
    } else {
        assert(texts_in(list, n).last() == value);
    }
}

/// Removing what was just added gives back the file as it was.
pub proof fn removing_undoes_adding(root: Table, profile: int, key: Seq<char>, value: Seq<char>)
    requires
        document::list_at(root, profile, key) is Some,
        !document::list_at(root, profile, key)->0.contains(Node::Text(value)),
    ensures
        ({
            let list = document::list_at(root, profile, key)->0;
            let longer = list.push(Node::Text(value));
            let added = document::with_node(root, profile, key, Node::List(longer));
            let at = text::position(longer, Node::Text(value));
            &&& at < longer.len()
            &&& document::with_node(added, profile, key, Node::List(longer.remove(at))) == root
        }),
{
    let list = document::list_at(root, profile, key)->0;
    let longer = list.push(Node::Text(value));
    lemma_position_behind(list, Node::Text(value));
    assert(longer.remove(list.len() as int) =~= list);
    lemma_list_changed(root, profile, key, Node::List(longer), Node::List(list));
    let table = document::table_at(root, profile);
    assert(table.insert(key, Node::List(list)) =~= table);
    let tables = document::tables_in(root)->0;
    assert(tables.update(profile, table) =~= tables);
    assert(document::with_tables(root, tables) =~= root);
}

/// A remote reads back as it was written.
pub proof fn remotes_round_trip(remote: NewRemote)
    ensures
        remote_in(Node::Inline(remote_table(remote))) == Some(
            RemoteEntryView {
                name: remote.name@,
                path: remote.path@,
                optional: remote.optional,
                trust_ownership: remote.trust_ownership,
                behind_tolerance: remote.behind_tolerance,
            },
        ),
{
    reveal_strlit("name");
    reveal_strlit("path");
    reveal_strlit("optional");
    reveal_strlit("trust_ownership");
    reveal_strlit("behind_tolerance");
    assert("name"@.len() == 4 && "path"@.len() == 4 && "name"@[0] != "path"@[0]);
    assert("optional"@.len() == 8);
    assert("trust_ownership"@.len() == 15);
    assert("behind_tolerance"@.len() == 16);
}

/// An interval of whole minutes reads back from the form it is written in.
pub proof fn intervals_round_trip(seconds: u64)
    requires
        seconds > 0,
        seconds % 60 == 0,
    ensures
        schedule::interval_of(every_text(seconds as nat)) == Ok::<Duration, Seq<char>>(
            Duration { secs: seconds },
        ),
{
    reveal_strlit("h");
    reveal_strlit("m");
    let n = seconds as nat;
    let hours = n % 3600 == 0;
    let count = if hours {
        n / 3600
    } else {
        n / 60
    };
    let unit = if hours {
        "h"@
    } else {
        "m"@
    };
    let written = every_text(n);
    assert(written == text::decimal_text(count) + unit);
    text::lemma_decimal_reads_back(count);
    text::decimals_round_trip(count, u64::MAX as nat);
    assert(text::is_digit(text::decimal_text(count)[0]));
    assert(written.drop_last() =~= text::decimal_text(count));
    assert(written.last() == unit[0]);
    assert(written[0] == text::decimal_text(count)[0]);
    lines::lemma_untrimmed(written);
}

/// The inline table that a schedule in a config file is.
pub open spec fn raw_table(raw: RawSchedule) -> Table {
    match raw {
        RawSchedule::Daily { at } => Map::<Seq<char>, Node>::empty().insert(
            "daily"@,
            Node::Inline(Map::<Seq<char>, Node>::empty().insert("at"@, Node::Text(at@))),
        ),
        RawSchedule::Weekly { day, at } => Map::<Seq<char>, Node>::empty().insert(
            "weekly"@,
            Node::Inline(
                Map::<Seq<char>, Node>::empty().insert("day"@, Node::Text(day@)).insert(
                    "at"@,
                    Node::Text(at@),
                ),
            ),
        ),
        RawSchedule::Every(text) => Map::<Seq<char>, Node>::empty().insert(
            "every"@,
            Node::Text(text@),
        ),
    }
}

/// A schedule that was written into the config is read out of it again.
pub proof fn a_written_schedule_reads_back(wanted: Schedule, raw: RawSchedule)
    requires
        raw_table(raw) == schedule_table(wanted),
        match wanted {
            Schedule::Daily { at } => at.wf(),
            Schedule::Weekly { at, .. } => at.wf(),
            Schedule::Every(every) => every.secs > 0 && every.secs % 60 == 0,
        },
    ensures
        validate::table_schedule(raw) == Ok::<Schedule, Seq<char>>(wanted),
{
    reveal_strlit("daily");
    reveal_strlit("weekly");
    reveal_strlit("every");
    reveal_strlit("at");
    reveal_strlit("day");
    let there = raw_table(raw);
    assert("daily"@.len() == 5 && "weekly"@.len() == 6);
    assert("daily"@[0] != "every"@[0]);
    assert("at"@.len() != "day"@.len());
    match wanted {
        Schedule::Daily { at } => {
            assert(there.dom().contains("daily"@));
            let inner = there["daily"@]->Inline_0;
            assert(inner["at"@] == Node::Text(at.shown()));
            schedule::times_round_trip(at);
        },
        Schedule::Weekly { day, at } => {
            assert(there.dom().contains("weekly"@));
            let inner = there["weekly"@]->Inline_0;
            assert(inner["at"@] == Node::Text(at.shown()));
            assert(inner["day"@] == Node::Text(day.word()));
            schedule::times_round_trip(at);
            schedule::days_round_trip(day);
        },
        Schedule::Every(every) => {
            assert(there.dom().contains("every"@));
            assert(there["every"@] == Node::Text(every_text(every.secs as nat)));
            intervals_round_trip(every.secs);
        },
    }
}

/// Adding an entry changes one list of one profile: every other profile, and every other key of
/// this one, stays as it was.
pub proof fn an_edit_leaves_the_rest(
    root: Table,
    profile: int,
    key: Seq<char>,
    value: Seq<char>,
    other: int,
    elsewhere: Seq<char>,
)
    requires
        list_fault(root, profile, key) is None,
        document::has_table(root, other),
    ensures
        ({
            let after = with_entry(root, profile, key, value);
            &&& document::tables_in(after) is Some
            &&& document::tables_in(after)->0.len() == document::tables_in(root)->0.len()
            &&& other != profile ==> document::table_at(after, other) == document::table_at(
                root,
                other,
            )
            &&& elsewhere != key ==> document::table_at(after, profile).dom().contains(elsewhere)
                == document::table_at(root, profile).dom().contains(elsewhere)
            &&& elsewhere != key && document::table_at(root, profile).dom().contains(elsewhere)
                ==> document::table_at(after, profile)[elsewhere] == document::table_at(
                root,
                profile,
            )[elsewhere]
            &&& forall|top: Seq<char>|
                top != "profile"@ ==> #[trigger] after.dom().contains(top) == root.dom().contains(
                    top,
                )
            &&& forall|top: Seq<char>|
                top != "profile"@ && root.dom().contains(top) ==> #[trigger] after[top] == root[top]
        }),
{
    let made = with_list(root, profile, key);
    let tables = document::tables_in(root)->0;
    if !document::table_at(root, profile).dom().contains(key) {
        lemma_list_changed(root, profile, key, Node::List(Seq::empty()), Node::Other);
        assert(document::tables_in(made)->0 =~= tables.update(
            profile,
            document::table_at(root, profile).insert(key, Node::List(Seq::empty())),
        ));
    }
    let items = list_edited(root, profile, key);
    if !items.contains(Node::Text(value)) {
        lemma_list_changed(
            made,
            profile,
            key,
            Node::List(items.push(Node::Text(value))),
            Node::Other,
        );
    }
}

proof fn lemma_text_nodes(texts: Seq<String>, n: int)
    requires
        0 <= n <= texts.len(),
    ensures
        text_nodes(texts, n).len() == n,
        texts_in(text_nodes(texts, n), n) == texts.take(n).map_values(|s: String| s@),
    decreases n,
{
    let all = texts.take(n).map_values(|s: String| s@);
    if n > 0 {
        lemma_text_nodes(texts, n - 1);
        let nodes = text_nodes(texts, n);
        assert(nodes.drop_last() =~= text_nodes(texts, n - 1));
        lemma_texts_before(nodes, text_nodes(texts, n - 1), n - 1);
        assert(texts_in(nodes, n) =~= all);
    } else {
        assert(texts_in(text_nodes(texts, n), n) =~= all);
    }
}

proof fn lemma_texts_before(a: Seq<Node>, b: Seq<Node>, n: int)
    requires
        0 <= n <= a.len(),
        n <= b.len(),
        forall|i: int| 0 <= i < n ==> a[i] == b[i],
    ensures
        texts_in(a, n) == texts_in(b, n),
    decreases n,
{
    if n > 0 {
        lemma_texts_before(a, b, n - 1);
    }
}

proof fn lemma_remotes_before(a: Seq<Node>, b: Seq<Node>, n: int)
    requires
        0 <= n <= a.len(),
        n <= b.len(),
        forall|i: int| 0 <= i < n ==> a[i] == b[i],
    ensures
        remotes_read(a, n) == remotes_read(b, n),
    decreases n,
{
    if n > 0 {
        lemma_remotes_before(a, b, n - 1);
    }
}

/// The remote that a new one is read as.
pub open spec fn remote_as_given(remote: NewRemote) -> RemoteEntryView {
    RemoteEntryView {
        name: remote.name@,
        path: remote.path@,
        optional: remote.optional,
        trust_ownership: remote.trust_ownership,
        behind_tolerance: remote.behind_tolerance,
    }
}

proof fn lemma_remote_nodes(remotes: Seq<NewRemote>, n: int)
    requires
        0 <= n <= remotes.len(),
    ensures
        remote_nodes(remotes, n).len() == n,
        remotes_read(remote_nodes(remotes, n), n) == remotes.take(n).map_values(
            |r: NewRemote| remote_as_given(r),
        ),
    decreases n,
{
    let all = remotes.take(n).map_values(|r: NewRemote| remote_as_given(r));
    if n > 0 {
        lemma_remote_nodes(remotes, n - 1);
        let nodes = remote_nodes(remotes, n);
        lemma_remotes_before(nodes, remote_nodes(remotes, n - 1), n - 1);
        remotes_round_trip(remotes[n - 1]);
        assert(remotes_read(nodes, n) =~= all);
    } else {
        assert(remotes_read(remote_nodes(remotes, n), n) =~= all);
    }
}

/// A new profile reads back as it was given: its name, its roots and its remotes in their order, and
/// that it stays here. What was not given is not written.
pub proof fn a_new_profile_reads_back(new: NewProfile)
    ensures
        ({
            let t = profile_table(new);
            &&& text_in(t, "name"@) == Some(new.name@)
            &&& t.dom().contains("watch"@) == (new.watch@.len() > 0)
            &&& new.watch@.len() > 0 ==> (t["watch"@] matches Node::List(list) && texts_in(
                list,
                list.len() as int,
            ) == new.watch@.map_values(|s: String| s@))
            &&& t.dom().contains("remotes"@) == (new.remotes@.len() > 0)
            &&& new.remotes@.len() > 0 ==> (t["remotes"@] matches Node::List(list) && remotes_read(
                list,
                list.len() as int,
            ) == new.remotes@.map_values(|r: NewRemote| remote_as_given(r)))
            &&& t.dom().contains("schedule"@) == new.schedule is Some
            &&& new.schedule matches Some(schedule) ==> t["schedule"@] == Node::Inline(
                schedule_table(schedule),
            )
            &&& flag_in(t, "local_only"@) == new.local_only
        }),
{
    reveal_strlit("name");
    reveal_strlit("watch");
    reveal_strlit("remotes");
    reveal_strlit("schedule");
    reveal_strlit("local_only");
    assert("name"@.len() == 4 && "watch"@.len() == 5 && "remotes"@.len() == 7 && "schedule"@.len()
        == 8 && "local_only"@.len() == 10);
    lemma_text_nodes(new.watch@, new.watch@.len() as int);
    lemma_remote_nodes(new.remotes@, new.remotes@.len() as int);
    assert(new.watch@.take(new.watch@.len() as int) =~= new.watch@);
    assert(new.remotes@.take(new.remotes@.len() as int) =~= new.remotes@);
}

/// A profile is meant by its name, the first that has it; without one it is the only profile there
/// is, and never one of several.
pub proof fn a_profile_is_meant_by_its_name(names: Seq<Seq<char>>, name: Seq<char>)
    ensures
        which_of(names, Some(name)) matches Ok(at) ==> 0 <= at < names.len() && names[at] == name
            && forall|i: int| 0 <= i < at ==> names[i] != name,
        which_of(names, Some(name)) is Ok <==> names.contains(name),
        which_of(names, None) is Ok <==> names.len() == 1,
        which_of(names, None) matches Ok(at) ==> at == 0,
        which_of(names, None) matches Err(e) ==> (e is NoProfiles <==> names.len() == 0),
{
    text::lemma_position_bounds(names, name);
    if names.contains(name) {
        let i = choose|i: int| 0 <= i < names.len() && names[i] == name;
        if i < text::position(names, name) {
            assert(names[i] != name);
        }
    }
}

/// A remote is found at the first entry of its name.
pub proof fn a_remote_is_found_by_its_name(list: Seq<Node>, name: Seq<char>)
    ensures
        0 <= named_at(list, name) <= list.len(),
        named_at(list, name) < list.len() ==> (list[named_at(list, name)] matches Node::Inline(
            table,
        ) && text_in(table, "name"@) == Some(name)),
        forall|i: int|
            0 <= i < named_at(list, name) ==> !((#[trigger] list[i]) matches Node::Inline(table)
                && text_in(table, "name"@) == Some(name)),
    decreases list.len(),
{
    if list.len() > 0 && !is_named(list[0], name) {
        let rest = list.skip(1);
        a_remote_is_found_by_its_name(rest, name);
        assert(named_at(list, name) < list.len() ==> list[named_at(list, name)] == rest[named_at(
            rest,
            name,
        )]);
        assert forall|i: int| 0 <= i < named_at(list, name) implies !((
        #[trigger] list[i]) matches Node::Inline(table) && text_in(table, "name"@) == Some(
            name,
        )) by {
            if i > 0 {
                assert(rest[i - 1] == list[i]);
            }
        }
    }
}

/// Where every profile has a name, the names stand in the order of the profiles.
pub proof fn names_follow_their_tables(tables: Seq<Table>, n: int)
    requires
        0 <= n <= tables.len(),
        forall|i: int| 0 <= i < n ==> text_in(#[trigger] tables[i], "name"@) is Some,
    ensures
        names_in(tables, n).len() == n,
        forall|i: int|
            0 <= i < n ==> text_in(tables[i], "name"@) == Some(#[trigger] names_in(tables, n)[i]),
    decreases n,
{
    if n > 0 {
        names_follow_their_tables(tables, n - 1);
        assert(text_in(tables[n - 1], "name"@) is Some);
        let before = names_in(tables, n - 1);
        let after = names_in(tables, n);
        assert forall|i: int| 0 <= i < n implies text_in(tables[i], "name"@) == Some(
            #[trigger] after[i],
        ) by {
            if i < n - 1 {
                assert(after[i] == before[i]);
            }
        }
    }
}

} // verus!
