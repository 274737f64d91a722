//! The TOML document behind an edit, with its comments and its layout.
//!
//! A document is `toml_edit`'s. What it holds is named here as a table of nodes, and what each
//! call does to it is said over that name. The comments and the layout a document keeps beside
//! that are seen only in the text it is written as, so what each call makes of the whole document
//! has a name too: a document is the same as another where everything it can be asked, its text
//! among it, is the same.

use vstd::prelude::*;

verus! {

#[verifier::external_type_specification]
#[verifier::external_body]
pub struct ExDocumentMut(toml_edit::DocumentMut);

/// A value of a document.
pub enum Node {
    Text(Seq<char>),
    Whole(i64),
    Flag(bool),
    List(Seq<Node>),
    Inline(Map<Seq<char>, Node>),
    /// An array of tables.
    Tables(Seq<Map<Seq<char>, Node>>),
    Other,
}

pub type Table = Map<Seq<char>, Node>;

/// A value that is no collection.
#[derive(Debug, PartialEq, Eq)]
pub enum Scalar {
    Text(String),
    Whole(i64),
    Flag(bool),
}

impl View for Scalar {
    type V = Node;

    open spec fn view(&self) -> Node {
        match self {
            Scalar::Text(s) => Node::Text(s@),
            Scalar::Whole(n) => Node::Whole(*n),
            Scalar::Flag(b) => Node::Flag(*b),
        }
    }
}

/// Whether `read` is what a node reads as: its value where it is no collection.
pub open spec fn reads_as(node: Node, read: Option<Scalar>) -> bool {
    match read {
        Some(scalar) => node == scalar@,
        None => !(node is Text) && !(node is Whole) && !(node is Flag),
    }
}

pub open spec fn pair_views(pairs: Seq<(String, Scalar)>) -> Seq<(Seq<char>, Node)> {
    pairs.map_values(|p: (String, Scalar)| (p.0@, p.1@))
}

/// The table that some pairs make, one after another.
pub open spec fn pair_table(pairs: Seq<(String, Scalar)>) -> Table
    decreases pairs.len(),
{
    if pairs.len() == 0 {
        Map::empty()
    } else {
        pair_table(pairs.drop_last()).insert(pairs.last().0@, pairs.last().1@)
    }
}

// ---------------------------------------------------------------------------
// What a document holds
// ---------------------------------------------------------------------------

/// The table at the root of a document.
pub uninterp spec fn root_of(document: toml_edit::DocumentMut) -> Map<Seq<char>, Node>;

/// The text a document is written as.
pub uninterp spec fn written_as(document: toml_edit::DocumentMut) -> Seq<char>;

/// The document that a text reads as, or what `toml_edit` says of a text that is none.
pub uninterp spec fn document_read(text: Seq<char>) -> Result<toml_edit::DocumentMut, Seq<char>>;

/// The profiles' tables, where `profile` is an array of tables.
pub open spec fn tables_in(root: Table) -> Option<Seq<Table>> {
    if root.dom().contains("profile"@) {
        match root["profile"@] {
            Node::Tables(tables) => Some(tables),
            _ => None,
        }
    } else {
        None
    }
}

/// Whether there is a table for a profile.
pub open spec fn has_table(root: Table, profile: int) -> bool {
    tables_in(root) is Some && 0 <= profile < tables_in(root)->0.len()
}

pub open spec fn table_at(root: Table, profile: int) -> Table {
    tables_in(root)->0[profile]
}

pub open spec fn with_tables(root: Table, tables: Seq<Table>) -> Table {
    root.insert("profile"@, Node::Tables(tables))
}

pub open spec fn with_table(root: Table, profile: int, table: Table) -> Table {
    with_tables(root, tables_in(root)->0.update(profile, table))
}

/// The list that stands under a key of a profile, where one does.
pub open spec fn list_at(root: Table, profile: int, key: Seq<char>) -> Option<Seq<Node>> {
    if has_table(root, profile) && table_at(root, profile).dom().contains(key) {
        match table_at(root, profile)[key] {
            Node::List(list) => Some(list),
            _ => None,
        }
    } else {
        None
    }
}

/// The document with a value under a key of a profile.
pub open spec fn with_node(root: Table, profile: int, key: Seq<char>, node: Node) -> Table {
    with_table(root, profile, table_at(root, profile).insert(key, node))
}

// ---------------------------------------------------------------------------
// Reading
// ---------------------------------------------------------------------------

/// Calls `toml_edit`'s `FromStr` for `DocumentMut`, and `TomlError`'s `Display` where that fails:
/// the document, or what is said, depends on the text alone.
#[verifier::external_body]
pub(crate) fn read_document(text: &str) -> (out: Result<toml_edit::DocumentMut, String>)
    ensures
        match out {
            Ok(document) => document_read(text@) == Ok::<toml_edit::DocumentMut, Seq<char>>(
                document,
            ),
            Err(said) => document_read(text@) == Err::<toml_edit::DocumentMut, Seq<char>>(said@),
        },
{
    text.parse::<toml_edit::DocumentMut>().map_err(|error| error.to_string())
}

/// Calls `DocumentMut`'s `Display`: the text depends on the document alone.
#[verifier::external_body]
pub(crate) fn write_document(document: &toml_edit::DocumentMut) -> (out: String)
    ensures
        out@ == written_as(*document),
{
    document.to_string()
}

/// Calls `DocumentMut::new`: the document holds nothing.
#[verifier::external_body]
pub(crate) fn new_document() -> (out: toml_edit::DocumentMut)
    ensures
        root_of(out) == pair_table(Seq::empty()),
{
    toml_edit::DocumentMut::new()
}

/// Calls `Table::contains_key`: whether the root holds a key.
#[verifier::external_body]
pub(crate) fn has_root_key(document: &toml_edit::DocumentMut, key: &str) -> (out: bool)
    ensures
        out == root_of(*document).dom().contains(key@),
{
    document.contains_key(key)
}

/// Calls `Item::as_array_of_tables` and `ArrayOfTables::len`: how many tables `profile` has,
/// where it is an array of tables.
#[verifier::external_body]
pub(crate) fn count_tables(document: &toml_edit::DocumentMut) -> (out: Option<usize>)
    ensures
        match out {
            Some(n) => tables_in(root_of(*document)) is Some && n == tables_in(
                root_of(*document),
            )->0.len(),
            None => tables_in(root_of(*document)) is None,
        },
{
    document.get("profile")?.as_array_of_tables().map(|tables| tables.len())
}

/// Calls `Table::contains_key`: whether a profile's table holds a key.
#[verifier::external_body]
pub(crate) fn has_key(document: &toml_edit::DocumentMut, profile: usize, key: &str) -> (out: bool)
    requires
        has_table(root_of(*document), profile as int),
    ensures
        out == table_at(root_of(*document), profile as int).dom().contains(key@),
{
    let tables = document["profile"].as_array_of_tables();
    tables.and_then(|tables| tables.get(profile)).is_some_and(|table| table.contains_key(key))
}

/// Calls `Table::get` and `Item::as_value`: the value under a key of a profile, where it is no
/// collection.
#[verifier::external_body]
pub(crate) fn scalar_at(document: &toml_edit::DocumentMut, profile: usize, key: &str) -> (out:
    Option<Scalar>)
    requires
        has_table(root_of(*document), profile as int),
    ensures
        ({
            let table = table_at(root_of(*document), profile as int);
            if table.dom().contains(key@) {
                reads_as(table[key@], out)
            } else {
                out is None
            }
        }),
{
    match document["profile"].as_array_of_tables()?.get(profile)?.get(key)?.as_value()? {
        toml_edit::Value::String(s) => Some(Scalar::Text(s.value().clone())),
        toml_edit::Value::Integer(n) => Some(Scalar::Whole(*n.value())),
        toml_edit::Value::Boolean(b) => Some(Scalar::Flag(*b.value())),
        _ => None,
    }
}

/// Calls `Item::as_array`, `Array::iter` and `Value::as_str`: the texts of the list under a key
/// of a profile, where it is a list, with nothing for a value that is no text.
#[verifier::external_body]
pub(crate) fn texts_at(document: &toml_edit::DocumentMut, profile: usize, key: &str) -> (out:
    Option<Vec<Option<String>>>)
    requires
        has_table(root_of(*document), profile as int),
    ensures
        match out {
            Some(items) => list_at(root_of(*document), profile as int, key@) matches Some(list)
                && items@.len() == list.len() && forall|i: int|
                0 <= i < items@.len() ==> match (#[trigger] items@[i]) {
                    Some(s) => list[i] == Node::Text(s@),
                    None => !(list[i] is Text),
                },
            None => list_at(root_of(*document), profile as int, key@) is None,
        },
{
    let array = document["profile"].as_array_of_tables()?.get(profile)?.get(key)?.as_array()?;
    Some(array.iter().map(|item| item.as_str().map(str::to_owned)).collect())
}

/// Calls `Item::as_array`, `Value::as_inline_table` and `InlineTable::get`: of each value in the
/// list under a key of a profile, what stands under another key where the value is an inline
/// table and holds no collection there.
#[verifier::external_body]
pub(crate) fn fields_at(
    document: &toml_edit::DocumentMut,
    profile: usize,
    key: &str,
    field: &str,
) -> (out: Option<Vec<Option<Scalar>>>)
    requires
        has_table(root_of(*document), profile as int),
    ensures
        match out {
            Some(items) => list_at(root_of(*document), profile as int, key@) matches Some(list)
                && items@.len() == list.len() && forall|i: int|
                0 <= i < items@.len() ==> field_reads_as(list[i], field@, #[trigger] items@[i]),
            None => list_at(root_of(*document), profile as int, key@) is None,
        },
{
    let array = document["profile"].as_array_of_tables()?.get(profile)?.get(key)?.as_array()?;
    Some(array.iter().map(|item| match item.as_inline_table()?.get(field)? {
        toml_edit::Value::String(s) => Some(Scalar::Text(s.value().clone())),
        toml_edit::Value::Integer(n) => Some(Scalar::Whole(*n.value())),
        toml_edit::Value::Boolean(b) => Some(Scalar::Flag(*b.value())),
        _ => None,
    }).collect())
}

/// Whether `read` is what a field of a node reads as.
pub open spec fn field_reads_as(node: Node, field: Seq<char>, read: Option<Scalar>) -> bool {
    match node {
        Node::Inline(table) => if table.dom().contains(field) {
            reads_as(table[field], read)
        } else {
            read is None
        },
        _ => read is None,
    }
}

// ---------------------------------------------------------------------------
// Writing
// ---------------------------------------------------------------------------

/// A document with an array of no tables under `profile`.
pub uninterp spec fn tables_made(document: toml_edit::DocumentMut) -> toml_edit::DocumentMut;

/// Puts `ArrayOfTables::new` under `profile` by `Table::insert`: an array of no tables.
#[verifier::external_body]
pub(crate) fn new_tables(document: &mut toml_edit::DocumentMut)
    ensures
        *final(document) == tables_made(*old(document)),
        root_of(*final(document)) == with_tables(root_of(*old(document)), Seq::empty()),
{
    document.insert("profile", toml_edit::Item::ArrayOfTables(toml_edit::ArrayOfTables::new()));
}

/// A document with an empty table behind its others.
pub uninterp spec fn table_pushed(document: toml_edit::DocumentMut) -> toml_edit::DocumentMut;

/// Calls `ArrayOfTables::push` with `Table::new`: an empty table behind the others.
#[verifier::external_body]
pub(crate) fn push_table(document: &mut toml_edit::DocumentMut)
    requires
        tables_in(root_of(*old(document))) is Some,
    ensures
        *final(document) == table_pushed(*old(document)),
        root_of(*final(document)) == with_tables(
            root_of(*old(document)),
            tables_in(root_of(*old(document)))->0.push(Map::empty()),
        ),
{
    if let Some(tables) = document["profile"].as_array_of_tables_mut() {
        tables.push(toml_edit::Table::new());
    }
}

/// A document without one of its tables.
pub uninterp spec fn table_removed(
    document: toml_edit::DocumentMut,
    profile: int,
) -> toml_edit::DocumentMut;

/// Calls `ArrayOfTables::remove`: the table is gone, and the ones behind it move up.
#[verifier::external_body]
pub(crate) fn remove_table(document: &mut toml_edit::DocumentMut, profile: usize)
    requires
        has_table(root_of(*old(document)), profile as int),
    ensures
        *final(document) == table_removed(*old(document), profile as int),
        root_of(*final(document)) == with_tables(
            root_of(*old(document)),
            tables_in(root_of(*old(document)))->0.remove(profile as int),
        ),
{
    if let Some(tables) = document["profile"].as_array_of_tables_mut() {
        tables.remove(profile);
    }
}

/// A document with a list of nothing under a key of a profile.
pub uninterp spec fn list_made(
    document: toml_edit::DocumentMut,
    profile: int,
    key: Seq<char>,
) -> toml_edit::DocumentMut;

/// Assigns an empty `Array` through `Table`'s index: a list of nothing under a key of a profile.
#[verifier::external_body]
pub(crate) fn new_list(document: &mut toml_edit::DocumentMut, profile: usize, key: &str)
    requires
        has_table(root_of(*old(document)), profile as int),
    ensures
        *final(document) == list_made(*old(document), profile as int, key@),
        root_of(*final(document)) == with_node(
            root_of(*old(document)),
            profile as int,
            key@,
            Node::List(Seq::empty()),
        ),
{
    document["profile"][profile][key] = toml_edit::value(toml_edit::Array::new());
}

/// A document with a text behind the other values of a list.
pub uninterp spec fn text_pushed(
    document: toml_edit::DocumentMut,
    profile: int,
    key: Seq<char>,
    value: Seq<char>,
) -> toml_edit::DocumentMut;

/// Calls `Array::push` with a text: it stands behind the list's other values.
#[verifier::external_body]
pub(crate) fn push_text(
    document: &mut toml_edit::DocumentMut,
    profile: usize,
    key: &str,
    value: &str,
)
    requires
        list_at(root_of(*old(document)), profile as int, key@) is Some,
    ensures
        *final(document) == text_pushed(*old(document), profile as int, key@, value@),
        root_of(*final(document)) == with_node(
            root_of(*old(document)),
            profile as int,
            key@,
            Node::List(
                list_at(root_of(*old(document)), profile as int, key@)->0.push(Node::Text(value@)),
            ),
        ),
{
    if let Some(array) = document["profile"][profile][key].as_array_mut() {
        array.push(value);
    }
}

/// A document with an inline table, its pairs in order, behind the other values of a list.
pub uninterp spec fn inline_pushed(
    document: toml_edit::DocumentMut,
    profile: int,
    key: Seq<char>,
    pairs: Seq<(Seq<char>, Node)>,
) -> toml_edit::DocumentMut;

/// Calls `Array::push` with an `InlineTable` of the pairs: it stands behind the list's other
/// values.
#[verifier::external_body]
pub(crate) fn push_inline(
    document: &mut toml_edit::DocumentMut,
    profile: usize,
    key: &str,
    pairs: &[(String, Scalar)],
)
    requires
        list_at(root_of(*old(document)), profile as int, key@) is Some,
    ensures
        *final(document) == inline_pushed(
            *old(document),
            profile as int,
            key@,
            pair_views(pairs@),
        ),
        root_of(*final(document)) == with_node(
            root_of(*old(document)),
            profile as int,
            key@,
            Node::List(
                list_at(root_of(*old(document)), profile as int, key@)->0.push(
                    Node::Inline(pair_table(pairs@)),
                ),
            ),
        ),
{
    if let Some(array) = document["profile"][profile][key].as_array_mut() {
        array.push(pairs.iter().map(|(name, value)| (name.as_str(), match value {
            Scalar::Text(s) => toml_edit::Value::from(s.as_str()),
            Scalar::Whole(n) => toml_edit::Value::from(*n),
            Scalar::Flag(b) => toml_edit::Value::from(*b),
        })).collect::<toml_edit::InlineTable>());
    }
}

/// A document without one of the values of a list, nor what stands before that value.
pub uninterp spec fn item_removed(
    document: toml_edit::DocumentMut,
    profile: int,
    key: Seq<char>,
    index: int,
) -> toml_edit::DocumentMut;

/// Calls `Array::remove`: the value is gone from the list, and the ones behind it move up.
#[verifier::external_body]
pub(crate) fn remove_item(
    document: &mut toml_edit::DocumentMut,
    profile: usize,
    key: &str,
    index: usize,
)
    requires
        list_at(root_of(*old(document)), profile as int, key@) is Some,
        index < list_at(root_of(*old(document)), profile as int, key@)->0.len(),
    ensures
        *final(document) == item_removed(*old(document), profile as int, key@, index as int),
        root_of(*final(document)) == with_node(
            root_of(*old(document)),
            profile as int,
            key@,
            Node::List(
                list_at(root_of(*old(document)), profile as int, key@)->0.remove(index as int),
            ),
        ),
{
    if let Some(array) = document["profile"][profile][key].as_array_mut() {
        array.remove(index);
    }
}

/// A document with a text before the last value of a list, in place of what stood there, and a
/// comma behind it.
pub uninterp spec fn last_indented(
    document: toml_edit::DocumentMut,
    profile: int,
    key: Seq<char>,
    prefix: Seq<char>,
) -> toml_edit::DocumentMut;

/// Calls `Decor::set_prefix` on the list's last value and `Array::set_trailing_comma`: layout
/// alone, so what the document holds stays.
#[verifier::external_body]
pub(crate) fn indent_last(
    document: &mut toml_edit::DocumentMut,
    profile: usize,
    key: &str,
    prefix: &str,
)
    requires
        list_at(root_of(*old(document)), profile as int, key@) is Some,
    ensures
        *final(document) == last_indented(*old(document), profile as int, key@, prefix@),
        root_of(*final(document)) == root_of(*old(document)),
{
    if let Some(array) = document["profile"][profile][key].as_array_mut() {
        if let Some(added) = array.iter_mut().last() {
            added.decor_mut().set_prefix(prefix);
        }
        array.set_trailing_comma(true);
    }
}

/// A document with a text before the end of a list, in place of what stood there.
pub uninterp spec fn list_closed(
    document: toml_edit::DocumentMut,
    profile: int,
    key: Seq<char>,
    trailing: Seq<char>,
) -> toml_edit::DocumentMut;

/// Calls `Array::set_trailing`: layout alone, so what the document holds stays.
#[verifier::external_body]
pub(crate) fn close_list(
    document: &mut toml_edit::DocumentMut,
    profile: usize,
    key: &str,
    trailing: &str,
)
    requires
        list_at(root_of(*old(document)), profile as int, key@) is Some,
    ensures
        *final(document) == list_closed(*old(document), profile as int, key@, trailing@),
        root_of(*final(document)) == root_of(*old(document)),
{
    if let Some(array) = document["profile"][profile][key].as_array_mut() {
        array.set_trailing(trailing);
    }
}

/// A document with a value under a key of a profile.
pub uninterp spec fn scalar_set(
    document: toml_edit::DocumentMut,
    profile: int,
    key: Seq<char>,
    value: Node,
) -> toml_edit::DocumentMut;

/// Assigns a `Value` through `Table`'s index: it stands under the key of the profile.
#[verifier::external_body]
pub(crate) fn set_scalar(
    document: &mut toml_edit::DocumentMut,
    profile: usize,
    key: &str,
    value: &Scalar,
)
    requires
        has_table(root_of(*old(document)), profile as int),
    ensures
        *final(document) == scalar_set(*old(document), profile as int, key@, value@),
        root_of(*final(document)) == with_node(
            root_of(*old(document)),
            profile as int,
            key@,
            value@,
        ),
{
    document["profile"][profile][key] = match value {
        Scalar::Text(s) => toml_edit::value(s.as_str()),
        Scalar::Whole(n) => toml_edit::value(*n),
        Scalar::Flag(b) => toml_edit::value(*b),
    };
}

/// A document with an inline table of texts, its pairs in order, under a key of a profile.
pub uninterp spec fn inline_set(
    document: toml_edit::DocumentMut,
    profile: int,
    key: Seq<char>,
    pairs: Seq<(Seq<char>, Seq<char>)>,
) -> toml_edit::DocumentMut;

/// Assigns an `InlineTable` of the texts through `Table`'s index: it stands under the key of
/// the profile.
#[verifier::external_body]
pub(crate) fn set_inline(
    document: &mut toml_edit::DocumentMut,
    profile: usize,
    key: &str,
    pairs: &[(&str, &str)],
)
    requires
        has_table(root_of(*old(document)), profile as int),
    ensures
        *final(document) == inline_set(*old(document), profile as int, key@, text_views(pairs@)),
        root_of(*final(document)) == with_node(
            root_of(*old(document)),
            profile as int,
            key@,
            Node::Inline(text_table(pairs@)),
        ),
{
    let table = pairs.iter().copied().collect::<toml_edit::InlineTable>();
    document["profile"][profile][key] = toml_edit::value(table);
}

/// A document with an inline table that holds another of texts, its pairs in order, under a key
/// of a profile.
pub uninterp spec fn nested_set(
    document: toml_edit::DocumentMut,
    profile: int,
    key: Seq<char>,
    name: Seq<char>,
    pairs: Seq<(Seq<char>, Seq<char>)>,
) -> toml_edit::DocumentMut;

/// Assigns an `InlineTable` that holds another of the texts, through `Table`'s index: it stands
/// under the key of the profile.
#[verifier::external_body]
pub(crate) fn set_nested(
    document: &mut toml_edit::DocumentMut,
    profile: usize,
    key: &str,
    name: &str,
    pairs: &[(&str, &str)],
)
    requires
        has_table(root_of(*old(document)), profile as int),
    ensures
        *final(document) == nested_set(
            *old(document),
            profile as int,
            key@,
            name@,
            text_views(pairs@),
        ),
        root_of(*final(document)) == with_node(
            root_of(*old(document)),
            profile as int,
            key@,
            Node::Inline(pair_table(Seq::empty()).insert(name@, Node::Inline(text_table(pairs@)))),
        ),
{
    let mut outer = toml_edit::InlineTable::new();
    outer.insert(name, pairs.iter().copied().collect::<toml_edit::InlineTable>().into());
    document["profile"][profile][key] = toml_edit::value(outer);
}

pub open spec fn text_views(pairs: Seq<(&str, &str)>) -> Seq<(Seq<char>, Seq<char>)> {
    pairs.map_values(|p: (&str, &str)| (p.0@, p.1@))
}

/// The table that some pairs of texts make, one after another.
pub open spec fn text_table(pairs: Seq<(&str, &str)>) -> Table
    decreases pairs.len(),
{
    if pairs.len() == 0 {
        Map::empty()
    } else {
        text_table(pairs.drop_last()).insert(pairs.last().0@, Node::Text(pairs.last().1@))
    }
}

/// A document without a key of a profile.
pub uninterp spec fn key_removed(
    document: toml_edit::DocumentMut,
    profile: int,
    key: Seq<char>,
) -> toml_edit::DocumentMut;

/// Calls `Table::remove`: the key is gone from the profile's table.
#[verifier::external_body]
pub(crate) fn remove_key(document: &mut toml_edit::DocumentMut, profile: usize, key: &str)
    requires
        has_table(root_of(*old(document)), profile as int),
    ensures
        *final(document) == key_removed(*old(document), profile as int, key@),
        root_of(*final(document)) == with_table(
            root_of(*old(document)),
            profile as int,
            table_at(root_of(*old(document)), profile as int).remove(key@),
        ),
{
    let tables = document["profile"].as_array_of_tables_mut();
    if let Some(table) = tables.and_then(|tables| tables.get_mut(profile)) {
        table.remove(key);
    }
}

} // verus!
