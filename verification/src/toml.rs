//! TOML documents, held by `toml_edit` and edited in place.
//!
//! A document, a table or a value of `toml_edit` is opaque; contracts speak of
//! what it holds as a [`Node`] or as a row of [`Entries`]. Comments, spacing
//! and the spelling of keys and values are not part of that: `toml_edit` keeps
//! them, and only [`document_text`] shows them. What a document that was read
//! and edited renders to is read back as what it held.

use toml_edit::Array;
use toml_edit::ArrayOfTables;
use toml_edit::DocumentMut;
use toml_edit::InlineTable;
use toml_edit::Item;
use toml_edit::Table;
use toml_edit::TomlError;
use toml_edit::Value;
use vstd::prelude::*;

verus! {

/// The kinds of values that are neither strings nor integers.
pub enum ScalarKind {
    /// A number with a fraction.
    Fraction,
    /// A truth value.
    Truth,
    /// A date, a time of day or both, with or without an offset.
    Moment,
}

/// What a key of a document holds.
#[verifier::ext_equal]
pub enum Node {
    /// A key without a value.
    Nothing,
    /// A string.
    Text(Seq<char>),
    /// An integer.
    Number(i64),
    /// A value of another kind, with its value as `toml_edit` shows it.
    Scalar(ScalarKind, Seq<char>),
    /// `[…]`
    List(Seq<Node>),
    /// `{…}`
    Inline(Seq<(Seq<char>, Node)>),
    /// A table under a header of its own.
    Section(Seq<(Seq<char>, Node)>),
    /// The tables under the headers `[[…]]` of one name.
    Sections(Seq<Seq<(Seq<char>, Node)>>),
}

/// The keys of a table in their order, each with what it holds.
pub type Entries = Seq<(Seq<char>, Node)>;

/// The index of the first entry for `key`, or the number of entries.
pub open spec fn slot(entries: Entries, key: Seq<char>) -> int
    decreases entries.len(),
{
    if entries.len() == 0 || entries[0].0 == key {
        0
    } else {
        1 + slot(entries.skip(1), key)
    }
}

/// What `key` holds; a key without a value counts as absent.
pub open spec fn lookup(entries: Entries, key: Seq<char>) -> Option<Node> {
    let i = slot(entries, key);
    if i < entries.len() && !(entries[i].1 is Nothing) {
        Some(entries[i].1)
    } else {
        None
    }
}

/// `entries` with `key` holding `node`: in place when the key is there, at the
/// end otherwise.
pub open spec fn put(entries: Entries, key: Seq<char>, node: Node) -> Entries {
    let i = slot(entries, key);
    if i < entries.len() {
        entries.update(i, (key, node))
    } else {
        entries.push((key, node))
    }
}

/// `entries` without `key`, the others in their order.
pub open spec fn without(entries: Entries, key: Seq<char>) -> Entries {
    let i = slot(entries, key);
    if i < entries.len() {
        entries.remove(i)
    } else {
        entries
    }
}

/// The keys that hold something, in their order.
pub open spec fn live_keys(entries: Entries) -> Seq<Seq<char>>
    decreases entries.len(),
{
    if entries.len() == 0 {
        Seq::empty()
    } else if entries.last().1 is Nothing {
        live_keys(entries.drop_last())
    } else {
        live_keys(entries.drop_last()).push(entries.last().0)
    }
}

/// Whether no key occurs twice.
pub open spec fn distinct_keys(entries: Entries) -> bool {
    forall|i: int, j: int|
        0 <= i < entries.len() && 0 <= j < entries.len() && #[trigger] entries[i].0
            == #[trigger] entries[j].0 ==> i == j
}

/// What [`slot`] means.
pub proof fn lemma_slot(entries: Entries, key: Seq<char>)
    ensures
        0 <= slot(entries, key) <= entries.len(),
        slot(entries, key) < entries.len() ==> entries[slot(entries, key)].0 == key,
        forall|i: int| 0 <= i < slot(entries, key) ==> #[trigger] entries[i].0 != key,
    decreases entries.len(),
{
    if entries.len() == 0 || entries[0].0 == key {
    } else {
        let rest = entries.skip(1);
        lemma_slot(rest, key);
        assert forall|i: int| 0 <= i < slot(entries, key) implies #[trigger] entries[i].0 != key by {
            if i > 0 {
                assert(entries[i] == rest[i - 1]);
            }
        }
    }
}

/// An index with nothing for `key` before it is the slot, when it holds `key`
/// or is the end.
pub proof fn lemma_slot_is(entries: Entries, key: Seq<char>, at: int)
    requires
        0 <= at <= entries.len(),
        at < entries.len() ==> entries[at].0 == key,
        forall|i: int| 0 <= i < at ==> #[trigger] entries[i].0 != key,
    ensures
        slot(entries, key) == at,
{
    lemma_slot(entries, key);
    let s = slot(entries, key);
    if s < at {
        assert(entries[s].0 == key);
    } else if at < s {
        assert(entries[at].0 != key);
    }
}

/// **A value that was put is found, and nothing else changes.**
pub proof fn put_is_found(entries: Entries, key: Seq<char>, node: Node)
    requires
        !(node is Nothing),
    ensures
        lookup(put(entries, key, node), key) == Some(node),
        forall|other: Seq<char>|
            other != key ==> #[trigger] lookup(put(entries, key, node), other) == lookup(
                entries,
                other,
            ),
{
    let after = put(entries, key, node);
    let at = slot(entries, key);
    lemma_slot(entries, key);
    lemma_slot_is(after, key, at);
    assert forall|other: Seq<char>| other != key implies #[trigger] lookup(after, other) == lookup(
        entries,
        other,
    ) by {
        lemma_put_elsewhere(entries, key, node, other);
    }
}

/// A key keeps its slot when another one is put.
pub proof fn lemma_put_elsewhere(entries: Entries, key: Seq<char>, node: Node, other: Seq<char>)
    requires
        other != key,
    ensures
        slot(entries, other) < entries.len() ==> slot(put(entries, key, node), other) == slot(
            entries,
            other,
        ),
        slot(entries, other) == entries.len() ==> slot(put(entries, key, node), other) == put(
            entries,
            key,
            node,
        ).len(),
        lookup(put(entries, key, node), other) == lookup(entries, other),
{
    let after = put(entries, key, node);
    lemma_slot(entries, key);
    lemma_slot(entries, other);
    let s = slot(entries, other);
    if s < entries.len() {
        lemma_slot_is(after, other, s);
    } else {
        assert forall|i: int| 0 <= i < after.len() implies #[trigger] after[i].0 != other by {
            if i < entries.len() {
                assert(entries[i].0 != other);
            }
        }
        lemma_slot_is(after, other, after.len() as int);
    }
}

/// **A key that was taken out is gone, and nothing else changes.**
pub proof fn taken_out_is_gone(entries: Entries, key: Seq<char>)
    requires
        distinct_keys(entries),
    ensures
        lookup(without(entries, key), key) is None,
        forall|other: Seq<char>|
            other != key ==> #[trigger] lookup(without(entries, key), other) == lookup(
                entries,
                other,
            ),
        distinct_keys(without(entries, key)),
{
    let after = without(entries, key);
    let at = slot(entries, key);
    lemma_slot(entries, key);
    assert forall|i: int| 0 <= i < after.len() implies #[trigger] after[i].0 != key by {
        if at < entries.len() {
            let j = if i < at {
                i
            } else {
                i + 1
            };
            assert(after[i] == entries[j]);
            assert(entries[at].0 == key);
        } else {
            assert(entries[i].0 != key);
        }
    }
    lemma_slot_is(after, key, after.len() as int);
    assert forall|other: Seq<char>| other != key implies #[trigger] lookup(after, other) == lookup(
        entries,
        other,
    ) by {
        lemma_slot(entries, other);
        let s = slot(entries, other);
        if at < entries.len() {
            let t = if s > at {
                s - 1
            } else {
                s
            };
            assert forall|i: int| 0 <= i < t implies #[trigger] after[i].0 != other by {
                let j = if i < at {
                    i
                } else {
                    i + 1
                };
                assert(after[i] == entries[j]);
            }
            lemma_slot_is(after, other, t);
        }
    }
    assert forall|i: int, j: int|
        0 <= i < after.len() && 0 <= j < after.len() && #[trigger] after[i].0
            == #[trigger] after[j].0 implies i == j by {
        if at < entries.len() {
            let a = if i < at {
                i
            } else {
                i + 1
            };
            let b = if j < at {
                j
            } else {
                j + 1
            };
            assert(after[i] == entries[a]);
            assert(after[j] == entries[b]);
        }
    }
}

/// **A key is looked up at its first occurrence**, and one without a value counts
/// as absent.
pub proof fn lookups_find_the_first(entries: Entries, key: Seq<char>, i: int)
    requires
        forall|j: int| 0 <= j < i && j < entries.len() ==> #[trigger] entries[j].0 != key,
        0 <= i <= entries.len(),
    ensures
        i == entries.len() ==> lookup(entries, key) is None,
        i < entries.len() && entries[i].0 == key && !(entries[i].1 is Nothing) ==> lookup(
            entries,
            key,
        ) == Some(entries[i].1),
        i < entries.len() && entries[i].0 == key && entries[i].1 is Nothing ==> lookup(
            entries,
            key,
        ) is None,
{
    lemma_slot(entries, key);
    if i == entries.len() || entries[i].0 == key {
        lemma_slot_is(entries, key, i);
    }
}

/// **The keys that are listed are those that hold something.**
pub proof fn live_keys_hold_something(entries: Entries, key: Seq<char>)
    ensures
        live_keys(entries).contains(key) <==> exists|i: int|
            0 <= i < entries.len() && #[trigger] entries[i].0 == key && !(entries[i].1 is Nothing),
        live_keys(entries).len() <= entries.len(),
    decreases entries.len(),
{
    if entries.len() > 0 {
        let less = entries.drop_last();
        let last = entries.last();
        let kept = live_keys(less);
        live_keys_hold_something(less, key);
        assert(entries[entries.len() - 1] == last);
        assert(forall|i: int| 0 <= i < less.len() ==> #[trigger] less[i] == entries[i]);
        assert(kept.push(last.0).contains(key) <==> kept.contains(key) || key == last.0) by {
            assert(kept.push(last.0)[kept.len() as int] == last.0);
            if kept.contains(key) {
                let i = choose|i: int| 0 <= i < kept.len() && kept[i] == key;
                assert(kept.push(last.0)[i] == key);
            }
        }
        if kept.contains(key) {
            let i = choose|i: int|
                0 <= i < less.len() && #[trigger] less[i].0 == key && !(less[i].1 is Nothing);
            assert(entries[i].0 == key);
        }
        if exists|i: int|
            0 <= i < entries.len() && #[trigger] entries[i].0 == key && !(entries[i].1 is Nothing) {
            let i = choose|i: int|
                0 <= i < entries.len() && #[trigger] entries[i].0 == key && !(entries[i].1 is Nothing);
            if i < less.len() {
                assert(less[i].0 == key);
            }
        }
    }
}

/// The entries of a table of either kind.
pub open spec fn table_of(node: Node) -> Option<Entries> {
    match node {
        Node::Inline(entries) | Node::Section(entries) => Some(entries),
        _ => None,
    }
}

/// What a table of either kind has for a key.
pub open spec fn field_of(node: Node, key: Seq<char>) -> Option<Node> {
    match table_of(node) {
        Some(entries) => lookup(entries, key),
        None => None,
    }
}

/// The elements of a list, or of an array of tables.
pub open spec fn list_of(node: Node) -> Option<Seq<Node>> {
    match node {
        Node::List(list) => Some(list),
        Node::Sections(tables) => Some(tables.map_values(|table: Entries| Node::Section(table))),
        _ => None,
    }
}

/// The element of a list, or of an array of tables, at an index.
pub open spec fn element_of(node: Node, index: int) -> Option<Node> {
    match list_of(node) {
        Some(list) => if 0 <= index < list.len() {
            Some(list[index])
        } else {
            None
        },
        None => None,
    }
}

// ---------------------------------------------------------------------------
// What comes back from a text
// ---------------------------------------------------------------------------

/// A string, an integer, or a list of strings.
pub open spec fn plain(node: Node) -> bool {
    match node {
        Node::Text(_) | Node::Number(_) => true,
        Node::List(list) => forall|i: int| 0 <= i < list.len() ==> #[trigger] list[i] is Text,
        _ => false,
    }
}

/// Whether a table has nothing but plain values.
pub open spec fn all_plain(entries: Entries) -> bool {
    forall|i: int| 0 <= i < entries.len() ==> plain((#[trigger] entries[i]).1)
}

/// Whether tables have nothing but plain values.
pub open spec fn all_tables_plain(tables: Seq<Entries>) -> bool {
    forall|j: int| 0 <= j < tables.len() ==> all_plain(#[trigger] tables[j])
}

/// A plain value, or an array of tables of plain values.
pub open spec fn tame(node: Option<Node>) -> bool {
    match node {
        Some(Node::Sections(tables)) => all_tables_plain(tables),
        Some(node) => plain(node),
        None => false,
    }
}

/// What a row of keys leads to, through tables under headers; a table itself
/// does not count, and neither do no tables.
pub open spec fn leaf(entries: Entries, keys: Seq<Seq<char>>) -> Option<Node>
    decreases keys.len(),
{
    if keys.len() == 0 {
        None
    } else {
        match lookup(entries, keys[0]) {
            Some(Node::Section(fields)) => leaf(fields, keys.skip(1)),
            Some(Node::Sections(tables)) => if keys.len() == 1 && tables.len() > 0 {
                Some(Node::Sections(tables))
            } else {
                None
            },
            Some(node) => if keys.len() == 1 {
                Some(node)
            } else {
                None
            },
            None => None,
        }
    }
}

/// Whether `read` has the plain values of `entries`, and no others: every row of
/// keys that leads to one leads to the same in both. An array of no tables is
/// not there any more.
pub open spec fn reads_as(read: Entries, entries: Entries) -> bool {
    &&& forall|keys: Seq<Seq<char>>|
        tame(#[trigger] leaf(read, keys)) || tame(leaf(entries, keys)) ==> leaf(read, keys) == leaf(
            entries,
            keys,
        )
    &&& forall|key: Seq<char>| #[trigger]
        lookup(entries, key) == Some(Node::Sections(Seq::empty())) ==> lookup(read, key) is None
}

/// What one key leads to.
pub proof fn lemma_one_key(entries: Entries, key: Seq<char>)
    ensures
        leaf(entries, seq![key]) == (match lookup(entries, key) {
            Some(Node::Section(_)) => None,
            Some(Node::Sections(tables)) => if tables.len() > 0 {
                Some(Node::Sections(tables))
            } else {
                None
            },
            found => found,
        }),
{
    reveal_with_fuel(leaf, 2);
    assert(seq![key].skip(1) =~= Seq::<Seq<char>>::empty());
}

// ---------------------------------------------------------------------------
// The types of `toml_edit`, and what they hold
// ---------------------------------------------------------------------------

#[verifier::external_type_specification]
#[verifier::external_body]
pub struct ExDocumentMut(toml_edit::DocumentMut);

#[verifier::external_type_specification]
#[verifier::external_body]
pub struct ExTable(toml_edit::Table);

#[verifier::external_type_specification]
#[verifier::external_body]
pub struct ExItem(toml_edit::Item);

#[verifier::external_type_specification]
#[verifier::external_body]
pub struct ExArray(toml_edit::Array);

#[verifier::external_type_specification]
#[verifier::external_body]
pub struct ExArrayOfTables(toml_edit::ArrayOfTables);

#[verifier::external_type_specification]
#[verifier::external_body]
pub struct ExInlineTable(toml_edit::InlineTable);

#[verifier::external_type_specification]
#[verifier::external_body]
pub struct ExTomlError(toml_edit::TomlError);

/// What the root table of a document holds.
pub uninterp spec fn document_entries(doc: DocumentMut) -> Seq<(Seq<char>, Node)>;

/// What a table holds.
pub uninterp spec fn table_entries(table: Table) -> Seq<(Seq<char>, Node)>;

/// What an item holds.
pub uninterp spec fn item_node(item: Item) -> Node;

/// What an array holds, item by item.
pub uninterp spec fn array_nodes(array: Array) -> Seq<Node>;

/// What the tables of an array of tables hold; it has nothing but tables.
pub uninterp spec fn section_list(sections: ArrayOfTables) -> Seq<Seq<(Seq<char>, Node)>>;

/// What an inline table holds, item by item. A table that was read from a text
/// has nothing but values; where layers of a configuration were merged, it may
/// have tables under headers of their own too.
pub uninterp spec fn inline_entries(table: InlineTable) -> Seq<(Seq<char>, Node)>;

/// The text that a document renders to.
pub uninterp spec fn document_text(doc: DocumentMut) -> Seq<char>;

/// How a parse error describes itself.
pub uninterp spec fn toml_error_text(err: TomlError) -> Seq<char>;

/// How many keys a header, or a row of keys with dots between them, can have
/// where it is read.
pub open spec fn longest() -> nat {
    80
}

/// Whether a table can be read again where it is written: what sets its keys,
/// values and headers apart, comments among it, is allowed where it stands, every
/// key and value is spelled as what it is, no value is nested deeper than can be
/// read, and the tables of an array are written in their order. It is written
/// under `keys` keys, or, where it is [`dotted`], behind the last `dots` of them;
/// with these its headers and its rows of keys are no longer than can be read,
/// and so is the row that one more key would make.
pub uninterp spec fn legible_table(table: Table, keys: nat, dots: nat) -> bool;

/// Whether the tables of an array are legible under headers of so many keys, and
/// written in their order; those with a place in a text come first.
pub uninterp spec fn legible_sections(sections: ArrayOfTables, keys: nat) -> bool;

/// Whether an array is written as TOML is, as [`legible_table`] says.
pub uninterp spec fn legible_array(array: Array) -> bool;

/// Whether an item can be read again under so many keys, its own among them, as
/// [`legible_table`] says; a value is written behind the last `dots` of them.
pub uninterp spec fn legible_item(item: Item, keys: nat, dots: nat) -> bool;

/// Whether a document can be read again: its root table is legible, and nothing
/// but white space and comments stands behind it.
pub uninterp spec fn legible_document(doc: DocumentMut) -> bool;

/// Whether a table has no place in a text yet.
pub uninterp spec fn unplaced(table: Table) -> bool;

/// Whether a table is written without a header, by keys with dots in the table
/// that it belongs to.
pub uninterp spec fn dotted(table: Table) -> bool;

/// How many keys stand in a row where a key of this table is written.
pub open spec fn in_a_row(table: Table, dots: nat) -> nat {
    if dotted(table) {
        dots + 1
    } else {
        1
    }
}

/// Whether a table is as legible as another one was.
pub open spec fn as_legible(before: Table, after: Table) -> bool {
    &&& dotted(after) == dotted(before)
    &&& forall|keys: nat, dots: nat|
        legible_table(before, keys, dots) ==> #[trigger] legible_table(after, keys, dots)
}

/// Whether a table is as legible as another one was, with an item that is
/// legible under a key of it.
pub open spec fn legible_with(before: Table, item: Item, after: Table) -> bool {
    &&& dotted(after) == dotted(before)
    &&& forall|keys: nat, dots: nat|
        legible_table(before, keys, dots) && legible_item(item, keys + 1, in_a_row(before, dots))
            ==> #[trigger] legible_table(after, keys, dots)
}

/// Whether an item is legible wherever it stands under a key of a legible table.
pub open spec fn legible_in(table: Table, item: Item) -> bool {
    forall|keys: nat, dots: nat| #[trigger]
        legible_table(table, keys, dots) ==> legible_item(item, keys + 1, in_a_row(table, dots))
}

/// Whether an item is legible under a key of a legible table, where another one
/// is.
pub open spec fn legible_or(table: Table, other: Item, item: Item) -> bool {
    forall|keys: nat, dots: nat| #[trigger]
        legible_table(table, keys, dots) && legible_item(other, keys + 1, in_a_row(table, dots))
            ==> legible_item(item, keys + 1, in_a_row(table, dots))
}

/// Whether an item is as legible as a table in it.
pub open spec fn legible_as(item: Item, table: Table) -> bool {
    forall|keys: nat, dots: nat|
        #![trigger legible_item(item, keys, dots)]
        #![trigger legible_table(table, keys, dots)]
        legible_item(item, keys, dots) == legible_table(table, keys, dots)
}

/// Whether an item is as legible as the tables of an array in it.
pub open spec fn legible_as_sections(item: Item, sections: ArrayOfTables) -> bool {
    forall|keys: nat, dots: nat|
        #![trigger legible_item(item, keys, dots)]
        legible_item(item, keys, dots) == legible_sections(sections, keys)
}

/// Whether an item is as legible as an array in it, in a row of keys that can be
/// read.
pub open spec fn legible_as_array(item: Item, array: Array) -> bool {
    forall|keys: nat, dots: nat|
        #![trigger legible_item(item, keys, dots)]
        legible_item(item, keys, dots) == (dots <= longest() && legible_array(array))
}

/// Whether an item is legible in every row of keys that can be read.
pub open spec fn legible_value(item: Item) -> bool {
    forall|keys: nat, dots: nat|
        dots <= longest() ==> #[trigger] legible_item(item, keys, dots)
}

/// What a text holds when it is read as TOML, or the description of the first
/// mistake in it.
pub uninterp spec fn parsed_toml(text: Seq<char>) -> Result<Seq<(Seq<char>, Node)>, Seq<char>>;

/// Whether a text is read as what has the plain values of `entries`.
pub open spec fn read_back(text: Seq<char>, entries: Entries) -> bool {
    parsed_toml(text) matches Ok(read) && reads_as(read, entries)
}

/// The nodes of a list of items.
pub open spec fn item_nodes(list: Seq<&Item>) -> Seq<Node> {
    list.map_values(|item: &Item| item_node(*item))
}

/// Keys with the nodes of their items.
pub open spec fn pair_nodes(list: Seq<(&str, &Item)>) -> Entries {
    list.map_values(|pair: (&str, &Item)| (pair.0@, item_node(*pair.1)))
}

/// The entries of a list of tables.
pub open spec fn tables_entries(list: Seq<&Table>) -> Seq<Entries> {
    list.map_values(|t: &Table| table_entries(*t))
}

// ---------------------------------------------------------------------------
// Documents
// ---------------------------------------------------------------------------

/// `DocumentMut::new` makes a document that holds nothing.
#[verifier::external_body]
pub(crate) fn new_document() -> (doc: DocumentMut)
    ensures
        document_entries(doc) == Seq::<(Seq<char>, Node)>::empty(),
        legible_document(doc),
{
    DocumentMut::new()
}

/// `str::parse` into a `DocumentMut`: what the document holds, or which error
/// is reported, depends on the text alone; a table never has a key twice, and an
/// empty text holds nothing. A document that was read is legible. That it
/// renders to the same text again is not stated: `toml_edit` keeps comments and
/// spacing, but not every text comes back byte for byte.
#[verifier::external_body]
pub(crate) fn parse_document(text: &str) -> (doc: Result<DocumentMut, TomlError>)
    ensures
        match doc {
            Ok(doc) => parsed_toml(text@) == Ok::<Entries, Seq<char>>(document_entries(doc))
                && distinct_keys(document_entries(doc)) && legible_document(doc) && (text@.len() == 0
                ==> document_entries(doc) == Seq::<(Seq<char>, Node)>::empty()),
            Err(err) => parsed_toml(text@) == Err::<Entries, Seq<char>>(toml_error_text(err))
                && text@.len() > 0,
        },
{
    text.parse()
}

/// `TomlError` shows itself through `Display`.
#[verifier::external_body]
pub(crate) fn error_text(err: &TomlError) -> (text: String)
    ensures
        text@ == toml_error_text(*err),
{
    err.to_string()
}

/// `DocumentMut` renders itself through `Display`. What a legible document
/// renders to is read again, and has its plain values: keys and strings are
/// quoted where they have to be, every value stands on a line of its own under
/// the header of its table, and only tables without values may be left out. What
/// becomes of values of other kinds is not stated.
#[verifier::external_body]
pub(crate) fn render_document(doc: &DocumentMut) -> (text: String)
    ensures
        text@ == document_text(*doc),
        legible_document(*doc) ==> read_back(text@, document_entries(*doc)),
{
    doc.to_string()
}

/// `DocumentMut::as_table` is the root table.
#[verifier::external_body]
pub(crate) fn root(doc: &DocumentMut) -> (table: &Table)
    ensures
        table_entries(*table) == document_entries(*doc),
{
    doc.as_table()
}

/// `DocumentMut::as_table_mut` is the root table: what is done to it is done to
/// the document.
#[verifier::external_body]
pub(crate) fn root_mut(doc: &mut DocumentMut) -> (table: &mut Table)
    ensures
        table_entries(*table) == document_entries(*old(doc)),
        document_entries(*final(doc)) == table_entries(*final(table)),
        legible_document(*old(doc)) ==> !dotted(*table) && legible_table(*table, 0, 0),
        legible_document(*old(doc)) && !dotted(*final(table)) && legible_table(*final(table), 0, 0)
            ==> legible_document(*final(doc)),
{
    doc.as_table_mut()
}

// ---------------------------------------------------------------------------
// Tables
// ---------------------------------------------------------------------------

/// `Table::new` makes a table that holds nothing and has no place yet.
#[verifier::external_body]
pub(crate) fn new_table() -> (table: Table)
    ensures
        table_entries(table) == Seq::<(Seq<char>, Node)>::empty(),
        forall|keys: nat, dots: nat|
            keys <= longest() ==> #[trigger] legible_table(table, keys, dots),
        unplaced(table),
        !dotted(table),
{
    Table::new()
}

/// `Table::set_implicit` changes how a table renders, not what it holds.
#[verifier::external_body]
pub(crate) fn make_implicit(table: &mut Table)
    ensures
        table_entries(*final(table)) == table_entries(*old(table)),
        as_legible(*old(table), *final(table)),
{
    table.set_implicit(true)
}

/// `Table::get` finds the item of a key, unless the key has no value.
#[verifier::external_body]
pub(crate) fn get<'a>(table: &'a Table, key: &str) -> (item: Option<&'a Item>)
    ensures
        match item {
            Some(item) => lookup(table_entries(*table), key@) == Some(item_node(*item)),
            None => lookup(table_entries(*table), key@) is None,
        },
{
    table.get(key)
}

/// `Table::get_mut` finds the item of a key, unless the key has no value; what
/// is done to the item is done to the table, in place.
#[verifier::external_body]
pub(crate) fn get_mut<'a>(table: &'a mut Table, key: &str) -> (item: Option<&'a mut Item>)
    ensures
        match item {
            Some(item) => {
                &&& lookup(table_entries(*old(table)), key@) == Some(item_node(*item))
                &&& table_entries(*final(table)) == put(
                    table_entries(*old(table)),
                    key@,
                    item_node(*final(item)),
                )
                &&& legible_in(*old(table), *item)
                &&& legible_with(*old(table), *final(item), *final(table))
            },
            None => lookup(table_entries(*old(table)), key@) is None && *final(table) == *old(
                table,
            ),
        },
{
    table.get_mut(key)
}

/// `Table::entry` with `Entry::or_insert`: the item of the key when the key is
/// there, with or without a value, and otherwise `default`, put at the end;
/// what is done to the item is done to the table.
#[verifier::external_body]
pub(crate) fn entry_or<'a>(table: &'a mut Table, key: &str, default: Item) -> (item: &'a mut Item)
    ensures
        slot(table_entries(*old(table)), key@) < table_entries(*old(table)).len() ==> item_node(
            *item,
        ) == table_entries(*old(table))[slot(table_entries(*old(table)), key@)].1,
        slot(table_entries(*old(table)), key@) == table_entries(*old(table)).len() ==> item_node(
            *item,
        ) == item_node(default),
        table_entries(*final(table)) == put(
            table_entries(*old(table)),
            key@,
            item_node(*final(item)),
        ),
        legible_or(*old(table), default, *item),
        legible_with(*old(table), *final(item), *final(table)),
{
    table.entry(key).or_insert(default)
}

/// Assignment to `table[key]` through `Table`'s `IndexMut`: in place when the
/// key is there, at the end otherwise.
#[verifier::external_body]
pub(crate) fn assign(table: &mut Table, key: &str, item: Item)
    ensures
        table_entries(*final(table)) == put(table_entries(*old(table)), key@, item_node(item)),
        legible_with(*old(table), item, *final(table)),
        unplaced(*final(table)) == unplaced(*old(table)),
{
    table[key] = item;
}

/// `Table::insert`: in place when the key is there, at the end otherwise.
#[verifier::external_body]
pub(crate) fn insert(table: &mut Table, key: &str, item: Item)
    ensures
        table_entries(*final(table)) == put(table_entries(*old(table)), key@, item_node(item)),
        legible_with(*old(table), item, *final(table)),
{
    table.insert(key, item);
}

/// `Table::remove` takes a key out, keeps the others in their order, and says
/// whether the key was there. A table never has a key twice.
#[verifier::external_body]
pub(crate) fn remove(table: &mut Table, key: &str) -> (removed: bool)
    ensures
        removed == (slot(table_entries(*old(table)), key@) < table_entries(*old(table)).len()),
        table_entries(*final(table)) == without(table_entries(*old(table)), key@),
        distinct_keys(table_entries(*old(table))),
        as_legible(*old(table), *final(table)),
{
    table.remove(key).is_some()
}

/// `Table::is_empty`: no key holds anything.
#[verifier::external_body]
pub(crate) fn is_empty(table: &Table) -> (empty: bool)
    ensures
        empty == (live_keys(table_entries(*table)).len() == 0),
{
    table.is_empty()
}

/// `Table::iter` walks the keys that hold something, in their order, and never
/// meets one twice.
#[verifier::external_body]
pub(crate) fn keys(table: &Table) -> (keys: Vec<String>)
    ensures
        crate::text::views(keys@) == live_keys(table_entries(*table)),
        crate::text::views(keys@).no_duplicates(),
{
    table.iter().map(|(key, _)| key.to_owned()).collect()
}

// ---------------------------------------------------------------------------
// Items
// ---------------------------------------------------------------------------

/// `toml_edit::value` of a string.
#[verifier::external_body]
pub(crate) fn text_item(text: &str) -> (item: Item)
    ensures
        item_node(item) == Node::Text(text@),
        legible_value(item),
{
    toml_edit::value(text)
}

/// `toml_edit::value` of an integer.
#[verifier::external_body]
pub(crate) fn number_item(number: i64) -> (item: Item)
    ensures
        item_node(item) == Node::Number(number),
        legible_value(item),
{
    toml_edit::value(number)
}

/// The variant `Item::Table`.
#[verifier::external_body]
pub(crate) fn table_item(table: Table) -> (item: Item)
    ensures
        item_node(item) == Node::Section(table_entries(table)),
        legible_as(item, table),
{
    Item::Table(table)
}

/// The variant `Item::ArrayOfTables` of an empty `ArrayOfTables::new`.
#[verifier::external_body]
pub(crate) fn no_sections() -> (item: Item)
    ensures
        item_node(item) == Node::Sections(Seq::empty()),
        forall|keys: nat, dots: nat|
            keys <= longest() ==> #[trigger] legible_item(item, keys, dots),
{
    Item::ArrayOfTables(ArrayOfTables::new())
}

/// The variant `Item::Value` of an empty `Array::new`.
#[verifier::external_body]
pub(crate) fn no_values() -> (item: Item)
    ensures
        item_node(item) == Node::List(Seq::empty()),
        legible_value(item),
{
    Item::Value(Value::Array(Array::new()))
}

/// `Item::is_none`.
#[verifier::external_body]
pub(crate) fn is_nothing(item: &Item) -> (nothing: bool)
    ensures
        nothing == (item_node(*item) is Nothing),
{
    item.is_none()
}

/// `Item::as_str`.
#[verifier::external_body]
pub(crate) fn item_text<'a>(item: &'a Item) -> (text: Option<&'a str>)
    ensures
        match text {
            Some(text) => item_node(*item) == Node::Text(text@),
            None => !(item_node(*item) is Text),
        },
{
    item.as_str()
}

/// `Item::as_integer`.
#[verifier::external_body]
pub(crate) fn item_number(item: &Item) -> (number: Option<i64>)
    ensures
        match number {
            Some(number) => item_node(*item) == Node::Number(number),
            None => !(item_node(*item) is Number),
        },
{
    item.as_integer()
}

/// `Item::as_table`.
#[verifier::external_body]
pub(crate) fn item_table<'a>(item: &'a Item) -> (table: Option<&'a Table>)
    ensures
        match table {
            Some(table) => item_node(*item) == Node::Section(table_entries(*table)),
            None => !(item_node(*item) is Section),
        },
{
    item.as_table()
}

/// `Item::as_table_mut`: what is done to the table is done to the item.
#[verifier::external_body]
pub(crate) fn item_table_mut<'a>(item: &'a mut Item) -> (table: Option<&'a mut Table>)
    ensures
        match table {
            Some(table) => {
                &&& item_node(*old(item)) == Node::Section(table_entries(*table))
                &&& item_node(*final(item)) == Node::Section(table_entries(*final(table)))
                &&& legible_as(*old(item), *table)
                &&& legible_as(*final(item), *final(table))
            },
            None => !(item_node(*old(item)) is Section) && *final(item) == *old(item),
        },
{
    item.as_table_mut()
}

/// `Item::as_array`.
#[verifier::external_body]
pub(crate) fn item_array<'a>(item: &'a Item) -> (array: Option<&'a Array>)
    ensures
        match array {
            Some(array) => item_node(*item) == Node::List(array_nodes(*array)),
            None => !(item_node(*item) is List),
        },
{
    item.as_array()
}

/// `Item::as_array_mut`: what is done to the array is done to the item.
#[verifier::external_body]
pub(crate) fn item_array_mut<'a>(item: &'a mut Item) -> (array: Option<&'a mut Array>)
    ensures
        match array {
            Some(array) => {
                &&& item_node(*old(item)) == Node::List(array_nodes(*array))
                &&& item_node(*final(item)) == Node::List(array_nodes(*final(array)))
                &&& legible_as_array(*old(item), *array)
                &&& legible_as_array(*final(item), *final(array))
            },
            None => !(item_node(*old(item)) is List) && *final(item) == *old(item),
        },
{
    item.as_array_mut()
}

/// `Item::as_array_of_tables`.
#[verifier::external_body]
pub(crate) fn item_sections<'a>(item: &'a Item) -> (sections: Option<&'a ArrayOfTables>)
    ensures
        match sections {
            Some(sections) => item_node(*item) == Node::Sections(section_list(*sections)),
            None => !(item_node(*item) is Sections),
        },
{
    item.as_array_of_tables()
}

/// `Item::as_array_of_tables_mut`: what is done to the tables is done to the
/// item.
#[verifier::external_body]
pub(crate) fn item_sections_mut<'a>(item: &'a mut Item) -> (sections: Option<&'a mut ArrayOfTables>)
    ensures
        match sections {
            Some(sections) => {
                &&& item_node(*old(item)) == Node::Sections(section_list(*sections))
                &&& item_node(*final(item)) == Node::Sections(section_list(*final(sections)))
                &&& legible_as_sections(*old(item), *sections)
                &&& legible_as_sections(*final(item), *final(sections))
            },
            None => !(item_node(*old(item)) is Sections) && *final(item) == *old(item),
        },
{
    item.as_array_of_tables_mut()
}

// ---------------------------------------------------------------------------
// Arrays, inline tables
// ---------------------------------------------------------------------------

/// `Array::len` counts the items.
#[verifier::external_body]
pub(crate) fn array_len(array: &Array) -> (len: usize)
    ensures
        len == array_nodes(*array).len(),
{
    array.len()
}

/// `Item::get` with an index gives the item of an array, or the table of an
/// array of tables, that stands there; nothing else has one.
#[verifier::external_body]
pub(crate) fn item_at<'a>(item: &'a Item, index: usize) -> (found: Option<&'a Item>)
    ensures
        match found {
            Some(found) => element_of(item_node(*item), index as int) == Some(item_node(*found)),
            None => element_of(item_node(*item), index as int) is None,
        },
{
    item.get(index)
}

/// `Array::push` appends a string.
#[verifier::external_body]
pub(crate) fn array_push(array: &mut Array, text: &str)
    ensures
        array_nodes(*final(array)) == array_nodes(*old(array)).push(Node::Text(text@)),
        legible_array(*old(array)) ==> legible_array(*final(array)),
{
    array.push(text)
}

/// `ArrayOfTables::iter` walks the tables in their order.
#[verifier::external_body]
pub(crate) fn sections_tables<'a>(sections: &'a ArrayOfTables) -> (tables: Vec<&'a Table>)
    ensures
        tables_entries(tables@) == section_list(*sections),
{
    sections.iter().collect()
}

/// `ArrayOfTables::push` appends a table. Without a place, and with no tables in
/// those before it, it is written right behind them; where these have tables of
/// their own, it may come before one of those, so nothing is said of that.
#[verifier::external_body]
pub(crate) fn sections_push(sections: &mut ArrayOfTables, table: Table)
    ensures
        section_list(*final(sections)) == section_list(*old(sections)).push(table_entries(table)),
        all_tables_plain(section_list(*old(sections))) && all_plain(table_entries(table))
            && unplaced(table) && !dotted(table) ==> forall|keys: nat|
            legible_sections(*old(sections), keys) && legible_table(table, keys, 0)
                ==> #[trigger] legible_sections(*final(sections), keys),
{
    sections.push(table)
}

/// `ArrayOfTables::remove` takes out the table at an index.
#[verifier::external_body]
pub(crate) fn sections_remove(sections: &mut ArrayOfTables, index: usize)
    requires
        index < section_list(*old(sections)).len(),
    ensures
        section_list(*final(sections)) == section_list(*old(sections)).remove(index as int),
        forall|keys: nat|
            legible_sections(*old(sections), keys) ==> #[trigger] legible_sections(
                *final(sections),
                keys,
            ),
{
    sections.remove(index);
}

/// `Item::get` with a key gives the item that a table of either kind has for
/// it, unless the key has no value; nothing else has one.
#[verifier::external_body]
pub(crate) fn item_field<'a>(item: &'a Item, key: &str) -> (found: Option<&'a Item>)
    ensures
        match found {
            Some(found) => field_of(item_node(*item), key@) == Some(item_node(*found)),
            None => field_of(item_node(*item), key@) is None,
        },
{
    item.get(key)
}

/// `Item::as_inline_table`.
#[verifier::external_body]
pub(crate) fn item_inline<'a>(item: &'a Item) -> (table: Option<&'a InlineTable>)
    ensures
        match table {
            Some(table) => item_node(*item) == Node::Inline(inline_entries(*table)),
            None => !(item_node(*item) is Inline),
        },
{
    item.as_inline_table()
}

/// `TableLike::iter` on an `InlineTable` walks all its items in their order,
/// whatever they are.
#[verifier::external_body]
pub(crate) fn inline_items<'a>(table: &'a InlineTable) -> (items: Vec<(&'a str, &'a Item)>)
    ensures
        pair_nodes(items@) == inline_entries(*table),
{
    toml_edit::TableLike::iter(table).collect()
}

} // verus!
