//! Reading typed entries out of configuration values.
//!
//! A structure is written as a table of its fields, and fields that it does
//! not have are rejected. It may also be written as the list of its fields in
//! order. A choice is written as its name, or as a table that maps its name to
//! nothing.

use toml_edit::Item;
use vstd::prelude::*;

use crate::text;
use crate::toml;
use crate::toml::Node;

verus! {

/// The fields of a structure with these field names, as a value gives them:
/// `None` when the value is no such structure. A list has to have the first
/// `least` fields.
pub open spec fn fields_of(node: Node, names: Seq<Seq<char>>, least: int) -> Option<
    Seq<Option<Node>>,
> {
    match (toml::table_of(node), toml::list_of(node)) {
        (Some(entries), _) => if forall|i: int|
            0 <= i < toml::live_keys(entries).len() ==> names.contains(
                #[trigger] toml::live_keys(entries)[i],
            ) {
            Some(names.map_values(|name: Seq<char>| toml::lookup(entries, name)))
        } else {
            None
        },
        (None, Some(list)) => if list.len() >= least {
            Some(
                Seq::new(
                    names.len(),
                    |i: int|
                        if i < list.len() {
                            Some(list[i])
                        } else {
                            None
                        },
                ),
            )
        } else {
            None
        },
        (None, None) => None,
    }
}

/// A field that has to be a string.
pub open spec fn needed_text(field: Option<Node>) -> Option<Seq<char>> {
    match field {
        Some(Node::Text(text)) => Some(text),
        _ => None,
    }
}

/// A field that may be left out, and is a string otherwise; `None` when it is
/// something else.
pub open spec fn optional_text(field: Option<Node>) -> Option<Option<Seq<char>>> {
    match field {
        None => Some(None),
        Some(Node::Text(text)) => Some(Some(text)),
        Some(_) => None,
    }
}

/// The strings of a list of strings.
pub open spec fn texts_of(node: Node) -> Option<Seq<Seq<char>>> {
    match toml::list_of(node) {
        Some(list) => if forall|i: int| 0 <= i < list.len() ==> (#[trigger] list[i]) is Text {
            Some(list.map_values(|n: Node| n->Text_0))
        } else {
            None
        },
        None => None,
    }
}

/// The choice that a value makes between `names`, by index.
pub open spec fn choice_of(node: Node, names: Seq<Seq<char>>) -> Option<int> {
    match (node, toml::table_of(node)) {
        (Node::Text(text), _) => index_of(names, text),
        (_, Some(entries)) => {
            let keys = toml::live_keys(entries);
            if keys.len() == 1 && blank_value(toml::lookup(entries, keys[0])) {
                index_of(names, keys[0])
            } else {
                None
            }
        },
        _ => None,
    }
}

/// An empty list or table.
pub open spec fn blank_value(value: Option<Node>) -> bool {
    match value {
        Some(node) => match (toml::table_of(node), toml::list_of(node)) {
            (Some(entries), _) => toml::live_keys(entries).len() == 0,
            (None, Some(list)) => list.len() == 0,
            (None, None) => false,
        },
        None => false,
    }
}

/// The index of the first occurrence of a text.
pub open spec fn index_of(names: Seq<Seq<char>>, text: Seq<char>) -> Option<int>
    decreases names.len(),
{
    if names.len() == 0 {
        None
    } else if names[0] == text {
        Some(0)
    } else {
        match index_of(names.skip(1), text) {
            Some(i) => Some(i + 1),
            None => None,
        }
    }
}

/// The views of a list of names.
pub open spec fn name_views(names: Seq<&str>) -> Seq<Seq<char>> {
    names.map_values(|name: &str| name@)
}

/// An optional value by what it holds.
pub open spec fn node_in(value: Option<&Item>) -> Option<Node> {
    match value {
        Some(value) => Some(toml::item_node(*value)),
        None => None,
    }
}

/// Optional values by what they hold.
pub open spec fn nodes_in(values: Seq<Option<&Item>>) -> Seq<Option<Node>> {
    values.map_values(|value: Option<&Item>| node_in(value))
}

fn position(names: &Vec<&str>, text: &str) -> (index: Option<usize>)
    ensures
        match index {
            Some(index) => index_of(name_views(names@), text@) == Some(index as int) && index
                < names.len(),
            None => index_of(name_views(names@), text@) is None,
        },
        index is Some == name_views(names@).contains(text@),
{
    let ghost all = name_views(names@);
    let mut i: usize = 0;
    assert(all.skip(0) =~= all);
    while i < names.len()
        invariant
            i <= names.len(),
            all == name_views(names@),
            forall|j: int| 0 <= j < i ==> #[trigger] all[j] != text@,
            index_of(all, text@) == (match index_of(all.skip(i as int), text@) {
                Some(k) => Some(k + i),
                None => None,
            }),
        decreases names.len() - i,
    {
        assert(all.skip(i as int)[0] == names@[i as int]@);
        if text::same(names[i], text) {
            assert(all[i as int] == text@);
            return Some(i);
        }
        assert(all.skip(i as int).skip(1) =~= all.skip(i + 1));
        i = i + 1;
    }
    None
}

/// The items of a list, or the tables of an array of tables; none where there
/// is no such thing.
pub(crate) fn elements<'a>(item: &'a Item) -> (list: Vec<&'a Item>)
    ensures
        toml::item_nodes(list@) == (match toml::list_of(toml::item_node(*item)) {
            Some(nodes) => nodes,
            None => Seq::empty(),
        }),
{
    let len: usize = if let Some(array) = toml::item_array(item) {
        toml::array_len(array)
    } else if let Some(sections) = toml::item_sections(item) {
        toml::sections_tables(sections).len()
    } else {
        0
    };
    let ghost nodes = match toml::list_of(toml::item_node(*item)) {
        Some(nodes) => nodes,
        None => Seq::empty(),
    };
    let mut list: Vec<&'a Item> = Vec::new();
    let mut i: usize = 0;
    while i < len
        invariant
            i <= len == nodes.len(),
            len > 0 ==> toml::list_of(toml::item_node(*item)) == Some(nodes),
            list.len() == i,
            forall|j: int| 0 <= j < i ==> toml::item_node(*#[trigger] list@[j]) == nodes[j],
        decreases len - i,
    {
        if let Some(element) = toml::item_at(item, i) {
            list.push(element);
        }
        i = i + 1;
    }
    assert(toml::item_nodes(list@) =~= nodes);
    list
}

/// Whether an item is a list, or an array of tables.
fn is_list(item: &Item) -> (yes: bool)
    ensures
        yes == toml::list_of(toml::item_node(*item)) is Some,
{
    toml::item_array(item).is_some() || toml::item_sections(item).is_some()
}

/// The keys of a table of either kind that hold something.
fn live_names(item: &Item) -> (names: Option<Vec<String>>)
    ensures
        match names {
            Some(names) => toml::table_of(toml::item_node(*item)) matches Some(entries)
                && text::views(names@) == toml::live_keys(entries),
            None => toml::table_of(toml::item_node(*item)) is None,
        },
{
    if let Some(table) = toml::item_table(item) {
        return Some(toml::keys(table));
    }
    let table = match toml::item_inline(item) {
        Some(table) => table,
        None => return None,
    };
    let items = toml::inline_items(table);
    let ghost entries = toml::inline_entries(*table);
    let mut names: Vec<String> = Vec::new();
    let mut i: usize = 0;
    assert(text::views(names@) =~= toml::live_keys(entries.take(0)));
    while i < items.len()
        invariant
            i <= items.len(),
            entries == toml::pair_nodes(items@),
            text::views(names@) == toml::live_keys(entries.take(i as int)),
        decreases items.len() - i,
    {
        assert(entries.take(i + 1).drop_last() =~= entries.take(i as int));
        assert(entries[i as int] == (items@[i as int].0@, toml::item_node(*items@[i as int].1)));
        if !toml::is_nothing(items[i].1) {
            let ghost before = text::views(names@);
            names.push(items[i].0.to_owned());
            assert(text::views(names@) =~= before.push(items@[i as int].0@));
        }
        i = i + 1;
    }
    assert(entries.take(i as int) =~= entries);
    Some(names)
}

fn known_only(keys: &Vec<String>, names: &Vec<&str>) -> (yes: bool)
    ensures
        yes == forall|i: int|
            0 <= i < keys@.len() ==> name_views(names@).contains(#[trigger] text::views(keys@)[i]),
{
    let ghost live = text::views(keys@);
    let mut i: usize = 0;
    while i < keys.len()
        invariant
            i <= keys.len(),
            live == text::views(keys@),
            forall|j: int| 0 <= j < i ==> name_views(names@).contains(#[trigger] live[j]),
        decreases keys.len() - i,
    {
        assert(live[i as int] == keys@[i as int]@);
        if position(names, keys[i].as_str()).is_none() {
            return false;
        }
        i = i + 1;
    }
    true
}

/// The fields of a structure with these field names.
pub(crate) fn fields<'a>(value: &'a Item, names: &Vec<&str>, least: usize) -> (fields: Option<
    Vec<Option<&'a Item>>,
>)
    ensures
        match fields {
            Some(fields) => fields_of(
                toml::item_node(*value),
                name_views(names@),
                least as int,
            ) == Some(nodes_in(fields@)) && fields@.len() == names@.len(),
            None => fields_of(
                toml::item_node(*value),
                name_views(names@),
                least as int,
            ) is None,
        },
{
    let mut found: Vec<Option<&'a Item>> = Vec::new();
    let ghost wanted = fields_of(toml::item_node(*value), name_views(names@), least as int);
    if let Some(keys) = live_names(value) {
        if !known_only(&keys, names) {
            return None;
        }
        let mut i: usize = 0;
        while i < names.len()
            invariant
                i <= names.len(),
                found.len() == i,
                forall|j: int|
                    0 <= j < i ==> node_in(#[trigger] found@[j]) == toml::field_of(
                        toml::item_node(*value),
                        names@[j]@,
                    ),
            decreases names.len() - i,
        {
            found.push(toml::item_field(value, names[i]));
            i = i + 1;
        }
        assert(nodes_in(found@) =~= wanted->0);
        return Some(found);
    }
    if is_list(value) {
        let list = elements(value);
        let ghost nodes = toml::item_nodes(list@);
        if list.len() < least {
            return None;
        }
        let mut i: usize = 0;
        while i < names.len()
            invariant
                i <= names.len(),
                nodes == toml::item_nodes(list@),
                found.len() == i,
                forall|j: int|
                    0 <= j < i ==> node_in(#[trigger] found@[j]) == (if j < nodes.len() {
                        Some(nodes[j])
                    } else {
                        None
                    }),
            decreases names.len() - i,
        {
            if i < list.len() {
                found.push(Some(list[i]));
            } else {
                found.push(None);
            }
            i = i + 1;
        }
        assert(nodes_in(found@) =~= wanted->0);
        return Some(found);
    }
    None
}

/// A field that has to be a string.
pub(crate) fn read_text(field: Option<&Item>) -> (text: Option<String>)
    ensures
        match text {
            Some(text) => needed_text(node_in(field)) == Some(text@),
            None => needed_text(node_in(field)) is None,
        },
{
    match field {
        Some(value) => match toml::item_text(value) {
            Some(text) => Some(text.to_owned()),
            None => None,
        },
        None => None,
    }
}

/// A field that may be left out, and is a string otherwise.
pub(crate) fn read_optional(field: Option<&Item>) -> (text: Option<Option<String>>)
    ensures
        match text {
            Some(Some(text)) => optional_text(node_in(field)) == Some(Some(text@)),
            Some(None) => optional_text(node_in(field)) == Some(None::<Seq<char>>),
            None => optional_text(node_in(field)) is None,
        },
{
    match field {
        Some(value) => match toml::item_text(value) {
            Some(text) => Some(Some(text.to_owned())),
            None => None,
        },
        None => Some(None),
    }
}

/// The strings of a list of strings.
pub(crate) fn read_texts(value: &Item) -> (texts: Option<Vec<String>>)
    ensures
        match texts {
            Some(texts) => texts_of(toml::item_node(*value)) == Some(text::views(texts@)),
            None => texts_of(toml::item_node(*value)) is None,
        },
{
    if !is_list(value) {
        return None;
    }
    let list = elements(value);
    let ghost nodes = toml::item_nodes(list@);
    let mut texts: Vec<String> = Vec::new();
    let mut i: usize = 0;
    while i < list.len()
        invariant
            i <= list.len(),
            nodes == toml::item_nodes(list@),
            toml::list_of(toml::item_node(*value)) == Some(nodes),
            texts.len() == i,
            forall|j: int| 0 <= j < i ==> #[trigger] nodes[j] == Node::Text(texts@[j]@),
        decreases list.len() - i,
    {
        assert(nodes[i as int] == toml::item_node(*list@[i as int]));
        match toml::item_text(list[i]) {
            Some(text) => texts.push(text.to_owned()),
            None => return None,
        }
        i = i + 1;
    }
    assert(texts_of(toml::item_node(*value))->0 =~= text::views(texts@));
    Some(texts)
}

fn is_blank(value: Option<&Item>) -> (yes: bool)
    ensures
        yes == blank_value(node_in(value)),
{
    match value {
        Some(value) => {
            if let Some(keys) = live_names(value) {
                return keys.len() == 0;
            }
            is_list(value) && elements(value).len() == 0
        },
        None => false,
    }
}

/// The choice that a value makes between `names`, by index.
pub(crate) fn read_choice(value: &Item, names: &Vec<&str>) -> (index: Option<usize>)
    ensures
        match index {
            Some(index) => choice_of(toml::item_node(*value), name_views(names@)) == Some(
                index as int,
            ) && index < names.len(),
            None => choice_of(toml::item_node(*value), name_views(names@)) is None,
        },
{
    if let Some(text) = toml::item_text(value) {
        return position(names, text);
    }
    if let Some(keys) = live_names(value) {
        if keys.len() == 1 {
            assert(text::views(keys@)[0] == keys@[0]@);
            if is_blank(toml::item_field(value, keys[0].as_str())) {
                return position(names, keys[0].as_str());
            }
        }
    }
    None
}

/// **A choice is the place of its word among the words.**
pub proof fn choices_are_places(names: Seq<Seq<char>>, word: Seq<char>)
    ensures
        index_of(names, word) matches Some(i) ==> 0 <= i < names.len() && names[i] == word && forall|
            j: int,
        |
            0 <= j < i ==> #[trigger] names[j] != word,
        index_of(names, word) is None ==> !names.contains(word),
        choice_of(Node::Text(word), names) == index_of(names, word),
    decreases names.len(),
{
    if names.len() > 0 && names[0] != word {
        let rest = names.skip(1);
        choices_are_places(rest, word);
        match index_of(rest, word) {
            Some(i) => {
                assert(names[i + 1] == rest[i]);
                assert forall|j: int| 0 <= j < i + 1 implies #[trigger] names[j] != word by {
                    if j > 0 {
                        assert(rest[j - 1] == names[j]);
                    }
                }
            },
            None => {
                if names.contains(word) {
                    let k = choose|k: int| 0 <= k < names.len() && names[k] == word;
                    assert(rest[k - 1] == word);
                }
            },
        }
    }
}

/// **A list gives the fields by their places**, if it has enough of them.
pub proof fn lists_give_fields_by_place(
    list: Seq<Node>,
    names: Seq<Seq<char>>,
    least: int,
    i: int,
)
    requires
        0 <= i < names.len(),
    ensures
        fields_of(Node::List(list), names, least) is Some <==> list.len() >= least,
        list.len() >= least && i < list.len() ==> fields_of(Node::List(list), names, least)->0[i]
            == Some(list[i]),
        list.len() >= least && i >= list.len() ==> fields_of(Node::List(list), names, least)->0[i]
            is None,
{
}

/// **Only a list of texts is read as texts**, each as it is.
pub proof fn only_texts_are_texts(list: Seq<Node>)
    ensures
        texts_of(Node::List(list)) is Some <==> forall|i: int|
            0 <= i < list.len() ==> (#[trigger] list[i]) is Text,
        texts_of(Node::List(list)) matches Some(texts) ==> texts.len() == list.len() && forall|i: int|
            0 <= i < list.len() ==> #[trigger] list[i] == Node::Text(texts[i]),
        forall|word: Seq<char>| #[trigger] texts_of(Node::Text(word)) is None,
{
}

/// **A table is a choice exactly if it has one key, with nothing in it**, and the key
/// is one of the words.
pub proof fn tables_choose_by_their_only_key(entries: toml::Entries, names: Seq<Seq<char>>)
    ensures
        ({
            let keys = toml::live_keys(entries);
            let value = toml::lookup(entries, keys[0]);
            let empty = match value {
                Some(Node::Inline(fields)) | Some(Node::Section(fields)) => toml::live_keys(
                    fields,
                ).len() == 0,
                Some(Node::List(list)) => list.len() == 0,
                Some(Node::Sections(tables)) => tables.len() == 0,
                _ => false,
            };
            &&& keys.len() != 1 ==> choice_of(Node::Inline(entries), names) is None
            &&& keys.len() == 1 && !empty ==> choice_of(Node::Inline(entries), names) is None
            &&& keys.len() == 1 && empty ==> choice_of(Node::Inline(entries), names) == index_of(
                names,
                keys[0],
            )
        }),
        forall|number: i64| #[trigger] choice_of(Node::Number(number), names) is None,
{
}

} // verus!
