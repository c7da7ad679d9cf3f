//! Reading `[[repo]]` entries from the configuration.

use jj_lib::config::StackedConfig;
use toml_edit::Item;
use vstd::prelude::*;

use super::entry::name_of;
use super::entry::target_of;
use super::entry::RepoEntry;
use super::manifest;
use super::materialize::maybe;
use crate::config::decode;
use crate::config::stack;
use crate::config::ConfigGetError;
use crate::toml;
use crate::toml::Entries;
use crate::toml::Node;

verus! {

/// An entry by value.
pub struct EntryView {
    /// The name.
    pub name: Option<Seq<char>>,
    /// The url.
    pub url: Seq<char>,
    /// The target.
    pub target: Option<Seq<char>>,
    /// The revision.
    pub rev: Option<Seq<char>>,
}

/// An entry by value.
pub open spec fn entry_view(entry: RepoEntry) -> EntryView {
    EntryView {
        name: maybe(entry.name),
        url: entry.url@,
        target: maybe(entry.target),
        rev: maybe(entry.rev),
    }
}

/// The fields of an entry.
pub open spec fn entry_fields() -> Seq<Seq<char>> {
    seq!["name"@, "url"@, "target"@, "rev"@]
}

/// The entry that a value writes.
pub open spec fn entry_of(node: Node) -> Option<EntryView> {
    match decode::fields_of(node, entry_fields(), 4) {
        Some(fields) => match (
            decode::optional_text(fields[0]),
            decode::needed_text(fields[1]),
            decode::optional_text(fields[2]),
            decode::optional_text(fields[3]),
        ) {
            (Some(name), Some(url), Some(target), Some(rev)) => Some(
                EntryView { name, url, target, rev },
            ),
            _ => None,
        },
        None => None,
    }
}

/// The entries that a value writes: a list, each of it an entry.
pub open spec fn entries_of(node: Node) -> Option<Seq<EntryView>> {
    match node {
        Node::List(list) => if forall|i: int|
            0 <= i < list.len() ==> entry_of(#[trigger] list[i]) is Some {
            Some(list.map_values(|n: Node| entry_of(n)->0))
        } else {
            None
        },
        _ => None,
    }
}

/// The entries by value.
pub open spec fn entry_views(entries: Seq<RepoEntry>) -> Seq<EntryView> {
    entries.map_values(|e: RepoEntry| entry_view(e))
}

fn read_entry(value: &Item) -> (entry: Option<RepoEntry>)
    ensures
        match entry {
            Some(entry) => entry_of(toml::item_node(*value)) == Some(entry_view(entry)),
            None => entry_of(toml::item_node(*value)) is None,
        },
{
    let names: Vec<&str> = vec!["name", "url", "target", "rev"];
    assert(decode::name_views(names@) =~= entry_fields());
    let fields = match decode::fields(value, &names, 4) {
        Some(fields) => fields,
        None => return None,
    };
    assert(decode::nodes_in(fields@)[0] == decode::node_in(fields@[0]));
    assert(decode::nodes_in(fields@)[1] == decode::node_in(fields@[1]));
    assert(decode::nodes_in(fields@)[2] == decode::node_in(fields@[2]));
    assert(decode::nodes_in(fields@)[3] == decode::node_in(fields@[3]));
    let name = decode::read_optional(fields[0]);
    let url = decode::read_text(fields[1]);
    let target = decode::read_optional(fields[2]);
    let rev = decode::read_optional(fields[3]);
    match (name, url, target, rev) {
        (Some(name), Some(url), Some(target), Some(rev)) => Some(
            RepoEntry { name, url, target, rev },
        ),
        _ => None,
    }
}

fn read_entries(value: &Item) -> (entries: Option<Vec<RepoEntry>>)
    ensures
        match entries {
            Some(entries) => entries_of(toml::item_node(*value)) == Some(entry_views(entries@)),
            None => entries_of(toml::item_node(*value)) is None,
        },
{
    let array = match toml::item_array(value) {
        Some(array) => array,
        None => return None,
    };
    let list = decode::elements(value);
    let ghost nodes = toml::array_nodes(*array);
    let mut entries: Vec<RepoEntry> = Vec::new();
    let mut i: usize = 0;
    while i < list.len()
        invariant
            i <= list.len(),
            nodes == toml::item_nodes(list@),
            toml::item_node(*value) == Node::List(nodes),
            entries.len() == i,
            forall|j: int|
                0 <= j < i ==> entry_of(#[trigger] nodes[j]) == Some(entry_view(entries@[j])),
        decreases list.len() - i,
    {
        assert(nodes[i as int] == toml::item_node(*list@[i as int]));
        match read_entry(list[i]) {
            Some(entry) => entries.push(entry),
            None => return None,
        }
        i = i + 1;
    }
    assert(entries_of(toml::item_node(*value))->0 =~= entry_views(entries@));
    Some(entries)
}

/// Loads `[[repo]]` entries from the local configuration stack. Missing
/// entries yield an empty list.
pub fn load_entries(local: &StackedConfig) -> (entries: Result<Vec<RepoEntry>, ConfigGetError>)
    ensures
        match stack::stacked(stack::stack_layers(*local), "repo"@) {
            None => entries matches Ok(entries) && entries@.len() == 0,
            Some(node) => match entries_of(node) {
                Some(read) => entries matches Ok(entries) && entry_views(entries@) == read,
                None => entries matches Err(err) && err.name@ == "repo"@,
            },
        },
{
    match stack::get_value(local, "repo") {
        None => Ok(Vec::new()),
        Some(value) => match read_entries(&value) {
            Some(entries) => Ok(entries),
            None => Err(ConfigGetError { name: "repo".to_owned() }),
        },
    }
}

// ---------------------------------------------------------------------------
// Laws
// ---------------------------------------------------------------------------

/// What a table of strings has for a key is the same when it becomes a value.
proof fn lemma_as_values(entries: Entries, key: Seq<char>)
    ensures
        stack::as_values(entries).len() == entries.len(),
        forall|i: int|
            0 <= i < entries.len() ==> #[trigger] stack::as_values(entries)[i] == (
                entries[i].0,
                stack::as_value(entries[i].1),
            ),
    decreases entries.len(),
{
    if entries.len() > 0 {
        let less = entries.drop_last();
        lemma_as_values(less, key);
        let all = stack::as_values(entries);
        assert forall|i: int| 0 <= i < entries.len() implies #[trigger] all[i] == (
            entries[i].0,
            stack::as_value(entries[i].1),
        ) by {
            if i < less.len() {
                assert(all[i] == stack::as_values(less)[i]);
                assert(less[i] == entries[i]);
            }
        }
    }
}

/// A table of strings is the same table when it becomes a value.
proof fn lemma_strings_stay(entries: Entries)
    requires
        forall|i: int| 0 <= i < entries.len() ==> (#[trigger] entries[i]).1 is Text,
    ensures
        stack::as_values(entries) == entries,
{
    lemma_as_values(entries, Seq::empty());
    assert(stack::as_values(entries) =~= entries);
}

proof fn lemma_field_all_text(table: Entries, key: Seq<char>, value: Option<String>)
    requires
        forall|i: int| 0 <= i < table.len() ==> (#[trigger] table[i]).1 is Text,
        forall|i: int| 0 <= i < table.len() ==> entry_fields().contains((#[trigger] table[i]).0),
        entry_fields().contains(key),
    ensures
        ({
            let after = manifest::with_field(table, key, value);
            &&& forall|i: int| 0 <= i < after.len() ==> (#[trigger] after[i]).1 is Text
            &&& forall|i: int|
                0 <= i < after.len() ==> entry_fields().contains((#[trigger] after[i]).0)
        }),
{
    if let Some(value) = value {
        toml::lemma_slot(table, key);
        let after = toml::put(table, key, Node::Text(value@));
        assert forall|i: int| 0 <= i < after.len() implies (#[trigger] after[i]).1 is Text
            && entry_fields().contains(after[i].0) by {
            if i < table.len() {
                assert(table[i].1 is Text);
                assert(entry_fields().contains(table[i].0));
            }
        }
    }
}

proof fn lemma_live_of_table(entries: Entries, names: Seq<Seq<char>>)
    requires
        forall|i: int| 0 <= i < entries.len() ==> names.contains((#[trigger] entries[i]).0),
    ensures
        forall|i: int|
            0 <= i < toml::live_keys(entries).len() ==> names.contains(
                #[trigger] toml::live_keys(entries)[i],
            ),
    decreases entries.len(),
{
    if entries.len() > 0 {
        let less = entries.drop_last();
        assert forall|i: int| 0 <= i < less.len() implies names.contains((#[trigger] less[i]).0) by {
            assert(less[i] == entries[i]);
        }
        lemma_live_of_table(less, names);
        let all = toml::live_keys(entries);
        assert forall|i: int| 0 <= i < all.len() implies names.contains(#[trigger] all[i]) by {
            if i < toml::live_keys(less).len() {
                assert(all[i] == toml::live_keys(less)[i]);
            } else {
                assert(all[i] == entries[entries.len() - 1].0);
            }
        }
    }
}

/// What a table has for a key, where it is a string, and only there, is a string
/// when the table becomes a value.
proof fn lemma_strings_of(table: Entries, key: Seq<char>)
    ensures
        match toml::lookup(stack::as_values(table), key) {
            Some(Node::Text(text)) => manifest::field(table, key) == Some(text),
            _ => manifest::field(table, key) is None,
        },
{
    lemma_as_values(table, key);
    toml::lemma_slot(table, key);
    let values = stack::as_values(table);
    let at = toml::slot(table, key);
    assert forall|i: int| 0 <= i < at implies #[trigger] values[i].0 != key by {
        assert(table[i].0 != key);
    }
    toml::lemma_slot_is(values, key, at);
}

/// A table that declares an entry goes by its name and its target.
pub proof fn lemma_declared_by(table: Entries, entry: RepoEntry)
    requires
        entry_of(stack::as_value(Node::Section(table))) == Some(entry_view(entry)),
    ensures
        manifest::table_name(table) == name_of(entry),
        manifest::table_target(table) == target_of(entry),
{
    let names = entry_fields();
    assert(names[0] == "name"@ && names[1] == "url"@ && names[2] == "target"@ && names[3]
        == "rev"@);
    lemma_strings_of(table, "name"@);
    lemma_strings_of(table, "url"@);
    lemma_strings_of(table, "target"@);
    let values = stack::as_values(table);
    let fields = decode::fields_of(Node::Inline(values), names, 4);
    assert(fields->0[0] == toml::lookup(values, "name"@));
    assert(fields->0[1] == toml::lookup(values, "url"@));
    assert(fields->0[2] == toml::lookup(values, "target"@));
    assert(fields->0[3] == toml::lookup(values, "rev"@));
}

/// The tables of an array become the values of a list, one by one.
pub proof fn lemma_as_lists(tables: Seq<Entries>)
    ensures
        stack::as_lists(tables).len() == tables.len(),
        forall|i: int|
            0 <= i < tables.len() ==> #[trigger] stack::as_lists(tables)[i] == stack::as_value(
                Node::Section(tables[i]),
            ),
    decreases tables.len(),
{
    if tables.len() > 0 {
        let less = tables.drop_last();
        lemma_as_lists(less);
        let all = stack::as_lists(tables);
        assert forall|i: int| 0 <= i < tables.len() implies #[trigger] all[i] == stack::as_value(
            Node::Section(tables[i]),
        ) by {
            if i < less.len() {
                assert(all[i] == stack::as_lists(less)[i]);
                assert(less[i] == tables[i]);
            }
        }
    }
}

/// The entries that tables declare, one by one.
pub proof fn lemma_declared_entries(tables: Seq<Entries>, entries: Seq<RepoEntry>)
    requires
        entries_of(stack::as_value(Node::Sections(tables))) == Some(entry_views(entries)),
    ensures
        tables.len() == entries.len(),
        forall|i: int|
            0 <= i < tables.len() ==> entry_of(
                stack::as_value(Node::Section(#[trigger] tables[i])),
            ) == Some(entry_view(entries[i])),
{
    lemma_as_lists(tables);
    let list = stack::as_lists(tables);
    let read = entries_of(Node::List(list))->0;
    assert(read.len() == list.len());
    assert(entry_views(entries).len() == entries.len());
    assert forall|i: int| 0 <= i < tables.len() implies entry_of(
        stack::as_value(Node::Section(#[trigger] tables[i])),
    ) == Some(entry_view(entries[i])) by {
        assert(entry_of(list[i]) is Some);
        assert(read[i] == entry_of(list[i])->0);
        assert(entry_views(entries)[i] == entry_view(entries[i]));
    }
}

/// **A table that leaves the manifest takes its entry along**, and no other one.
pub proof fn removed_tables_are_not_loaded(
    tables: Seq<Entries>,
    entries: Seq<RepoEntry>,
    index: int,
)
    requires
        entries_of(stack::as_value(Node::Sections(tables))) == Some(entry_views(entries)),
        0 <= index < tables.len(),
    ensures
        entries_of(stack::as_value(Node::Sections(tables.remove(index)))) == Some(
            entry_views(entries.remove(index)),
        ),
{
    lemma_declared_entries(tables, entries);
    let left = tables.remove(index);
    let kept = entries.remove(index);
    lemma_as_lists(left);
    let list = stack::as_lists(left);
    assert forall|i: int| 0 <= i < list.len() implies entry_of(#[trigger] list[i]) == Some(
        entry_view(kept[i]),
    ) by {
        let j = if i < index {
            i
        } else {
            i + 1
        };
        assert(left[i] == tables[j]);
        assert(kept[i] == entries[j]);
    }
    assert(list.map_values(|n: Node| entry_of(n)->0) =~= entry_views(kept));
}

/// **An entry that was written to the manifest is read back as it was.**
pub proof fn written_entries_are_read_back(entry: RepoEntry)
    ensures
        entry_of(stack::as_value(Node::Section(manifest::entry_table(entry)))) == Some(
            entry_view(entry),
        ),
{
    let names = entry_fields();
    assert(names[0] == "name"@ && names[1] == "url"@ && names[2] == "target"@ && names[3]
        == "rev"@);
    let none = Seq::<(Seq<char>, Node)>::empty();
    let named = manifest::with_field(none, "name"@, entry.name);
    let located = toml::put(named, "url"@, Node::Text(entry.url@));
    let placed = manifest::with_field(located, "target"@, entry.target);
    let table = manifest::entry_table(entry);
    lemma_field_all_text(none, "name"@, entry.name);
    lemma_field_all_text(named, "url"@, Some(entry.url));
    lemma_field_all_text(located, "target"@, entry.target);
    lemma_field_all_text(placed, "rev"@, entry.rev);
    lemma_strings_stay(table);
    lemma_live_of_table(table, names);
    manifest::entries_are_written_as_they_are(entry);
    assert forall|key: Seq<char>| true implies match #[trigger] toml::lookup(table, key) {
        Some(node) => node is Text,
        None => true,
    } by {
        toml::lemma_slot(table, key);
        let at = toml::slot(table, key);
        if at < table.len() {
            assert(table[at].1 is Text);
        }
    }
    let fields = decode::fields_of(Node::Inline(table), names, 4);
    assert(fields is Some);
    assert(fields->0[0] == toml::lookup(table, "name"@));
    assert(fields->0[1] == toml::lookup(table, "url"@));
    assert(fields->0[2] == toml::lookup(table, "target"@));
    assert(fields->0[3] == toml::lookup(table, "rev"@));
}

/// **An entry that was appended to the manifest is loaded behind the others**,
/// which are loaded as before.
pub proof fn appended_entries_are_loaded(
    tables: Seq<Entries>,
    entry: RepoEntry,
    loaded: Seq<EntryView>,
)
    requires
        entries_of(stack::as_value(Node::Sections(tables))) == Some(loaded),
    ensures
        entries_of(
            stack::as_value(Node::Sections(tables.push(manifest::entry_table(entry)))),
        ) == Some(loaded.push(entry_view(entry))),
{
    let table = manifest::entry_table(entry);
    let more = tables.push(table);
    let list = stack::as_lists(tables);
    let node = stack::as_value(Node::Section(table));
    assert(more.drop_last() =~= tables);
    assert(stack::as_lists(more) == list.push(node));
    written_entries_are_read_back(entry);
    let longer = list.push(node);
    assert forall|i: int| 0 <= i < longer.len() implies entry_of(#[trigger] longer[i]) is Some by {
        if i < list.len() {
            assert(entry_of(list[i]) is Some);
        }
    }
    assert(longer.map_values(|n: Node| entry_of(n)->0) =~= loaded.push(entry_view(entry)));
}

/// **A repository entry is a url, and a name, a target and a revision where they are
/// given**, each a text; anything else is refused.
pub proof fn entries_have_a_url(entries: Entries)
    ensures
        ({
            let read = entry_of(Node::Inline(entries));
            let name = toml::lookup(entries, "name"@);
            let url = toml::lookup(entries, "url"@);
            let target = toml::lookup(entries, "target"@);
            let rev = toml::lookup(entries, "rev"@);
            let known = forall|i: int|
                0 <= i < toml::live_keys(entries).len() ==> #[trigger] toml::live_keys(entries)[i]
                    == "name"@ || toml::live_keys(entries)[i] == "url"@ || toml::live_keys(
                    entries,
                )[i] == "target"@ || toml::live_keys(entries)[i] == "rev"@;
            let texts = url is Some && url->0 is Text && (name is None || name->0 is Text) && (
            target is None || target->0 is Text) && (rev is None || rev->0 is Text);
            &&& read is Some <==> known && texts
            &&& read matches Some(entry) ==> {
                &&& Node::Text(entry.url) == url->0
                &&& entry.name is Some == name is Some
                &&& entry.name is Some ==> Node::Text(entry.name->0) == name->0
                &&& entry.target is Some == target is Some
                &&& entry.target is Some ==> Node::Text(entry.target->0) == target->0
                &&& entry.rev is Some == rev is Some
                &&& entry.rev is Some ==> Node::Text(entry.rev->0) == rev->0
            }
        }),
{
    let names = entry_fields();
    assert(names[0] == "name"@ && names[1] == "url"@ && names[2] == "target"@ && names[3]
        == "rev"@);
    let keys = toml::live_keys(entries);
    assert forall|i: int| 0 <= i < keys.len() implies (names.contains(#[trigger] keys[i]) <==> (keys[i]
        == "name"@ || keys[i] == "url"@ || keys[i] == "target"@ || keys[i] == "rev"@)) by {
        if names.contains(keys[i]) {
            let k = choose|k: int| 0 <= k < names.len() && names[k] == keys[i];
            assert(k == 0 || k == 1 || k == 2 || k == 3);
        }
        if keys[i] == "name"@ {
            assert(names[0] == keys[i]);
        }
        if keys[i] == "url"@ {
            assert(names[1] == keys[i]);
        }
        if keys[i] == "target"@ {
            assert(names[2] == keys[i]);
        }
        if keys[i] == "rev"@ {
            assert(names[3] == keys[i]);
        }
    }
}

/// **A list of entries is read one by one**, and one that cannot be read refuses
/// them all.
pub proof fn entries_are_read_one_by_one(list: Seq<Node>, i: int)
    requires
        0 <= i < list.len(),
    ensures
        entry_of(list[i]) is None ==> entries_of(Node::List(list)) is None,
        entries_of(Node::List(list)) is Some ==> entries_of(Node::List(list))->0.len() == list.len()
            && Some(entries_of(Node::List(list))->0[i]) == entry_of(list[i]),
        (forall|k: int| 0 <= k < list.len() ==> entry_of(#[trigger] list[k]) is Some)
            ==> entries_of(Node::List(list)) is Some,
{
}

} // verus!
