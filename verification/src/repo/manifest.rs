//! Editing the manifest: `[[repo]]` entries in the local configuration file.

use toml_edit::DocumentMut;
use toml_edit::Table;
use vstd::prelude::*;

use super::entry::default_name;
use super::entry::url_name;
use super::entry::RepoEntry;
use super::entry::RepoError;
use crate::files::FileRead;
use crate::lock::LockError;
use crate::path::FsPath;
use crate::text;
use crate::toml;
use crate::toml::Entries;
use crate::toml::Node;

verus! {

/// The tables under `[[repo]]`, when the document can have such tables: the
/// key is not taken by something else.
pub open spec fn manifest_tables(entries: Entries) -> Option<Seq<Entries>> {
    match toml::lookup(entries, "repo"@) {
        Some(Node::Sections(tables)) => Some(tables),
        Some(_) => None,
        None => Some(Seq::empty()),
    }
}

/// The document with these tables under `[[repo]]`.
pub open spec fn with_tables(entries: Entries, tables: Seq<Entries>) -> Entries {
    toml::put(entries, "repo"@, Node::Sections(tables))
}

/// A table with one more string, if there is one to add.
pub open spec fn with_field(table: Entries, key: Seq<char>, value: Option<String>) -> Entries {
    match value {
        Some(value) => toml::put(table, key, Node::Text(value@)),
        None => table,
    }
}

/// The table that writes an entry: its fields in a fixed order, without those
/// that are left to their defaults.
pub open spec fn entry_table(entry: RepoEntry) -> Entries {
    let named = with_field(Seq::empty(), "name"@, entry.name);
    let located = toml::put(named, "url"@, Node::Text(entry.url@));
    let placed = with_field(located, "target"@, entry.target);
    with_field(placed, "rev"@, entry.rev)
}

/// A string of a table.
pub open spec fn field(table: Entries, key: Seq<char>) -> Option<Seq<char>> {
    match toml::lookup(table, key) {
        Some(Node::Text(value)) => Some(value),
        _ => None,
    }
}

/// The effective name that a table declares.
pub open spec fn table_name(table: Entries) -> Seq<char> {
    match field(table, "name"@) {
        Some(name) => name,
        None => url_name(
            match field(table, "url"@) {
                Some(url) => url,
                None => ""@,
            },
        ),
    }
}

/// The effective target that a table declares.
pub open spec fn table_target(table: Entries) -> Seq<char> {
    match field(table, "target"@) {
        Some(target) => target,
        None => table_name(table),
    }
}

/// Whether a table declares the entry that goes by `name`.
pub open spec fn goes_by(table: Entries, name: Seq<char>) -> bool {
    table_name(table) == name || table_target(table) == name
}

/// The index of the first table that goes by `name`, or the number of tables.
pub open spec fn table_index(tables: Seq<Entries>, name: Seq<char>) -> int
    decreases tables.len(),
{
    if tables.len() == 0 || goes_by(tables[0], name) {
        0
    } else {
        1 + table_index(tables.skip(1), name)
    }
}

/// What [`table_index`] means.
pub proof fn lemma_table_index(tables: Seq<Entries>, name: Seq<char>)
    ensures
        0 <= table_index(tables, name) <= tables.len(),
        table_index(tables, name) < tables.len() ==> goes_by(
            tables[table_index(tables, name)],
            name,
        ),
        forall|i: int| 0 <= i < table_index(tables, name) ==> !goes_by(#[trigger] tables[i], name),
    decreases tables.len(),
{
    if tables.len() == 0 || goes_by(tables[0], name) {
    } else {
        let rest = tables.skip(1);
        lemma_table_index(rest, name);
        assert forall|i: int| 0 <= i < table_index(tables, name) implies !goes_by(
            #[trigger] tables[i],
            name,
        ) by {
            if i > 0 {
                assert(tables[i] == rest[i - 1]);
            }
        }
    }
}

/// Whether a text, read as a manifest, has these tables under `[[repo]]`.
pub open spec fn declares(text: Seq<char>, tables: Seq<Entries>) -> bool {
    toml::parsed_toml(text) matches Ok(read) && manifest_tables(read) == Some(tables)
}

/// A text that is read back has the tables.
proof fn lemma_declares(text: Seq<char>, entries: Entries, tables: Seq<Entries>)
    requires
        toml::read_back(text, entries),
        toml::lookup(entries, "repo"@) == Some(Node::Sections(tables)),
        toml::all_tables_plain(tables),
    ensures
        declares(text, tables),
{
    let read = toml::parsed_toml(text)->Ok_0;
    toml::lemma_one_key(read, "repo"@);
    toml::lemma_one_key(entries, "repo"@);
    if tables.len() == 0 {
        assert(tables =~= Seq::<Entries>::empty());
        assert(toml::lookup(entries, "repo"@) == Some(Node::Sections(Seq::empty())));
    } else {
        assert(toml::tame(toml::leaf(entries, seq!["repo"@])));
        assert(toml::leaf(read, seq!["repo"@]) == Some(Node::Sections(tables)));
    }
}

/// A manifest that was read.
#[derive(Debug)]
pub struct Manifest {
    doc: DocumentMut,
}

impl Manifest {
    /// What the document holds.
    pub closed spec fn entries(&self) -> Entries {
        toml::document_entries(self.doc)
    }

    /// The text the document renders to.
    pub closed spec fn rendering(&self) -> Seq<char> {
        toml::document_text(self.doc)
    }

    /// Whether the document is written as TOML is.
    pub closed spec fn legible(&self) -> bool {
        toml::legible_document(self.doc)
    }

    /// Takes what was read of the manifest at `path`; a missing file is an
    /// empty manifest.
    pub fn load(path: &FsPath, file: &FileRead) -> (manifest: Result<Manifest, RepoError>)
        ensures
            match *file {
                FileRead::Absent => manifest is Ok && manifest->Ok_0.entries() == Seq::<
                    (Seq<char>, Node),
                >::empty(),
                FileRead::Unreadable(message) => manifest == Err::<Manifest, RepoError>(
                    RepoError::Io(message),
                ),
                FileRead::Text(content) => match toml::parsed_toml(content@) {
                    Ok(entries) => manifest is Ok && manifest->Ok_0.entries() == entries,
                    Err(problem) => manifest matches Err(
                        RepoError::Lock(LockError::Parse { path: at, source }),
                    ) && at@ == path@ && toml::toml_error_text(source) == problem,
                },
            },
            manifest matches Ok(manifest) ==> manifest.legible(),
    {
        match file {
            FileRead::Absent => Ok(Manifest { doc: toml::new_document() }),
            FileRead::Unreadable(message) => Err(RepoError::Io(message.clone())),
            FileRead::Text(content) => match toml::parse_document(content.as_str()) {
                Ok(doc) => Ok(Manifest { doc }),
                Err(source) => Err(
                    RepoError::Lock(LockError::Parse { path: path.clone(), source }),
                ),
            },
        }
    }

    /// Whether entries can be edited: `repo` is an array of tables, or not
    /// there yet.
    pub fn can_edit(&self) -> (yes: bool)
        ensures
            yes == manifest_tables(self.entries()) is Some,
    {
        match toml::get(toml::root(&self.doc), "repo") {
            Some(item) => toml::item_sections(item).is_some(),
            None => true,
        }
    }
}

proof fn lemma_put_plain(table: Entries, key: Seq<char>, node: Node)
    requires
        toml::plain(node),
    ensures
        toml::all_plain(table) ==> toml::all_plain(toml::put(table, key, node)),
{
    toml::lemma_slot(table, key);
}

fn assign_if(table: &mut Table, key: &str, value: &Option<String>)
    ensures
        toml::table_entries(*final(table)) == with_field(
            toml::table_entries(*old(table)),
            key@,
            *value,
        ),
        toml::dotted(*final(table)) == toml::dotted(*old(table)),
        !toml::dotted(*old(table)) ==> toml::as_legible(*old(table), *final(table)),
        toml::unplaced(*final(table)) == toml::unplaced(*old(table)),
        toml::all_plain(toml::table_entries(*old(table))) ==> toml::all_plain(
            toml::table_entries(*final(table)),
        ),
{
    proof {
        if let Some(value) = value {
            lemma_put_plain(toml::table_entries(*table), key@, Node::Text(value@));
        }
    }
    if let Some(value) = value {
        toml::assign(table, key, toml::text_item(value.as_str()));
    }
}

/// Appends a `[[repo]]` entry to the manifest and returns the text to write.
/// **The entries are all there when the file is read again**, where the tables
/// under `[[repo]]` have nothing but plain values. Everything else in the
/// document stays; that comments and formatting stay too is `toml_edit`'s doing
/// and is not stated.
pub fn append_manifest_entry(manifest: &mut Manifest, entry: &RepoEntry) -> (content: String)
    requires
        manifest_tables(old(manifest).entries()) is Some,
    ensures
        final(manifest).entries() == with_tables(
            old(manifest).entries(),
            manifest_tables(old(manifest).entries())->0.push(entry_table(*entry)),
        ),
        manifest_tables(final(manifest).entries()) == Some(
            manifest_tables(old(manifest).entries())->0.push(entry_table(*entry)),
        ),
        content@ == final(manifest).rendering(),
        old(manifest).legible() && toml::all_tables_plain(
            manifest_tables(old(manifest).entries())->0,
        ) ==> final(manifest).legible() && toml::all_tables_plain(
            manifest_tables(final(manifest).entries())->0,
        ) && declares(
            content@,
            manifest_tables(old(manifest).entries())->0.push(entry_table(*entry)),
        ),
{
    let mut table = toml::new_table();
    proof {
        lemma_put_plain(
            with_field(Seq::empty(), "name"@, entry.name),
            "url"@,
            Node::Text(entry.url@),
        );
    }
    assign_if(&mut table, "name", &entry.name);
    toml::assign(&mut table, "url", toml::text_item(entry.url.as_str()));
    assign_if(&mut table, "target", &entry.target);
    assign_if(&mut table, "rev", &entry.rev);
    assert(toml::table_entries(table) == entry_table(*entry));
    let ghost before = manifest.entries();
    proof {
        toml::lemma_slot(before, "repo"@);
        let tables = manifest_tables(before)->0.push(entry_table(*entry));
        toml::put_is_found(before, "repo"@, Node::Sections(tables));
    }
    let ghost legible = manifest.legible();
    let item = toml::entry_or(toml::root_mut(&mut manifest.doc), "repo", toml::no_sections());
    if toml::is_nothing(item) {
        *item = toml::no_sections();
    }
    assert(legible ==> toml::legible_item(*item, 1, 1));
    if let Some(sections) = toml::item_sections_mut(item) {
        assert(legible ==> toml::legible_sections(*sections, 1));
        toml::sections_push(sections, table);
    }
    let content = toml::render_document(&manifest.doc);
    proof {
        let tables = manifest_tables(before)->0;
        let more = tables.push(entry_table(*entry));
        if toml::all_tables_plain(tables) && manifest.legible() {
            assert forall|i: int| 0 <= i < more.len() implies toml::all_plain(#[trigger] more[i]) by {
                if i < tables.len() {
                    assert(toml::all_plain(tables[i]));
                }
            }
            lemma_declares(content@, manifest.entries(), more);
        }
    }
    content
}

fn text_field(table: &Table, key: &str) -> (value: Option<String>)
    ensures
        super::materialize::maybe(value) == field(toml::table_entries(*table), key@),
{
    match toml::get(table, key) {
        Some(item) => match toml::item_text(item) {
            Some(value) => Some(value.to_owned()),
            None => None,
        },
        None => None,
    }
}

fn table_goes_by(table: &Table, name: &str) -> (yes: bool)
    ensures
        yes == goes_by(toml::table_entries(*table), name@),
{
    let effective = match text_field(table, "name") {
        Some(name) => name,
        None => match text_field(table, "url") {
            Some(url) => default_name(url.as_str()),
            None => default_name(""),
        },
    };
    let target = match text_field(table, "target") {
        Some(target) => target,
        None => effective.clone(),
    };
    text::same(effective.as_str(), name) || text::same(target.as_str(), name)
}

fn find_table(manifest: &Manifest, name: &str) -> (index: Option<usize>)
    ensures
        match index {
            Some(index) => {
                &&& toml::lookup(manifest.entries(), "repo"@) matches Some(Node::Sections(tables))
                &&& index == table_index(tables, name@)
                &&& index < tables.len()
            },
            None => manifest_tables(manifest.entries()) matches Some(tables) ==> table_index(
                tables,
                name@,
            ) == tables.len(),
        },
{
    let sections = match toml::get(toml::root(&manifest.doc), "repo") {
        Some(item) => match toml::item_sections(item) {
            Some(sections) => sections,
            None => return None,
        },
        None => return None,
    };
    let tables = toml::sections_tables(sections);
    let ghost list = toml::tables_entries(tables@);
    let mut i: usize = 0;
    assert(list.skip(0) =~= list);
    while i < tables.len()
        invariant
            i <= tables.len(),
            list == toml::tables_entries(tables@),
            toml::lookup(manifest.entries(), "repo"@) == Some(Node::Sections(list)),
            table_index(list, name@) == i + table_index(list.skip(i as int), name@),
        decreases tables.len() - i,
    {
        assert(list.skip(i as int)[0] == toml::table_entries(*tables@[i as int]));
        if table_goes_by(tables[i], name) {
            return Some(i);
        }
        assert(list.skip(i as int).skip(1) =~= list.skip(i + 1));
        i = i + 1;
    }
    None
}

/// Removes the entry whose effective name (or target) equals `name`, and
/// returns the text to write; `None` when there is no such entry.
pub fn remove_manifest_entry(manifest: &mut Manifest, name: &str) -> (content: Option<String>)
    requires
        manifest_tables(old(manifest).entries()) is Some,
    ensures
        ({
            let tables = manifest_tables(old(manifest).entries())->0;
            let index = table_index(tables, name@);
            if index < tables.len() {
                &&& final(manifest).entries() == with_tables(
                    old(manifest).entries(),
                    tables.remove(index),
                )
                &&& manifest_tables(final(manifest).entries()) == Some(tables.remove(index))
                &&& content is Some
                &&& content->0@ == final(manifest).rendering()
                &&& old(manifest).legible() ==> final(manifest).legible()
                &&& old(manifest).legible() && toml::all_tables_plain(tables) ==> declares(
                    content->0@,
                    tables.remove(index),
                ) && toml::all_tables_plain(tables.remove(index))
            } else {
                &&& *final(manifest) == *old(manifest)
                &&& content is None
            }
        }),
{
    let index = match find_table(manifest, name) {
        Some(index) => index,
        None => return None,
    };
    let ghost before = manifest.entries();
    proof {
        let left = manifest_tables(before)->0.remove(index as int);
        toml::put_is_found(before, "repo"@, Node::Sections(left));
    }
    if let Some(item) = toml::get_mut(toml::root_mut(&mut manifest.doc), "repo") {
        if let Some(sections) = toml::item_sections_mut(item) {
            toml::sections_remove(sections, index);
        }
    }
    let content = toml::render_document(&manifest.doc);
    proof {
        let tables = manifest_tables(before)->0;
        let left = tables.remove(index as int);
        if toml::all_tables_plain(tables) && manifest.legible() {
            assert forall|i: int| 0 <= i < left.len() implies toml::all_plain(#[trigger] left[i]) by {
                let j = if i < index {
                    i
                } else {
                    i + 1
                };
                assert(left[i] == tables[j]);
            }
            lemma_declares(content@, manifest.entries(), left);
        }
    }
    Some(content)
}

// ---------------------------------------------------------------------------
// Laws
// ---------------------------------------------------------------------------

proof fn lemma_fields_differ()
    ensures
        "name"@ != "url"@,
        "name"@ != "target"@,
        "name"@ != "rev"@,
        "url"@ != "target"@,
        "url"@ != "rev"@,
        "target"@ != "rev"@,
{
    reveal_strlit("name");
    reveal_strlit("url");
    reveal_strlit("target");
    reveal_strlit("rev");
    assert("name"@.len() == 4);
    assert("url"@.len() == 3);
    assert("target"@.len() == 6);
    assert("rev"@.len() == 3);
    assert("url"@[0] != "rev"@[0]);
}

proof fn lemma_with_field(table: Entries, key: Seq<char>, value: Option<String>, other: Seq<char>)
    ensures
        value is Some ==> field(with_field(table, key, value), key) == Some(value->0@),
        value is None ==> with_field(table, key, value) == table,
        other != key ==> field(with_field(table, key, value), other) == field(table, other),
{
    if let Some(value) = value {
        toml::put_is_found(table, key, Node::Text(value@));
        if other != key {
            toml::lemma_put_elsewhere(table, key, Node::Text(value@), other);
        }
    }
}

/// **An entry is written as it is**: every field that it has, and no other.
pub proof fn entries_are_written_as_they_are(entry: RepoEntry)
    ensures
        field(entry_table(entry), "name"@) == super::materialize::maybe(entry.name),
        field(entry_table(entry), "url"@) == Some(entry.url@),
        field(entry_table(entry), "target"@) == super::materialize::maybe(entry.target),
        field(entry_table(entry), "rev"@) == super::materialize::maybe(entry.rev),
        table_name(entry_table(entry)) == super::entry::name_of(entry),
        table_target(entry_table(entry)) == super::entry::target_of(entry),
{
    lemma_fields_differ();
    let none = Seq::<(Seq<char>, Node)>::empty();
    let named = with_field(none, "name"@, entry.name);
    let located = toml::put(named, "url"@, Node::Text(entry.url@));
    let placed = with_field(located, "target"@, entry.target);
    lemma_with_field(none, "name"@, entry.name, "target"@);
    lemma_with_field(none, "name"@, entry.name, "rev"@);
    toml::put_is_found(named, "url"@, Node::Text(entry.url@));
    toml::lemma_put_elsewhere(named, "url"@, Node::Text(entry.url@), "name"@);
    toml::lemma_put_elsewhere(named, "url"@, Node::Text(entry.url@), "target"@);
    toml::lemma_put_elsewhere(named, "url"@, Node::Text(entry.url@), "rev"@);
    lemma_with_field(located, "target"@, entry.target, "name"@);
    lemma_with_field(located, "target"@, entry.target, "url"@);
    lemma_with_field(located, "target"@, entry.target, "rev"@);
    lemma_with_field(placed, "rev"@, entry.rev, "name"@);
    lemma_with_field(placed, "rev"@, entry.rev, "url"@);
    lemma_with_field(placed, "rev"@, entry.rev, "target"@);
}

/// **Removing an appended entry gives the manifest's entries back**, when no
/// other entry goes by its name.
pub proof fn removing_undoes_appending(tables: Seq<Entries>, entry: RepoEntry)
    requires
        forall|i: int|
            0 <= i < tables.len() ==> !goes_by(
                #[trigger] tables[i],
                super::entry::name_of(entry),
            ),
    ensures
        ({
            let appended = tables.push(entry_table(entry));
            let index = table_index(appended, super::entry::name_of(entry));
            index == tables.len() && appended.remove(index) == tables
        }),
{
    let name = super::entry::name_of(entry);
    let appended = tables.push(entry_table(entry));
    entries_are_written_as_they_are(entry);
    lemma_table_index(appended, name);
    let index = table_index(appended, name);
    if index < tables.len() {
        assert(goes_by(tables[index], name));
    } else if index == appended.len() {
        assert(goes_by(appended[tables.len() as int], name));
    }
    assert(appended.remove(index) =~= tables);
}

/// **Editing the entries touches nothing else**: every other key of the
/// document holds what it held.
pub proof fn other_keys_are_left_alone(
    entries: Entries,
    tables: Seq<Entries>,
    key: Seq<char>,
)
    requires
        key != "repo"@,
    ensures
        toml::lookup(with_tables(entries, tables), key) == toml::lookup(entries, key),
        manifest_tables(with_tables(entries, tables)) == Some(tables),
{
    toml::put_is_found(entries, "repo"@, Node::Sections(tables));
    toml::lemma_put_elsewhere(entries, "repo"@, Node::Sections(tables), key);
}

/// **A table goes by its name, or by its target.** Without a name it goes by the
/// last part of its url.
pub proof fn tables_go_by_name_or_target(table: Entries, name: Seq<char>)
    ensures
        ({
            let called = match toml::lookup(table, "name"@) {
                Some(Node::Text(text)) => text,
                _ => match toml::lookup(table, "url"@) {
                    Some(Node::Text(url)) => url_name(url),
                    _ => url_name(""@),
                },
            };
            goes_by(table, name) <==> called == name || toml::lookup(table, "target"@) == Some(
                Node::Text(name),
            )
        }),
{
}

} // verus!
