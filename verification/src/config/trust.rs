//! Trust gate for untrusted (in-repo) configuration.
//!
//! `.jjunction/config.toml` is untrusted: anything with side effects — like
//! `[[link]]` — requires the workspace to be listed in the global
//! `trusted-repos` key.
//!
//! [`trust`] is the one-command onboarding path (the direnv-allow model):
//! `jjn trust` appends the current workspace root to `trusted-repos`.

use jj_lib::config::StackedConfig;
use toml_edit::DocumentMut;
use toml_edit::TomlError;
use vstd::prelude::*;
use vstd::utf8::{decode_utf8, decode_utf8_encode_utf8, encode_utf8, valid_utf8};

use super::decode;
use super::stack;
use super::stack::LayerSource;
use crate::files::FileRead;
use crate::path;
use crate::path::FsPath;
use crate::text;
use crate::toml;
use crate::toml::Entries;
use crate::toml::Node;

verus! {

/// What `trusted-repos` lists; nothing when it is missing or no list of
/// strings.
pub open spec fn listed_repos(layers: Seq<(nat, Entries)>) -> Seq<Seq<char>> {
    match stack::stacked(layers, "trusted-repos"@) {
        Some(node) => match decode::texts_of(node) {
            Some(list) => list,
            None => Seq::empty(),
        },
        None => Seq::empty(),
    }
}

/// The paths listed in the global `trusted-repos`, as they are written there.
pub fn trusted_repos(global: &StackedConfig) -> (list: Vec<String>)
    ensures
        text::views(list@) == listed_repos(stack::stack_layers(*global)),
{
    if let Some(value) = stack::get_value(global, "trusted-repos") {
        if let Some(list) = decode::read_texts(&value) {
            return list;
        }
    }
    let none: Vec<String> = Vec::new();
    assert(text::views(none@) =~= Seq::<Seq<char>>::empty());
    none
}

/// Whether one of these places is the root.
pub open spec fn trusts(places: Seq<Seq<u8>>, root: Seq<u8>) -> bool {
    exists|i: int| 0 <= i < places.len() && path::same_path(#[trigger] places[i], root)
}

/// Returns `true` if `root` is one of the `listed` places, both canonicalized
/// by the caller; see [`trusted_repos`].
pub fn is_trusted(listed: &Vec<FsPath>, root: &FsPath) -> (yes: bool)
    ensures
        yes == trusts(path::views(listed@), root@),
{
    let mut i: usize = 0;
    let ghost places = path::views(listed@);
    while i < listed.len()
        invariant
            i <= listed.len(),
            places == path::views(listed@),
            forall|j: int| 0 <= j < i ==> !path::same_path(#[trigger] places[j], root@),
        decreases listed.len() - i,
    {
        assert(places[i as int] == listed@[i as int]@);
        if listed[i].same_as(root) {
            return true;
        }
        i = i + 1;
    }
    false
}

/// The root of a workspace that is trusted. What acts on the untrusted
/// configuration asks for one.
#[derive(Debug)]
pub struct TrustedRoot {
    root: FsPath,
}

impl View for TrustedRoot {
    type V = Seq<u8>;

    closed spec fn view(&self) -> Seq<u8> {
        self.root@
    }
}

impl TrustedRoot {
    /// Vouches for `root` if it is one of the `listed` places, both
    /// canonicalized by the caller; there is no other way to a trusted root.
    pub fn vouch(listed: &Vec<FsPath>, root: &FsPath) -> (trusted: Option<TrustedRoot>)
        ensures
            trusted is Some == trusts(path::views(listed@), root@),
            trusted matches Some(trusted) ==> trusted@ == root@,
    {
        if is_trusted(listed, root) {
            Some(TrustedRoot { root: root.clone() })
        } else {
            None
        }
    }

    /// The root.
    pub fn root(&self) -> (root: &FsPath)
        ensures
            root@ == self@,
    {
        &self.root
    }
}

/// Outcome of [`trust`].
#[derive(Debug, Clone, Copy, PartialEq, Eq, Structural)]
pub enum TrustOutcome {
    /// The root was appended to `trusted-repos`.
    Added,
    /// The root was already listed.
    AlreadyTrusted,
}

/// Errors while recording trust.
#[derive(Debug)]
pub enum TrustError {
    /// The global config file is not valid TOML.
    Parse {
        /// The file.
        path: FsPath,
        /// What is wrong with it.
        source: TomlError,
    },
    /// Filesystem error; the message describes it.
    Io(String),
}

/// How a trust error describes itself.
pub open spec fn trust_error_text(err: TrustError) -> Seq<char> {
    match err {
        TrustError::Parse { path, source } => "invalid global config "@ + text::lossy_text(path@)
            + ": "@ + toml::toml_error_text(source),
        TrustError::Io(message) => message@,
    }
}

impl TrustError {
    /// The error as text.
    pub fn message(&self) -> (message: String)
        ensures
            message@ == trust_error_text(*self),
    {
        match self {
            TrustError::Parse { path, source } => "invalid global config ".to_owned().concat(
                path.display().as_str(),
            ).concat(": ").concat(toml::error_text(source).as_str()),
            TrustError::Io(message) => message.clone(),
        }
    }
}

/// The list under `trusted-repos`, when the document can have one: the key is
/// not taken by something else.
pub open spec fn trust_list(entries: Entries) -> Option<Seq<Node>> {
    match toml::lookup(entries, "trusted-repos"@) {
        Some(Node::List(list)) => Some(list),
        Some(_) => None,
        None => Some(Seq::empty()),
    }
}

/// The strings among the nodes of a list.
pub open spec fn strings_in(list: Seq<Node>) -> Seq<Seq<char>>
    decreases list.len(),
{
    if list.len() == 0 {
        Seq::empty()
    } else {
        match list.last() {
            Node::Text(text) => strings_in(list.drop_last()).push(text),
            _ => strings_in(list.drop_last()),
        }
    }
}

/// The strings listed under `trusted-repos`.
pub open spec fn listed_strings(entries: Entries) -> Seq<Seq<char>> {
    match trust_list(entries) {
        Some(list) => strings_in(list),
        None => Seq::empty(),
    }
}

/// The document with one more trusted path.
pub open spec fn with_trusted(entries: Entries, root: Seq<char>) -> Entries {
    toml::put(
        entries,
        "trusted-repos"@,
        Node::List(trust_list(entries)->0.push(Node::Text(root))),
    )
}

/// Whether `trusted-repos` is a list of strings.
pub open spec fn strings_only(entries: Entries) -> bool {
    trust_list(entries) matches Some(list) && forall|i: int|
        0 <= i < list.len() ==> #[trigger] list[i] is Text
}

/// The layers of a global configuration file that holds this text.
pub open spec fn loaded_layers(text: Seq<char>) -> Seq<(nat, Entries)> {
    match toml::parsed_toml(text) {
        Ok(entries) => seq![(stack::rank(LayerSource::User), entries)],
        Err(_) => Seq::empty(),
    }
}

/// The places that `trusted-repos` lists.
pub open spec fn listed_places(layers: Seq<(nat, Entries)>) -> Seq<Seq<u8>> {
    listed_repos(layers).map_values(|text: Seq<char>| encode_utf8(text))
}

/// Whether a file of this text, once it is loaded, lists what `entries` lists.
pub open spec fn lists_again(text: Seq<char>, entries: Entries) -> bool {
    toml::parsed_toml(text) is Ok && listed_repos(loaded_layers(text)) == listed_strings(entries)
}

proof fn lemma_all_strings(list: Seq<Node>)
    requires
        forall|i: int| 0 <= i < list.len() ==> #[trigger] list[i] is Text,
    ensures
        decode::texts_of(Node::List(list)) == Some(strings_in(list)),
    decreases list.len(),
{
    let texts = list.map_values(|n: Node| n->Text_0);
    if list.len() == 0 {
        assert(texts =~= strings_in(list));
    } else {
        let less = list.drop_last();
        assert forall|i: int| 0 <= i < less.len() implies #[trigger] less[i] is Text by {
            assert(less[i] == list[i]);
        }
        lemma_all_strings(less);
        assert(list[list.len() - 1] is Text);
        assert(texts =~= less.map_values(|n: Node| n->Text_0).push(list.last()->Text_0));
    }
}

/// A text that is read back lists the same when it is loaded.
proof fn lemma_lists_again(text: Seq<char>, entries: Entries)
    requires
        toml::read_back(text, entries),
        toml::lookup(entries, "trusted-repos"@) is Some,
        strings_only(entries),
    ensures
        lists_again(text, entries),
{
    let read = toml::parsed_toml(text)->Ok_0;
    let list = trust_list(entries)->0;
    toml::lemma_one_key(read, "trusted-repos"@);
    toml::lemma_one_key(entries, "trusted-repos"@);
    assert(toml::tame(toml::leaf(entries, seq!["trusted-repos"@])));
    assert(toml::leaf(read, seq!["trusted-repos"@]) == Some(Node::List(list)));
    assert(toml::lookup(read, "trusted-repos"@) == Some(Node::List(list)));
    let layers = loaded_layers(text);
    assert(layers.drop_last() =~= Seq::<(nat, Entries)>::empty());
    assert(stack::topmost(layers, "trusted-repos"@) == 0);
    assert(stack::as_value(Node::List(list)) == Node::List(list));
    assert(stack::stacked(layers, "trusted-repos"@) == Some(Node::List(list)));
    lemma_all_strings(list);
}

/// The global configuration file, as it is edited.
#[derive(Debug)]
pub struct TrustFile {
    doc: DocumentMut,
}

impl TrustFile {
    /// What the document holds.
    pub closed spec fn entries(&self) -> Entries {
        toml::document_entries(self.doc)
    }

    /// The text the document renders to.
    pub closed spec fn rendering(&self) -> Seq<char> {
        toml::document_text(self.doc)
    }

    /// Whether the document is written as TOML is.
    pub closed spec fn legible(&self) -> bool {
        toml::legible_document(self.doc)
    }

    /// Takes what was read of the global configuration file at `path`; a
    /// missing file is an empty one.
    pub fn load(path: &FsPath, file: &FileRead) -> (loaded: Result<TrustFile, TrustError>)
        ensures
            match *file {
                FileRead::Absent => loaded is Ok && loaded->Ok_0.entries() == Seq::<
                    (Seq<char>, Node),
                >::empty(),
                FileRead::Unreadable(message) => loaded == Err::<TrustFile, TrustError>(
                    TrustError::Io(message),
                ),
                FileRead::Text(content) => match toml::parsed_toml(content@) {
                    Ok(entries) => loaded is Ok && loaded->Ok_0.entries() == entries,
                    Err(problem) => loaded matches Err(TrustError::Parse { path: at, source })
                        && at@ == path@ && toml::toml_error_text(source) == problem,
                },
            },
            loaded matches Ok(loaded) ==> loaded.legible(),
    {
        match file {
            FileRead::Absent => Ok(TrustFile { doc: toml::new_document() }),
            FileRead::Unreadable(message) => Err(TrustError::Io(message.clone())),
            FileRead::Text(content) => match toml::parse_document(content.as_str()) {
                Ok(doc) => Ok(TrustFile { doc }),
                Err(source) => Err(TrustError::Parse { path: path.clone(), source }),
            },
        }
    }

    /// The strings listed under `trusted-repos`.
    pub fn listed(&self) -> (list: Vec<String>)
        ensures
            text::views(list@) == listed_strings(self.entries()),
    {
        let mut list: Vec<String> = Vec::new();
        assert(text::views(list@) =~= Seq::<Seq<char>>::empty());
        if let Some(item) = toml::get(toml::root(&self.doc), "trusted-repos") {
            if let Some(array) = toml::item_array(item) {
                let values = decode::elements(item);
                let ghost nodes = toml::array_nodes(*array);
                let mut i: usize = 0;
                assert(nodes.take(0) =~= Seq::<Node>::empty());
                while i < values.len()
                    invariant
                        i <= values.len(),
                        nodes == toml::item_nodes(values@),
                        text::views(list@) == strings_in(nodes.take(i as int)),
                    decreases values.len() - i,
                {
                    assert(nodes.take(i + 1).drop_last() =~= nodes.take(i as int));
                    assert(nodes[i as int] == toml::item_node(*values@[i as int]));
                    if let Some(text) = toml::item_text(values[i]) {
                        let ghost before = text::views(list@);
                        list.push(text.to_owned());
                        assert(text::views(list@) =~= before.push(text@));
                    }
                    i = i + 1;
                }
                assert(nodes.take(i as int) =~= nodes);
            }
        }
        list
    }

    /// Whether trust can be recorded: `trusted-repos` is a list, or not there
    /// yet.
    pub fn can_trust(&self) -> (yes: bool)
        ensures
            yes == trust_list(self.entries()) is Some,
    {
        match toml::get(toml::root(&self.doc), "trusted-repos") {
            Some(item) => toml::item_array(item).is_some(),
            None => true,
        }
    }
}

/// Appends `root` (canonicalized by the caller) to `trusted-repos` of the
/// global config file, unless it is one of the `listed` places (see
/// [`TrustFile::listed`]; canonicalized by the caller too). Returns the text to
/// write when it was appended. **A root that was trusted is trusted when the
/// file is loaded**, where `trusted-repos` lists nothing but strings. Other keys
/// are left alone; that comments and formatting are too is `toml_edit`'s doing
/// and is not stated.
pub fn trust(file: &mut TrustFile, listed: &Vec<FsPath>, root: &FsPath) -> (result: (
    TrustOutcome,
    Option<String>,
))
    requires
        trust_list(old(file).entries()) is Some,
    ensures
        trusts(path::views(listed@), root@) ==> result.0 == TrustOutcome::AlreadyTrusted
            && result.1 is None && *final(file) == *old(file),
        !trusts(path::views(listed@), root@) ==> {
            &&& result.0 == TrustOutcome::Added
            &&& final(file).entries() == with_trusted(
                old(file).entries(),
                text::lossy_text(root@),
            )
            &&& result.1 is Some
            &&& result.1->0@ == final(file).rendering()
            &&& old(file).legible() ==> final(file).legible()
            &&& old(file).legible() && strings_only(old(file).entries()) ==> lists_again(
                result.1->0@,
                final(file).entries(),
            ) && (valid_utf8(root@) ==> trusts(
                listed_places(loaded_layers(result.1->0@)),
                root@,
            ))
        },
{
    if is_trusted(listed, root) {
        return (TrustOutcome::AlreadyTrusted, None);
    }
    let ghost before = file.entries();
    let shown = root.display();
    proof {
        toml::lemma_slot(file.entries(), "trusted-repos"@);
    }
    let ghost legible = file.legible();
    let item = toml::entry_or(
        toml::root_mut(&mut file.doc),
        "trusted-repos",
        toml::no_values(),
    );
    if toml::is_nothing(item) {
        *item = toml::no_values();
    }
    assert(legible ==> toml::legible_item(*item, 1, 1));
    if let Some(array) = toml::item_array_mut(item) {
        assert(legible ==> toml::legible_array(*array));
        toml::array_push(array, shown.as_str());
    }
    assert(legible ==> file.legible());
    let content = toml::render_document(&file.doc);
    proof {
        let after = file.entries();
        let list = trust_list(before)->0;
        let new = text::lossy_text(root@);
        let node = Node::List(list.push(Node::Text(new)));
        toml::put_is_found(before, "trusted-repos"@, node);
        if file.legible() && strings_only(before) {
            lemma_lists_again(content@, after);
            trusted_roots_are_listed(before, new);
            if valid_utf8(root@) {
                let listed = listed_places(loaded_layers(content@));
                decode_utf8_encode_utf8(root@);
                assert(listed[listed.len() - 1] == root@);
                assert(path::same_path(listed[listed.len() - 1], root@));
            }
        }
    }
    (TrustOutcome::Added, Some(content))
}

// ---------------------------------------------------------------------------
// Laws
// ---------------------------------------------------------------------------

/// **A trusted root is listed**, behind everything that was listed before, and
/// no other key of the file changes.
pub proof fn trusted_roots_are_listed(entries: Entries, root: Seq<char>)
    requires
        trust_list(entries) is Some,
    ensures
        listed_strings(with_trusted(entries, root)) == listed_strings(entries).push(root),
        trust_list(with_trusted(entries, root)) is Some,
        forall|key: Seq<char>|
            key != "trusted-repos"@ ==> #[trigger] toml::lookup(with_trusted(entries, root), key)
                == toml::lookup(entries, key),
{
    let list = trust_list(entries)->0;
    let longer = list.push(Node::Text(root));
    toml::put_is_found(entries, "trusted-repos"@, Node::List(longer));
    assert(longer.drop_last() =~= list);
}

/// **Nothing is trusted where nothing is listed.**
pub proof fn missing_lists_trust_nothing(layers: Seq<(nat, Entries)>, root: Seq<u8>)
    requires
        forall|i: int|
            0 <= i < layers.len() ==> toml::lookup((#[trigger] layers[i]).1, "trusted-repos"@)
                is None,
    ensures
        listed_repos(layers) == Seq::<Seq<char>>::empty(),
        !trusts(listed_places(layers), root),
{
    stack::lemma_topmost(layers, "trusted-repos"@);
}

/// **Trusting makes trusted, and trusting again changes nothing**: the path
/// that is written for a root names that root, so a root whose path is text is
/// among the listed places from the first time on.
pub proof fn trusting_once_is_enough(listed: Seq<Seq<u8>>, root: Seq<u8>)
    requires
        valid_utf8(root),
    ensures
        trusts(listed.push(encode_utf8(decode_utf8(root))), root),
{
    decode_utf8_encode_utf8(root);
    assert(path::same_path(listed.push(root)[listed.len() as int], root));
}

/// **A workspace is trusted exactly if its very path is in the list.** A path
/// above or below one that is trusted is not.
pub proof fn only_listed_paths_are_trusted(places: Seq<Seq<u8>>, root: Seq<u8>)
    ensures
        trusts(places, root) <==> exists|i: int|
            0 <= i < places.len() && path::parts(#[trigger] places[i]) == path::parts(root),
        places.len() == 0 ==> !trusts(places, root),
        trusts(places.push(root), root),
{
    assert(places.push(root)[places.len() as int] == root);
    if trusts(places, root) {
        let i = choose|i: int| 0 <= i < places.len() && path::same_path(#[trigger] places[i], root);
        assert(path::parts(places[i]) == path::parts(root));
    }
    if exists|i: int|
        0 <= i < places.len() && path::parts(#[trigger] places[i]) == path::parts(root) {
        let i = choose|i: int|
            0 <= i < places.len() && path::parts(#[trigger] places[i]) == path::parts(root);
        assert(path::same_path(places[i], root));
    }
}

/// **What is listed is what the file says, text by text**; a list with anything
/// else in it lists nothing.
pub proof fn listed_is_what_the_file_says(rank: nat, entries: Entries, list: Seq<Node>)
    requires
        toml::lookup(entries, "trusted-repos"@) == Some(Node::List(list)),
    ensures
        (forall|i: int| 0 <= i < list.len() ==> #[trigger] list[i] is Text) ==> {
            let listed = listed_repos(seq![(rank, entries)]);
            &&& listed.len() == list.len()
            &&& forall|i: int|
                0 <= i < list.len() ==> Node::Text(listed[i]) == #[trigger] list[i]
        },
        (exists|i: int| 0 <= i < list.len() && !(#[trigger] list[i] is Text)) ==> listed_repos(
            seq![(rank, entries)],
        ).len() == 0,
{
    let layers = seq![(rank, entries)];
    assert(layers.last() == (rank, entries));
    assert(stack::topmost(layers, "trusted-repos"@) == 0);
    assert(!stack::merges(layers, "trusted-repos"@));
    assert(stack::stacked(layers, "trusted-repos"@) == Some(Node::List(list)));
}

} // verus!
