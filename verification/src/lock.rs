//! Machine-generated lock file: `.jjunction/lock.toml`.
//!
//! Records the resolved commit of every managed sub-repo. The manifest
//! (`[[repo]]` in the local config) describes intent; this file describes the
//! concrete state, and is meant to be tracked in the outer repo for
//! reproducibility.
//!
//! Write discipline ("the diff contains only semantic change"):
//! 1. table-per-repo (`[repo.<name>]`), never arrays;
//! 2. in-place edits only;
//! 3. one field per repo (`commit`); no volatile metadata;
//! 4. `version` is a constant that only changes on a format break;
//! 5. first write sorts by name; later additions append, never re-sort.

use toml_edit::DocumentMut;
use toml_edit::Table;
use toml_edit::TomlError;
use vstd::prelude::*;

use crate::files;
use crate::files::Deed;
use crate::files::FileRead;
use crate::files::Step;
use crate::files::StepView;
use crate::order;
use crate::path::FsPath;
use crate::text;
use crate::toml;
use crate::toml::Entries;
use crate::toml::Node;

verus! {

/// The only lock format understood so far. Bump on a format break only.
pub const LOCK_VERSION: i64 = 1;

/// Errors while loading or writing the lock file.
#[derive(Debug)]
pub enum LockError {
    /// The file exists but is not valid TOML.
    Parse {
        /// The file.
        path: FsPath,
        /// What is wrong with it.
        source: TomlError,
    },
    /// The file declares an unsupported `version`.
    UnsupportedVersion(i64),
    /// The file has entries but no `version`.
    MissingVersion,
    /// An entry under `[repo.<name>]` is not a table with a `commit` string.
    BadEntry(String),
    /// Filesystem error; the message describes it.
    Io(String),
}

/// How a lock error describes itself.
pub open spec fn lock_error_text(err: LockError) -> Seq<char> {
    match err {
        LockError::Parse { path, source } => "invalid lock file "@ + text::lossy_text(path@) + ": "@
            + toml::toml_error_text(source),
        LockError::UnsupportedVersion(v) => "lock file version "@ + text::signed_digits(v as int)
            + " is not supported (expected "@ + text::signed_digits(LOCK_VERSION as int) + ")"@,
        LockError::MissingVersion => "lock file has entries but no version"@,
        LockError::BadEntry(name) => "lock entry repo."@ + name@ + " lacks a commit string"@,
        LockError::Io(message) => message@,
    }
}

impl LockError {
    /// The error as one line of text.
    pub fn message(&self) -> (message: String)
        ensures
            message@ == lock_error_text(*self),
    {
        match self {
            LockError::Parse { path, source } => "invalid lock file ".to_owned().concat(
                path.display().as_str(),
            ).concat(": ").concat(toml::error_text(source).as_str()),
            LockError::UnsupportedVersion(v) => "lock file version ".to_owned().concat(
                text::render_signed(*v).as_str(),
            ).concat(" is not supported (expected ").concat(
                text::render_signed(LOCK_VERSION).as_str(),
            ).concat(")"),
            LockError::MissingVersion => "lock file has entries but no version".to_owned(),
            LockError::BadEntry(name) => "lock entry repo.".to_owned().concat(name.as_str()).concat(
                " lacks a commit string",
            ),
            LockError::Io(message) => message.clone(),
        }
    }
}

// ---------------------------------------------------------------------------
// What a lock document records
// ---------------------------------------------------------------------------

/// What stands under `[repo]`, when that is a table.
pub open spec fn repo_entries(entries: Entries) -> Option<Entries> {
    match toml::lookup(entries, "repo"@) {
        Some(Node::Section(repos)) => Some(repos),
        _ => None,
    }
}

/// What stands under `[repo.<name>]`, when that is a table.
pub open spec fn one_repo(repos: Entries, name: Seq<char>) -> Option<Entries> {
    match toml::lookup(repos, name) {
        Some(Node::Section(fields)) => Some(fields),
        _ => None,
    }
}

/// The commit recorded for `name`.
pub open spec fn recorded(entries: Entries, name: Seq<char>) -> Option<Seq<char>> {
    match repo_entries(entries) {
        Some(repos) => match one_repo(repos, name) {
            Some(fields) => match toml::lookup(fields, "commit"@) {
                Some(Node::Text(commit)) => Some(commit),
                _ => None,
            },
            None => None,
        },
        None => None,
    }
}

/// The names under `[repo]`, in the order of the document.
pub open spec fn recorded_names(entries: Entries) -> Seq<Seq<char>> {
    match repo_entries(entries) {
        Some(repos) => toml::live_keys(repos),
        None => Seq::empty(),
    }
}

/// The declared version, when it is an integer.
pub open spec fn version_of(entries: Entries) -> Option<i64> {
    match toml::lookup(entries, "version"@) {
        Some(Node::Number(version)) => Some(version),
        _ => None,
    }
}

/// Whether commits can be recorded: `repo` is a table, or not there yet.
pub open spec fn recordable(entries: Entries) -> bool {
    match toml::lookup(entries, "repo"@) {
        Some(node) => node is Section,
        None => true,
    }
}

/// The document with `commit` recorded for `name`: the line of the commit
/// changes in place, a new entry goes to the end.
pub open spec fn with_commit(entries: Entries, name: Seq<char>, commit: Seq<char>) -> Entries {
    let repos = match repo_entries(entries) {
        Some(repos) => repos,
        None => Seq::empty(),
    };
    let fields = match one_repo(repos, name) {
        Some(fields) => fields,
        None => Seq::empty(),
    };
    toml::put(
        entries,
        "repo"@,
        Node::Section(
            toml::put(
                repos,
                name,
                Node::Section(toml::put(fields, "commit"@, Node::Text(commit))),
            ),
        ),
    )
}

/// The document without the entry of `name`.
pub open spec fn without_name(entries: Entries, name: Seq<char>) -> Entries {
    match repo_entries(entries) {
        Some(repos) => toml::put(entries, "repo"@, Node::Section(toml::without(repos, name))),
        None => entries,
    }
}

/// A document that declares the version and nothing else.
pub open spec fn blank() -> Entries {
    toml::put(Seq::empty(), "version"@, Node::Number(LOCK_VERSION))
}

/// What a lock file is loaded as.
pub open spec fn accepted(entries: Entries) -> Result<Entries, Option<i64>> {
    match version_of(entries) {
        Some(version) => if version == LOCK_VERSION {
            Ok(entries)
        } else {
            Err(Some(version))
        },
        None => if recorded_names(entries).len() == 0 {
            Ok(toml::put(entries, "version"@, Node::Number(LOCK_VERSION)))
        } else {
            Err(None)
        },
    }
}

/// How the first write lays out what was recorded before it: the same commits,
/// under the same version, sorted by name, and no name without a commit.
pub open spec fn first_write(before: Entries, after: Entries) -> bool {
    &&& version_of(after) == Some(LOCK_VERSION)
    &&& forall|name: Seq<char>| #[trigger] recorded(after, name) == recorded(before, name)
    &&& order::in_order(recorded_names(after))
    &&& recorded_names(after).no_duplicates()
    &&& forall|name: Seq<char>| #[trigger]
        recorded_names(after).contains(name) <==> recorded(before, name) is Some
}

// ---------------------------------------------------------------------------
// Laws
// ---------------------------------------------------------------------------

/// **A recorded commit is read back, and no other entry is touched.** The
/// version stays, the names keep their order, and a new name comes last.
pub proof fn recorded_commit_is_read_back(entries: Entries, name: Seq<char>, commit: Seq<char>)
    ensures
        recorded(with_commit(entries, name, commit), name) == Some(commit),
        forall|other: Seq<char>|
            other != name && recordable(entries) ==> #[trigger] recorded(
                with_commit(entries, name, commit),
                other,
            ) == recorded(entries, other),
        recordable(with_commit(entries, name, commit)),
        version_of(with_commit(entries, name, commit)) == version_of(entries),
        recordable(entries) && repo_entries(entries) is Some && one_repo(
            repo_entries(entries)->0,
            name,
        ) is Some ==> recorded_names(with_commit(entries, name, commit)) == recorded_names(entries),
        recordable(entries) && (repo_entries(entries) is None || toml::slot(
            repo_entries(entries)->0,
            name,
        ) == repo_entries(entries)->0.len()) ==> recorded_names(with_commit(entries, name, commit))
            == recorded_names(entries).push(name),
{
    let repos = match repo_entries(entries) {
        Some(repos) => repos,
        None => Seq::empty(),
    };
    let fields = match one_repo(repos, name) {
        Some(fields) => fields,
        None => Seq::empty(),
    };
    let new_fields = toml::put(fields, "commit"@, Node::Text(commit));
    let new_repos = toml::put(repos, name, Node::Section(new_fields));
    toml::put_is_found(fields, "commit"@, Node::Text(commit));
    toml::put_is_found(repos, name, Node::Section(new_fields));
    toml::put_is_found(entries, "repo"@, Node::Section(new_repos));
    let after = with_commit(entries, name, commit);
    assert(repo_entries(after) == Some(new_repos));
    lemma_keys_differ();
    toml::lemma_put_elsewhere(entries, "repo"@, Node::Section(new_repos), "version"@);
    assert forall|other: Seq<char>| other != name && recordable(entries) implies #[trigger] recorded(
        after,
        other,
    ) == recorded(entries, other) by {
        toml::lemma_put_elsewhere(repos, name, Node::Section(new_fields), other);
        assert(one_repo(new_repos, other) == one_repo(repos, other));
        if repo_entries(entries) is None {
            assert(one_repo(repos, other) is None);
        }
    }
    toml::lemma_slot(repos, name);
    if one_repo(repos, name) is Some {
        lemma_live_keys_update(repos, toml::slot(repos, name), name, Node::Section(new_fields));
    } else if toml::slot(repos, name) == repos.len() {
        assert(new_repos.drop_last() =~= repos);
        if repo_entries(entries) is None {
            assert(toml::live_keys(repos) =~= Seq::<Seq<char>>::empty());
        }
    }
}

/// A document that holds nothing records nothing.
proof fn lemma_nothing_recorded()
    ensures
        accepted(Seq::empty()) == Ok::<Entries, Option<i64>>(blank()),
{
    let none = Seq::<(Seq<char>, Node)>::empty();
    assert(toml::lookup(none, "version"@) is None);
    assert(toml::lookup(none, "repo"@) is None);
}

proof fn lemma_keys_differ()
    ensures
        "version"@ != "repo"@,
{
    reveal_strlit("version");
    reveal_strlit("repo");
    assert("version"@.len() != "repo"@.len());
}

proof fn lemma_live_keys_update(entries: Entries, at: int, key: Seq<char>, node: Node)
    requires
        0 <= at < entries.len(),
        entries[at].0 == key,
        !(entries[at].1 is Nothing),
        !(node is Nothing),
    ensures
        toml::live_keys(entries.update(at, (key, node))) == toml::live_keys(entries),
    decreases entries.len(),
{
    let after = entries.update(at, (key, node));
    if at == entries.len() - 1 {
        assert(after.drop_last() =~= entries.drop_last());
    } else {
        assert(after.drop_last() =~= entries.drop_last().update(at, (key, node)));
        lemma_live_keys_update(entries.drop_last(), at, key, node);
    }
}

proof fn lemma_same_members(a: Seq<Seq<char>>, b: Seq<Seq<char>>, name: Seq<char>)
    requires
        a.to_multiset() == b.to_multiset(),
        a.contains(name),
    ensures
        b.contains(name),
{
    broadcast use vstd::seq_lib::group_to_multiset_ensures;

    assert(a.to_multiset().contains(name));
    assert(b.to_multiset().contains(name));
}

/// What recording a new name does to the keys under `[repo]`.
proof fn lemma_laid_one(
    entries: Entries,
    name: Seq<char>,
    commit: Seq<char>,
    done: Seq<Seq<char>>,
)
    requires
        recordable(entries),
        repo_entries(entries) matches Some(repos) ==> forall|key: Seq<char>|
            #[trigger] toml::slot(repos, key) < repos.len() ==> done.contains(key),
    ensures
        repo_entries(with_commit(entries, name, commit)) matches Some(repos) && forall|
            key: Seq<char>,
        |
            #[trigger] toml::slot(repos, key) < repos.len() ==> done.push(name).contains(key),
{
    let repos = match repo_entries(entries) {
        Some(repos) => repos,
        None => Seq::empty(),
    };
    let fields = match one_repo(repos, name) {
        Some(fields) => fields,
        None => Seq::empty(),
    };
    let node = Node::Section(toml::put(fields, "commit"@, Node::Text(commit)));
    let new_repos = toml::put(repos, name, node);
    toml::put_is_found(entries, "repo"@, Node::Section(new_repos));
    assert forall|key: Seq<char>| #[trigger] toml::slot(new_repos, key) < new_repos.len() implies done.push(
        name,
    ).contains(key) by {
        if key == name {
            assert(done.push(name)[done.len() as int] == name);
        } else {
            toml::lemma_put_elsewhere(repos, name, node, key);
            toml::lemma_slot(repos, key);
            assert(done.contains(key));
            let k = choose|k: int| 0 <= k < done.len() && done[k] == key;
            assert(done.push(name)[k] == key);
        }
    }
}

/// A key that is found is among the keys that hold something.
pub proof fn lemma_found_is_live(entries: Entries, key: Seq<char>)
    requires
        toml::lookup(entries, key) is Some,
    ensures
        toml::live_keys(entries).contains(key),
    decreases entries.len(),
{
    toml::lemma_slot(entries, key);
    let at = toml::slot(entries, key);
    let less = entries.drop_last();
    if at == entries.len() - 1 {
        assert(toml::live_keys(entries).last() == key);
    } else {
        assert forall|i: int| 0 <= i < at implies #[trigger] less[i].0 != key by {
            assert(less[i] == entries[i]);
        }
        toml::lemma_slot_is(less, key, at);
        lemma_found_is_live(less, key);
        let i = choose|i: int|
            0 <= i < toml::live_keys(less).len() && toml::live_keys(less)[i] == key;
        assert(toml::live_keys(entries)[i] == key);
    }
}

/// **Recording what is recorded changes nothing.**
pub proof fn recording_twice_is_recording_once(entries: Entries, name: Seq<char>, commit: Seq<char>)
    ensures
        with_commit(with_commit(entries, name, commit), name, commit) == with_commit(
            entries,
            name,
            commit,
        ),
{
    let repos = match repo_entries(entries) {
        Some(repos) => repos,
        None => Seq::empty(),
    };
    let fields = match one_repo(repos, name) {
        Some(fields) => fields,
        None => Seq::empty(),
    };
    let new_fields = toml::put(fields, "commit"@, Node::Text(commit));
    let new_repos = toml::put(repos, name, Node::Section(new_fields));
    let after = with_commit(entries, name, commit);
    toml::put_is_found(repos, name, Node::Section(new_fields));
    toml::put_is_found(entries, "repo"@, Node::Section(new_repos));
    lemma_put_again(fields, "commit"@, Node::Text(commit));
    lemma_put_again(repos, name, Node::Section(new_fields));
    lemma_put_again(entries, "repo"@, Node::Section(new_repos));
}

proof fn lemma_put_again(entries: Entries, key: Seq<char>, node: Node)
    ensures
        toml::put(toml::put(entries, key, node), key, node) == toml::put(entries, key, node),
{
    let after = toml::put(entries, key, node);
    toml::lemma_slot(entries, key);
    toml::lemma_slot_is(after, key, toml::slot(entries, key));
    assert(toml::put(after, key, node) =~= after);
}

/// **A dropped entry is gone, and no other entry is touched.**
pub proof fn dropped_entry_is_gone(entries: Entries, name: Seq<char>)
    requires
        repo_entries(entries) is Some ==> toml::distinct_keys(repo_entries(entries)->0),
    ensures
        recorded(without_name(entries, name), name) is None,
        forall|other: Seq<char>|
            other != name ==> #[trigger] recorded(without_name(entries, name), other) == recorded(
                entries,
                other,
            ),
        version_of(without_name(entries, name)) == version_of(entries),
        recordable(entries) ==> recordable(without_name(entries, name)),
{
    if let Some(repos) = repo_entries(entries) {
        let left = toml::without(repos, name);
        toml::taken_out_is_gone(repos, name);
        toml::put_is_found(entries, "repo"@, Node::Section(left));
        lemma_keys_differ();
        toml::lemma_put_elsewhere(entries, "repo"@, Node::Section(left), "version"@);
        assert forall|other: Seq<char>| other != name implies #[trigger] recorded(
            without_name(entries, name),
            other,
        ) == recorded(entries, other) by {
            assert(toml::lookup(left, other) == toml::lookup(repos, other));
        }
    }
}

/// **A lock file that declares the version is loaded as it stands**, and one
/// that was laid out by a first write is such a file.
pub proof fn written_locks_are_accepted(before: Entries, after: Entries)
    requires
        first_write(before, after),
    ensures
        accepted(after) == Ok::<Entries, Option<i64>>(after),
{
}

/// Whether a text, read as a lock file, is accepted and has the commits of
/// `entries`, and no others.
pub open spec fn keeps(text: Seq<char>, entries: Entries) -> bool {
    toml::parsed_toml(text) matches Ok(read) && accepted(read) == Ok::<Entries, Option<i64>>(read)
        && forall|name: Seq<char>| #[trigger] recorded(read, name) == recorded(entries, name)
}

/// A recorded commit is what three keys lead to.
proof fn lemma_recorded_leaf(entries: Entries, name: Seq<char>)
    ensures
        recorded(entries, name) == (match toml::leaf(entries, seq!["repo"@, name, "commit"@]) {
            Some(Node::Text(commit)) => Some(commit),
            _ => None,
        }),
{
    let keys = seq!["repo"@, name, "commit"@];
    reveal_with_fuel(toml::leaf, 4);
    assert(keys.skip(1) =~= seq![name, "commit"@]);
    assert(keys.skip(1).skip(1) =~= seq!["commit"@]);
    assert(keys.skip(1).skip(1).skip(1) =~= Seq::<Seq<char>>::empty());
}

/// A text that is read back has the commits.
proof fn lemma_keeps(text: Seq<char>, entries: Entries)
    requires
        toml::read_back(text, entries),
        version_of(entries) == Some(LOCK_VERSION),
    ensures
        keeps(text, entries),
{
    let read = toml::parsed_toml(text)->Ok_0;
    toml::lemma_one_key(read, "version"@);
    toml::lemma_one_key(entries, "version"@);
    assert forall|name: Seq<char>| #[trigger] recorded(read, name) == recorded(entries, name) by {
        lemma_recorded_leaf(read, name);
        lemma_recorded_leaf(entries, name);
    }
}

// ---------------------------------------------------------------------------
// The lock
// ---------------------------------------------------------------------------

/// The parsed lock document plus change tracking for idempotent saves.
#[derive(Debug)]
pub struct RepoLock {
    path: FsPath,
    doc: DocumentMut,
    changed: bool,
    fresh: bool,
}

impl RepoLock {
    /// What the document holds.
    pub closed spec fn entries(&self) -> Entries {
        toml::document_entries(self.doc)
    }

    /// The text the document renders to.
    pub closed spec fn rendering(&self) -> Seq<char> {
        toml::document_text(self.doc)
    }

    /// Whether the lock declares the version, and its document is written as
    /// TOML is.
    pub closed spec fn legible(&self) -> bool {
        &&& toml::legible_document(self.doc)
        &&& version_of(toml::document_entries(self.doc)) == Some(LOCK_VERSION)
    }

    /// Where the lock file stands.
    pub closed spec fn file(&self) -> Seq<u8> {
        self.path@
    }

    /// Whether a change still needs saving.
    pub closed spec fn dirty(&self) -> bool {
        self.changed
    }

    /// Whether the file is still to be written for the first time.
    pub closed spec fn unwritten(&self) -> bool {
        self.fresh
    }

    /// Takes what was read of the lock file at `path`, or prepares a fresh
    /// document (with the constant `version`) when it does not exist yet. An
    /// empty (or repo-less) file may omit the version; the next save writes
    /// it.
    pub fn load_or_create(path: &FsPath, file: &FileRead) -> (lock: Result<RepoLock, LockError>)
        ensures
            match *file {
                FileRead::Absent => lock is Ok && lock->Ok_0.entries() == blank()
                    && lock->Ok_0.dirty() && lock->Ok_0.unwritten() && lock->Ok_0.file() == path@
                    && lock->Ok_0.legible(),
                FileRead::Unreadable(message) => lock == Err::<RepoLock, LockError>(
                    LockError::Io(message),
                ),
                FileRead::Text(content) => match toml::parsed_toml(content@) {
                    Err(problem) => lock matches Err(LockError::Parse { path: at, source })
                        && at@ == path@ && toml::toml_error_text(source) == problem,
                    Ok(read) => match accepted(read) {
                        Ok(entries) => lock is Ok && lock->Ok_0.entries() == entries
                            && !lock->Ok_0.dirty() && !lock->Ok_0.unwritten()
                            && lock->Ok_0.file() == path@ && lock->Ok_0.legible(),
                        Err(Some(version)) => lock == Err::<RepoLock, LockError>(
                            LockError::UnsupportedVersion(version),
                        ),
                        Err(None) => lock == Err::<RepoLock, LockError>(LockError::MissingVersion),
                    },
                },
            },
            *file matches FileRead::Text(content) && content@.len() == 0 ==> lock is Ok
                && lock->Ok_0.entries() == blank(),
            lock matches Ok(lock) ==> version_of(lock.entries()) == Some(LOCK_VERSION),
    {
        match file {
            FileRead::Absent => {
                let mut doc = toml::new_document();
                toml::assign(toml::root_mut(&mut doc), "version", toml::number_item(LOCK_VERSION));
                proof {
                    let none = Seq::<(Seq<char>, Node)>::empty();
                    toml::put_is_found(none, "version"@, Node::Number(LOCK_VERSION));
                }
                Ok(RepoLock { path: path.clone(), doc, changed: true, fresh: true })
            },
            FileRead::Unreadable(message) => Err(LockError::Io(message.clone())),
            FileRead::Text(content) => {
                let mut doc = match toml::parse_document(content.as_str()) {
                    Ok(doc) => doc,
                    Err(source) => return Err(LockError::Parse { path: path.clone(), source }),
                };
                let ghost read = toml::document_entries(doc);
                let no_repos = match toml::get(toml::root(&doc), "repo") {
                    Some(item) => match toml::item_table(item) {
                        Some(table) => toml::is_empty(table),
                        None => true,
                    },
                    None => true,
                };
                let version: Option<i64> = match toml::get(toml::root(&doc), "version") {
                    Some(item) => toml::item_number(item),
                    None => None,
                };
                match version {
                    Some(v) => {
                        if v != LOCK_VERSION {
                            return Err(LockError::UnsupportedVersion(v));
                        }
                    },
                    None => {
                        if !no_repos {
                            return Err(LockError::MissingVersion);
                        }
                        toml::assign(
                            toml::root_mut(&mut doc),
                            "version",
                            toml::number_item(LOCK_VERSION),
                        );
                    },
                }
                proof {
                    toml::put_is_found(read, "version"@, Node::Number(LOCK_VERSION));
                    if content@.len() == 0 {
                        lemma_nothing_recorded();
                    }
                }
                Ok(RepoLock { path: path.clone(), doc, changed: false, fresh: false })
            },
        }
    }

    /// Where the lock file stands.
    pub fn path(&self) -> (path: &FsPath)
        ensures
            path@ == self.file(),
    {
        &self.path
    }

    /// Whether commits can be recorded: `repo` is a table, or not there yet.
    pub fn can_record(&self) -> (yes: bool)
        ensures
            yes == recordable(self.entries()),
    {
        match toml::get(toml::root(&self.doc), "repo") {
            Some(item) => toml::item_table(item).is_some(),
            None => true,
        }
    }

    /// Returns the locked commit of repo `name`, if recorded.
    pub fn commit(&self, name: &str) -> (commit: Option<&str>)
        ensures
            match commit {
                Some(commit) => recorded(self.entries(), name@) == Some(commit@),
                None => recorded(self.entries(), name@) is None,
            },
    {
        match toml::get(toml::root(&self.doc), "repo") {
            Some(item) => match toml::item_table(item) {
                Some(repos) => match toml::get(repos, name) {
                    Some(item) => match toml::item_table(item) {
                        Some(fields) => match toml::get(fields, "commit") {
                            Some(item) => toml::item_text(item),
                            None => None,
                        },
                        None => None,
                    },
                    None => None,
                },
                None => None,
            },
            None => None,
        }
    }

    /// The recorded names, in the order of the document.
    pub fn names(&self) -> (names: Vec<String>)
        ensures
            text::views(names@) == recorded_names(self.entries()),
            text::views(names@).no_duplicates(),
    {
        match toml::get(toml::root(&self.doc), "repo") {
            Some(item) => match toml::item_table(item) {
                Some(repos) => toml::keys(repos),
                None => {
                    let none: Vec<String> = Vec::new();
                    assert(text::views(none@) =~= Seq::<Seq<char>>::empty());
                    none
                },
            },
            None => {
                let none: Vec<String> = Vec::new();
                assert(text::views(none@) =~= Seq::<Seq<char>>::empty());
                none
            },
        }
    }

    /// Records the commit of repo `name`: in place when the entry exists,
    /// appended at the end otherwise. Setting the value that is already
    /// recorded is a no-op.
    pub fn set_commit(&mut self, name: &str, commit: &str)
        requires
            recordable(old(self).entries()),
        ensures
            recorded(old(self).entries(), name@) == Some(commit@) ==> *final(self) == *old(self),
            recorded(old(self).entries(), name@) != Some(commit@) ==> final(self).entries()
                == with_commit(old(self).entries(), name@, commit@) && final(self).dirty(),
            final(self).file() == old(self).file(),
            final(self).unwritten() == old(self).unwritten(),
            recorded(final(self).entries(), name@) == Some(commit@),
            recordable(final(self).entries()),
            old(self).legible() ==> final(self).legible(),
    {
        let held = match self.commit(name) {
            Some(held) => text::same(held, commit),
            None => false,
        };
        if held {
            return;
        }
        proof {
            recorded_commit_is_read_back(self.entries(), name@, commit@);
            toml::lemma_slot(self.entries(), "repo"@);
        }
        let ghost entries = self.entries();
        let repo = toml::entry_or(
            toml::root_mut(&mut self.doc),
            "repo",
            toml::table_item(implicit_table()),
        );
        if toml::is_nothing(repo) {
            *repo = toml::table_item(implicit_table());
        }
        match toml::item_table_mut(repo) {
            Some(repos) => {
                let there = match toml::get(repos, name) {
                    Some(item) => toml::item_table(item).is_some(),
                    None => false,
                };
                if there {
                    if let Some(item) = toml::get_mut(repos, name) {
                        if let Some(fields) = toml::item_table_mut(item) {
                            toml::assign(fields, "commit", toml::text_item(commit));
                        }
                    }
                } else {
                    let mut fields = toml::new_table();
                    toml::assign(&mut fields, "commit", toml::text_item(commit));
                    toml::insert(repos, name, toml::table_item(fields));
                }
            },
            None => {},
        }
        self.changed = true;
    }

    /// Drops the entry for `name`; returns whether one existed.
    pub fn remove(&mut self, name: &str) -> (removed: bool)
        ensures
            removed == (repo_entries(old(self).entries()) is Some && toml::slot(
                repo_entries(old(self).entries())->0,
                name@,
            ) < repo_entries(old(self).entries())->0.len()),
            final(self).entries() == without_name(old(self).entries(), name@),
            final(self).dirty() == (old(self).dirty() || removed),
            final(self).file() == old(self).file(),
            final(self).unwritten() == old(self).unwritten(),
            repo_entries(old(self).entries()) is Some ==> toml::distinct_keys(
                repo_entries(old(self).entries())->0,
            ),
            recordable(old(self).entries()) ==> recordable(final(self).entries()),
            recorded(final(self).entries(), name@) is None,
            old(self).legible() ==> final(self).legible(),
    {
        let ghost entries = self.entries();
        let there = match toml::get(toml::root(&self.doc), "repo") {
            Some(item) => toml::item_table(item).is_some(),
            None => false,
        };
        let mut removed = false;
        if there {
            if let Some(item) = toml::get_mut(toml::root_mut(&mut self.doc), "repo") {
                if let Some(repos) = toml::item_table_mut(item) {
                    removed = toml::remove(repos, name);
                }
            }
        }
        if removed {
            self.changed = true;
        }
        proof {
            dropped_entry_is_gone(entries, name@);
        }
        removed
    }

    /// Whether any change since load still needs saving.
    pub fn is_changed(&self) -> (yes: bool)
        ensures
            yes == self.dirty(),
    {
        self.changed
    }

    /// The text to write to the lock file: the document as edited, laid out by
    /// name when the file is written for the first time. No change needs saving
    /// any more. **Loading what was saved gives every commit back.** That
    /// untouched bytes of an earlier file come back as they were is
    /// `toml_edit`'s doing and is not stated.
    pub fn save(&mut self) -> (content: String)
        requires
            old(self).unwritten() ==> recordable(old(self).entries()),
        ensures
            saved(*old(self), *final(self), content@),
    {
        if self.fresh {
            self.lay_out();
        }
        let content = toml::render_document(&self.doc);
        proof {
            if self.legible() {
                lemma_keeps(content@, self.entries());
            }
        }
        self.changed = false;
        content
    }

    fn lay_out(&mut self)
        requires
            recordable(old(self).entries()),
        ensures
            first_write(old(self).entries(), final(self).entries()),
            !final(self).unwritten(),
            final(self).dirty() == old(self).dirty(),
            final(self).file() == old(self).file(),
            recordable(final(self).entries()),
            final(self).legible(),
    {
        let listed = self.names();
        let names = order::sorted(&listed);
        let ghost row = text::views(names@);
        let ghost before = self.entries();
        proof {
            text::views(listed@).lemma_multiset_has_no_duplicates();
            row.lemma_multiset_has_no_duplicates_conv();
        }
        let mut doc = toml::new_document();
        toml::assign(toml::root_mut(&mut doc), "version", toml::number_item(LOCK_VERSION));
        let mut laid = RepoLock { path: self.path.clone(), doc, changed: true, fresh: true };
        let mut i: usize = 0;
        let ghost mut done: Seq<Seq<char>> = Seq::empty();
        proof {
            lemma_keys_differ();
            toml::put_is_found(Seq::empty(), "version"@, Node::Number(LOCK_VERSION));
            toml::lemma_put_elsewhere(Seq::empty(), "version"@, Node::Number(LOCK_VERSION), "repo"@);
        }
        while i < names.len()
            invariant
                i <= names.len(),
                row == text::views(names@),
                row.no_duplicates(),
                order::in_order(row),
                before == self.entries(),
                recordable(laid.entries()),
                laid.legible(),
                version_of(laid.entries()) == Some(LOCK_VERSION),
                done == recorded_names(laid.entries()),
                done.no_duplicates(),
                order::in_order(done),
                forall|k: int|
                    0 <= k < done.len() ==> exists|j: int| 0 <= j < i && row[j] == #[trigger] done[k],
                repo_entries(laid.entries()) matches Some(repos) ==> forall|key: Seq<char>|
                    #[trigger] toml::slot(repos, key) < repos.len() ==> done.contains(key),
                forall|j: int|
                    0 <= j < i ==> #[trigger] recorded(laid.entries(), row[j]) == recorded(
                        before,
                        row[j],
                    ),
                forall|name: Seq<char>|
                    !done.contains(name) ==> #[trigger] recorded(laid.entries(), name) is None,
                forall|k: int|
                    0 <= k < done.len() ==> recorded(laid.entries(), #[trigger] done[k]) is Some,
            decreases names.len() - i,
        {
            let ghost earlier = laid.entries();
            let ghost name = row[i as int];
            assert(names@[i as int]@ == name);
            assert(!done.contains(name)) by {
                if done.contains(name) {
                    let k = choose|k: int| 0 <= k < done.len() && done[k] == name;
                    let j = choose|j: int| 0 <= j < i && row[j] == done[k];
                    assert(row[j] == row[i as int]);
                }
            }
            if let Some(commit) = self.commit(names[i].as_str()) {
                proof {
                    recorded_commit_is_read_back(earlier, name, commit@);
                    let repos = match repo_entries(earlier) {
                        Some(repos) => repos,
                        None => Seq::empty(),
                    };
                    toml::lemma_slot(repos, name);
                    assert(toml::slot(repos, name) == repos.len());
                }
                laid.set_commit(names[i].as_str(), commit);
                proof {
                    lemma_laid_one(earlier, name, commit@, done);
                    let grown = done.push(name);
                    assert forall|k: int| 0 <= k < grown.len() implies exists|j: int|
                        0 <= j < i + 1 && row[j] == #[trigger] grown[k] by {
                        if k < done.len() {
                            let j = choose|j: int| 0 <= j < i && row[j] == done[k];
                            assert(row[j] == grown[k]);
                        } else {
                            assert(row[i as int] == grown[k]);
                        }
                    }
                    assert forall|a: int, b: int| 0 <= a <= b < grown.len() implies order::text_le(
                        #[trigger] grown[a],
                        #[trigger] grown[b],
                    ) by {
                        if b == done.len() {
                            let j = choose|j: int| 0 <= j < i + 1 && row[j] == grown[a];
                            assert(order::text_le(row[j], row[i as int]));
                        }
                    }
                    assert forall|j: int| 0 <= j < i + 1 implies #[trigger] recorded(
                        laid.entries(),
                        row[j],
                    ) == recorded(before, row[j]) by {
                        if j < i {
                            assert(row[j] != name);
                        }
                    }
                    assert forall|other: Seq<char>| !grown.contains(other) implies #[trigger] recorded(
                        laid.entries(),
                        other,
                    ) is None by {
                        assert(grown[done.len() as int] == name);
                        assert(!done.contains(other)) by {
                            if done.contains(other) {
                                let k = choose|k: int| 0 <= k < done.len() && done[k] == other;
                                assert(grown[k] == other);
                            }
                        }
                    }
                    assert forall|k: int| 0 <= k < grown.len() implies recorded(
                        laid.entries(),
                        #[trigger] grown[k],
                    ) is Some by {
                        if k < done.len() {
                            assert(recorded(earlier, done[k]) is Some);
                            assert(done.contains(done[k]));
                        }
                    }
                    done = grown;
                }
            } else {
                assert(recorded(laid.entries(), name) is None);
            }
            i = i + 1;
        }
        proof {
            assert forall|name: Seq<char>| #[trigger] recorded(laid.entries(), name) == recorded(
                before,
                name,
            ) by {
                if row.contains(name) {
                    let j = choose|j: int| 0 <= j < row.len() && row[j] == name;
                    assert(recorded(laid.entries(), row[j]) == recorded(before, row[j]));
                } else {
                    if done.contains(name) {
                        let k = choose|k: int| 0 <= k < done.len() && done[k] == name;
                        let j = choose|j: int| 0 <= j < i && row[j] == done[k];
                        assert(row[j] == name);
                    }
                    if recorded(before, name) is Some {
                        lemma_found_is_live(repo_entries(before)->0, name);
                        lemma_same_members(text::views(listed@), row, name);
                    }
                }
            }
            assert forall|name: Seq<char>| #[trigger] done.contains(name) <==> recorded(before, name)
                is Some by {
                assert(recorded(laid.entries(), name) == recorded(before, name));
            }
        }
        self.doc = laid.doc;
        self.fresh = false;
    }
}

/// What a save does: the text is what the lock renders to, and no change needs
/// saving any more. A lock that is written for the first time is laid out anew,
/// any other keeps what it holds. The text is read as a lock with the same
/// commits.
pub open spec fn saved(before: RepoLock, after: RepoLock, content: Seq<char>) -> bool {
    &&& content == after.rendering()
    &&& !after.dirty()
    &&& !after.unwritten()
    &&& after.file() == before.file()
    &&& !before.unwritten() ==> after.entries() == before.entries() && after.rendering()
        == before.rendering() && after.legible() == before.legible()
    &&& before.unwritten() ==> first_write(before.entries(), after.entries()) && after.legible()
    &&& recordable(before.entries()) ==> recordable(after.entries())
    &&& after.legible() ==> keeps(content, after.entries())
}

/// Saves a lock if a change still needs saving: the one write that does it, or
/// nothing.
pub fn save_if_changed(lock: &mut RepoLock) -> (deeds: Vec<Deed>)
    requires
        old(lock).dirty() && old(lock).unwritten() ==> recordable(old(lock).entries()),
    ensures
        !old(lock).dirty() ==> files::deed_views(deeds@) == Seq::<(StepView, bool)>::empty()
            && *final(lock) == *old(lock),
        old(lock).dirty() ==> files::deed_views(deeds@) == seq![
            (StepView::Write(final(lock).file(), final(lock).rendering()), true),
        ] && saved(*old(lock), *final(lock), final(lock).rendering()),
        !final(lock).dirty(),
{
    let mut deeds: Vec<Deed> = Vec::new();
    assert(files::deed_views(deeds@) =~= Seq::<(StepView, bool)>::empty());
    if lock.is_changed() {
        let content = lock.save();
        files::then_do(&mut deeds, Step::Write { path: lock.path().clone(), content }, true);
        assert(files::deed_views(deeds@) =~= seq![
            (StepView::Write(lock.file(), lock.rendering()), true),
        ]);
    }
    deeds
}

/// An implicit `[repo]` table renders children as `[repo.<name>]` headers
/// without its own `[repo]` line.
fn implicit_table() -> (table: Table)
    ensures
        toml::table_entries(table) == Seq::<(Seq<char>, Node)>::empty(),
        forall|keys: nat, dots: nat|
            keys <= toml::longest() ==> #[trigger] toml::legible_table(table, keys, dots),
{
    let mut table = toml::new_table();
    toml::make_implicit(&mut table);
    table
}

/// **A commit is recorded exactly where the lock has it as a text**, under `repo`,
/// the name, and `commit`.
pub proof fn recorded_is_what_the_lock_has(entries: Entries, name: Seq<char>, commit: Seq<char>)
    ensures
        recorded(entries, name) == Some(commit) <==> (toml::lookup(entries, "repo"@) matches Some(
            Node::Section(repos),
        ) && toml::lookup(repos, name) matches Some(Node::Section(fields)) && toml::lookup(
            fields,
            "commit"@,
        ) == Some(Node::Text(commit))),
{
}

/// **Only version 1 is accepted**, and a lock without a version only where no
/// repository is recorded in it. What is accepted has that version, and the
/// repositories as they were.
pub proof fn only_version_one_is_accepted(entries: Entries)
    ensures
        ({
            let numbered = toml::lookup(entries, "version"@) is Some && toml::lookup(
                entries,
                "version"@,
            )->0 is Number;
            let version = toml::lookup(entries, "version"@)->0->Number_0;
            let empty = !(toml::lookup(entries, "repo"@) is Some && toml::lookup(
                entries,
                "repo"@,
            )->0 is Section) || toml::live_keys(
                toml::lookup(entries, "repo"@)->0->Section_0,
            ).len() == 0;
            &&& accepted(entries) is Ok <==> (numbered && version == 1) || (!numbered && empty)
            &&& numbered && version != 1 ==> accepted(entries) == Err::<Entries, Option<i64>>(
                Some(version),
            )
            &&& !numbered && !empty ==> accepted(entries) == Err::<Entries, Option<i64>>(None)
            &&& numbered && version == 1 ==> accepted(entries)->Ok_0 == entries
            &&& accepted(entries) is Ok ==> toml::lookup(accepted(entries)->Ok_0, "version"@)
                == Some(Node::Number(1)) && toml::lookup(accepted(entries)->Ok_0, "repo"@)
                == toml::lookup(entries, "repo"@)
        }),
{
    lemma_keys_differ();
    toml::put_is_found(entries, "version"@, Node::Number(LOCK_VERSION));
}

/// **Recording and dropping change one entry and nothing else**: what else the lock
/// has stays, and so does what else stands beside a commit.
pub proof fn locks_keep_what_they_do_not_change(
    entries: Entries,
    name: Seq<char>,
    commit: Seq<char>,
    key: Seq<char>,
)
    ensures
        key != "repo"@ ==> toml::lookup(with_commit(entries, name, commit), key) == toml::lookup(
            entries,
            key,
        ) && toml::lookup(without_name(entries, name), key) == toml::lookup(entries, key),
        toml::lookup(with_commit(entries, name, commit), "repo"@) matches Some(Node::Section(repos))
            && toml::lookup(repos, name) matches Some(Node::Section(fields)) && toml::lookup(
            fields,
            "commit"@,
        ) == Some(Node::Text(commit)),
        key != "commit"@ ==> (toml::lookup(entries, "repo"@) matches Some(Node::Section(repos)) ==> (
        toml::lookup(repos, name) matches Some(Node::Section(fields)) ==> toml::lookup(
            one_repo(repo_entries(with_commit(entries, name, commit))->0, name)->0,
            key,
        ) == toml::lookup(fields, key))),
        key != name ==> (toml::lookup(entries, "repo"@) matches Some(Node::Section(repos)) ==> (
        toml::lookup(with_commit(entries, name, commit), "repo"@) matches Some(Node::Section(after))
            && toml::lookup(after, key) == toml::lookup(repos, key))),
{
    let repos = match repo_entries(entries) {
        Some(repos) => repos,
        None => Seq::empty(),
    };
    let fields = match one_repo(repos, name) {
        Some(fields) => fields,
        None => Seq::empty(),
    };
    let new_fields = toml::put(fields, "commit"@, Node::Text(commit));
    let new_repos = toml::put(repos, name, Node::Section(new_fields));
    toml::put_is_found(fields, "commit"@, Node::Text(commit));
    toml::put_is_found(repos, name, Node::Section(new_fields));
    toml::put_is_found(entries, "repo"@, Node::Section(new_repos));
    if key != "repo"@ {
        toml::lemma_put_elsewhere(
            entries,
            "repo"@,
            Node::Section(toml::without(repos, name)),
            key,
        );
    }
}

/// **What is written first has version 1, every recorded commit and nothing else,
/// by name.**
pub proof fn first_writes_have_every_commit(before: Entries, after: Entries, name: Seq<char>)
    requires
        first_write(before, after),
    ensures
        toml::lookup(after, "version"@) == Some(Node::Number(1)),
        recorded(after, name) == recorded(before, name),
        recorded_names(after).contains(name) <==> recorded(before, name) is Some,
        forall|i: int, j: int|
            0 <= i < j < recorded_names(after).len() ==> order::text_le(
                #[trigger] recorded_names(after)[i],
                #[trigger] recorded_names(after)[j],
            ),
{
}

/// **What is wrong with a lock is said with what it is about**: the file, the
/// version that was found and the one that is supported, the entry.
pub proof fn lock_problems_are_named(version: i64, name: String)
    ensures
        lock_error_text(LockError::UnsupportedVersion(version)) == "lock file version "@
            + text::signed_digits(version as int) + " is not supported (expected "@
            + text::signed_digits(1) + ")"@,
        lock_error_text(LockError::BadEntry(name)) == "lock entry repo."@ + name@
            + " lacks a commit string"@,
        lock_error_text(LockError::MissingVersion) == "lock file has entries but no version"@,
        lock_error_text(LockError::Io(name)) == name@,
        version >= 0 ==> text::signed_digits(version as int) == text::digits_of(version as nat),
        version < 0 ==> text::signed_digits(version as int) == seq!['-'] + text::digits_of(
            (-version) as nat,
        ),
{
}

/// **What is saved is what is recorded**: saving changes no commit, leaves nothing to
/// be written, and the text that is written reads back with every commit.
pub proof fn saving_changes_no_commit(
    before: RepoLock,
    after: RepoLock,
    content: Seq<char>,
    name: Seq<char>,
)
    requires
        saved(before, after, content),
    ensures
        recorded(after.entries(), name) == recorded(before.entries(), name),
        content == after.rendering(),
        !after.dirty() && !after.unwritten(),
        after.file() == before.file(),
        after.legible() ==> (toml::parsed_toml(content) matches Ok(read) && recorded(read, name)
            == recorded(before.entries(), name) && toml::lookup(read, "version"@) == Some(
            Node::Number(1),
        )),
{
    if after.legible() {
        let read = toml::parsed_toml(content)->Ok_0;
        assert(recorded(read, name) == recorded(after.entries(), name));
        only_version_one_is_accepted(read);
    }
}

} // verus!
