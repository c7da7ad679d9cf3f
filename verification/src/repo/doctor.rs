//! Health of `[[repo]]` entries, and the lock's garbage.

use vstd::prelude::*;
use vstd::utf8::encode_utf8;

use super::entry::name_of;
use super::entry::target_of;
use super::entry::RepoEntry;
use super::materialize::dirty_report;
use super::materialize::full_id;
use super::materialize::is_dirty;
use super::materialize::is_object_id;
use super::materialize::maybe;
use crate::lock;
use crate::lock::RepoLock;
use crate::path;
use crate::path::FsPath;
use crate::text;
use crate::toml;

verus! {

/// Health of one entry as reported by [`doctor`].
#[derive(Debug, PartialEq, Eq)]
pub enum DoctorStatus {
    /// Materialized at the locked commit, clean.
    Healthy,
    /// The target does not exist.
    MissingTarget,
    /// The target exists but is not a git repository.
    Occupied,
    /// The target path escapes the workspace root.
    EscapedTarget,
    /// No lock entry for this repo.
    MissingLock,
    /// HEAD is not at the locked commit.
    Diverged {
        /// Where HEAD is; `None` for an unborn HEAD.
        at: Option<String>,
        /// The locked commit.
        locked: String,
    },
    /// The manifest pins a full commit id that differs from the lock.
    ManifestPinned {
        /// The pinned commit.
        rev: String,
        /// The locked commit.
        locked: String,
    },
    /// The working copy has local changes.
    Dirty,
}

/// A [`DoctorStatus`] by value.
pub enum Health {
    /// See [`DoctorStatus::Healthy`].
    Fine,
    /// See [`DoctorStatus::MissingTarget`].
    MissingTarget,
    /// See [`DoctorStatus::Occupied`].
    Occupied,
    /// See [`DoctorStatus::EscapedTarget`].
    EscapedTarget,
    /// See [`DoctorStatus::MissingLock`].
    MissingLock,
    /// See [`DoctorStatus::Diverged`].
    Diverged(Option<Seq<char>>, Seq<char>),
    /// See [`DoctorStatus::ManifestPinned`].
    Pinned(Seq<char>, Seq<char>),
    /// See [`DoctorStatus::Dirty`].
    Dirty,
}

impl View for DoctorStatus {
    type V = Health;

    open spec fn view(&self) -> Health {
        match *self {
            DoctorStatus::Healthy => Health::Fine,
            DoctorStatus::MissingTarget => Health::MissingTarget,
            DoctorStatus::Occupied => Health::Occupied,
            DoctorStatus::EscapedTarget => Health::EscapedTarget,
            DoctorStatus::MissingLock => Health::MissingLock,
            DoctorStatus::Diverged { at, locked } => Health::Diverged(maybe(at), locked@),
            DoctorStatus::ManifestPinned { rev, locked } => Health::Pinned(rev@, locked@),
            DoctorStatus::Dirty => Health::Dirty,
        }
    }
}

/// How a health describes itself.
pub open spec fn health_text(health: Health) -> Seq<char> {
    match health {
        Health::Fine => "ok"@,
        Health::MissingTarget => "not materialized"@,
        Health::Occupied => "target is not a git repository"@,
        Health::EscapedTarget => "target escapes workspace root"@,
        Health::MissingLock => "no lock entry (jjn repo sync records one)"@,
        Health::Diverged(Some(at), locked) => "at "@ + at + ", locked "@ + locked,
        Health::Diverged(None, locked) => "unborn HEAD, locked "@ + locked,
        Health::Pinned(rev, locked) => "manifest pins "@ + rev + ", lock has "@ + locked
            + " (jjn repo update)"@,
        Health::Dirty => "dirty working copy (readonly repo)"@,
    }
}

impl DoctorStatus {
    /// Returns `true` when the entry needs no action.
    pub fn is_ok(&self) -> (ok: bool)
        ensures
            ok == (self@ is Fine),
    {
        match self {
            DoctorStatus::Healthy => true,
            _ => false,
        }
    }

    /// The status as text.
    pub fn message(&self) -> (message: String)
        ensures
            message@ == health_text(self@),
    {
        match self {
            DoctorStatus::Healthy => "ok".to_owned(),
            DoctorStatus::MissingTarget => "not materialized".to_owned(),
            DoctorStatus::Occupied => "target is not a git repository".to_owned(),
            DoctorStatus::EscapedTarget => "target escapes workspace root".to_owned(),
            DoctorStatus::MissingLock => "no lock entry (jjn repo sync records one)".to_owned(),
            DoctorStatus::Diverged { at, locked } => match at {
                Some(at) => "at ".to_owned().concat(at.as_str()).concat(", locked ").concat(
                    locked.as_str(),
                ),
                None => "unborn HEAD, locked ".to_owned().concat(locked.as_str()),
            },
            DoctorStatus::ManifestPinned { rev, locked } => "manifest pins ".to_owned().concat(
                rev.as_str(),
            ).concat(", lock has ").concat(locked.as_str()).concat(" (jjn repo update)"),
            DoctorStatus::Dirty => "dirty working copy (readonly repo)".to_owned(),
        }
    }
}

impl Clone for DoctorStatus {
    fn clone(&self) -> (copy: DoctorStatus)
        ensures
            copy == *self,
    {
        match self {
            DoctorStatus::Healthy => DoctorStatus::Healthy,
            DoctorStatus::MissingTarget => DoctorStatus::MissingTarget,
            DoctorStatus::Occupied => DoctorStatus::Occupied,
            DoctorStatus::EscapedTarget => DoctorStatus::EscapedTarget,
            DoctorStatus::MissingLock => DoctorStatus::MissingLock,
            DoctorStatus::Diverged { at, locked } => DoctorStatus::Diverged {
                at: text::copied(at),
                locked: locked.clone(),
            },
            DoctorStatus::ManifestPinned { rev, locked } => DoctorStatus::ManifestPinned {
                rev: rev.clone(),
                locked: locked.clone(),
            },
            DoctorStatus::Dirty => DoctorStatus::Dirty,
        }
    }
}

/// What was seen of one entry. Status and HEAD matter only where there is a
/// repository.
#[derive(Debug)]
pub struct RepoSight {
    /// Whether there is a `.git` in the target.
    pub git: bool,
    /// Whether the target exists.
    pub target: bool,
    /// What `git status --porcelain` printed, unless it failed.
    pub status: Option<Vec<u8>>,
    /// The commit of HEAD, unless it is unborn.
    pub head: Option<String>,
}

/// One entry with its [`DoctorStatus`].
#[derive(Debug)]
pub struct Diagnosis {
    /// The checked entry.
    pub entry: RepoEntry,
    /// What was found.
    pub status: DoctorStatus,
}

/// Whether the status report that was seen is a dirty one.
pub open spec fn seen_dirty(sight: RepoSight) -> bool {
    match sight.status {
        Some(output) => dirty_report(output@),
        None => false,
    }
}

/// The health of an entry, going by the lock and by what was seen.
pub open spec fn health_of(
    entry: RepoEntry,
    locked: Option<Seq<char>>,
    sight: RepoSight,
) -> Health {
    if !path::within_root(encode_utf8(target_of(entry))) {
        Health::EscapedTarget
    } else if !sight.git {
        if sight.target {
            Health::Occupied
        } else {
            Health::MissingTarget
        }
    } else {
        match locked {
            None => Health::MissingLock,
            Some(commit) => if seen_dirty(sight) {
                Health::Dirty
            } else if maybe(sight.head) != Some(commit) {
                Health::Diverged(maybe(sight.head), commit)
            } else {
                match entry.rev {
                    Some(rev) => if full_id(rev@) && rev@ != commit {
                        Health::Pinned(rev@, commit)
                    } else {
                        Health::Fine
                    },
                    None => Health::Fine,
                }
            },
        }
    }
}

/// The target to look at for an entry; an escaping one is not looked at.
pub fn target_to_check(root: &FsPath, entry: &RepoEntry) -> (target: Option<FsPath>)
    ensures
        target is Some == path::within_root(encode_utf8(target_of(*entry))),
        target is Some ==> target->0@ == path::child(root@, target_of(*entry)),
{
    let target = entry.effective_target();
    if path::target_within_root(target.as_str()) {
        Some(root.join(target.as_str()))
    } else {
        None
    }
}

/// Checks one entry, going by what was seen of it.
pub fn doctor_one(entry: &RepoEntry, lock: &RepoLock, sight: &RepoSight) -> (status: DoctorStatus)
    ensures
        status@ == health_of(*entry, lock::recorded(lock.entries(), name_of(*entry)), *sight),
{
    if !path::target_within_root(entry.effective_target().as_str()) {
        return DoctorStatus::EscapedTarget;
    }
    if !sight.git {
        return if sight.target {
            DoctorStatus::Occupied
        } else {
            DoctorStatus::MissingTarget
        };
    }
    let locked = match lock.commit(entry.effective_name().as_str()) {
        Some(commit) => commit.to_owned(),
        None => return DoctorStatus::MissingLock,
    };
    let dirty = match &sight.status {
        Some(output) => is_dirty(output),
        None => false,
    };
    if dirty {
        return DoctorStatus::Dirty;
    }
    let there = match &sight.head {
        Some(head) => text::same(head.as_str(), locked.as_str()),
        None => false,
    };
    if !there {
        return DoctorStatus::Diverged { at: text::copied(&sight.head), locked };
    }
    if let Some(rev) = &entry.rev {
        if is_object_id(rev.as_str()) && !text::same(rev.as_str(), locked.as_str()) {
            return DoctorStatus::ManifestPinned { rev: rev.clone(), locked };
        }
    }
    DoctorStatus::Healthy
}

/// Checks all entries, each going by what was seen of it.
pub fn doctor(entries: &[RepoEntry], lock: &RepoLock, sights: &[RepoSight]) -> (report: Vec<
    Diagnosis,
>)
    requires
        sights@.len() == entries@.len(),
    ensures
        report@.len() == entries@.len(),
        forall|i: int|
            0 <= i < entries@.len() ==> (#[trigger] report@[i]).entry == entries@[i]
                && report@[i].status@ == health_of(
                entries@[i],
                lock::recorded(lock.entries(), name_of(entries@[i])),
                sights@[i],
            ),
{
    let mut report: Vec<Diagnosis> = Vec::new();
    let mut i: usize = 0;
    while i < entries.len()
        invariant
            i <= entries.len(),
            sights@.len() == entries@.len(),
            report.len() == i,
            forall|j: int|
                0 <= j < i ==> (#[trigger] report@[j]).entry == entries@[j]
                    && report@[j].status@ == health_of(
                    entries@[j],
                    lock::recorded(lock.entries(), name_of(entries@[j])),
                    sights@[j],
                ),
        decreases entries.len() - i,
    {
        let status = doctor_one(&entries[i], lock, &sights[i]);
        report.push(Diagnosis { entry: entries[i].clone(), status });
        i = i + 1;
    }
    report
}

/// **A healthy repo is at its locked commit, clean, and not pinned
/// elsewhere**, and every such repo is healthy.
pub proof fn healthy_means_at_the_locked_commit(
    entry: RepoEntry,
    locked: Option<Seq<char>>,
    sight: RepoSight,
)
    ensures
        (health_of(entry, locked, sight) is Fine) <==> {
            &&& path::within_root(encode_utf8(target_of(entry)))
            &&& sight.git
            &&& locked is Some
            &&& !seen_dirty(sight)
            &&& maybe(sight.head) == locked
            &&& entry.rev matches Some(rev) ==> !full_id(rev@) || Some(rev@) == locked
        },
{
}

// ---------------------------------------------------------------------------
// Garbage in the lock
// ---------------------------------------------------------------------------

/// Whether an entry of this name is declared.
pub open spec fn declares(entries: Seq<RepoEntry>, name: Seq<char>) -> bool {
    exists|i: int| 0 <= i < entries.len() && name_of(#[trigger] entries[i]) == name
}

/// The names of a list that no entry declares, in their order.
pub open spec fn orphans(names: Seq<Seq<char>>, entries: Seq<RepoEntry>) -> Seq<Seq<char>>
    decreases names.len(),
{
    if names.len() == 0 {
        Seq::empty()
    } else if declares(entries, names.last()) {
        orphans(names.drop_last(), entries)
    } else {
        orphans(names.drop_last(), entries).push(names.last())
    }
}

/// The names of a list that some entry declares, in their order.
pub open spec fn spared(names: Seq<Seq<char>>, entries: Seq<RepoEntry>) -> Seq<Seq<char>>
    decreases names.len(),
{
    if names.len() == 0 {
        Seq::empty()
    } else if declares(entries, names.last()) {
        spared(names.drop_last(), entries).push(names.last())
    } else {
        spared(names.drop_last(), entries)
    }
}

/// A lock without the entries of these names; nothing else of it changes.
pub open spec fn dropping(lock: toml::Entries, names: Seq<Seq<char>>) -> toml::Entries
    decreases names.len(),
{
    if names.len() == 0 {
        lock
    } else {
        lock::without_name(dropping(lock, names.drop_last()), names.last())
    }
}

/// A row without one of its members.
spec fn sans(names: Seq<Seq<char>>, name: Seq<char>) -> Seq<Seq<char>>
    decreases names.len(),
{
    if names.len() == 0 {
        Seq::empty()
    } else if names.last() == name {
        sans(names.drop_last(), name)
    } else {
        sans(names.drop_last(), name).push(names.last())
    }
}

proof fn lemma_sans_none(names: Seq<Seq<char>>, name: Seq<char>)
    requires
        !names.contains(name),
    ensures
        sans(names, name) == names,
    decreases names.len(),
{
    if names.len() > 0 {
        let less = names.drop_last();
        assert(names[names.len() - 1] != name);
        assert(!less.contains(name)) by {
            if less.contains(name) {
                let i = choose|i: int| 0 <= i < less.len() && less[i] == name;
                assert(names[i] == name);
            }
        }
        lemma_sans_none(less, name);
        assert(less.push(names.last()) =~= names);
    } else {
        assert(names =~= Seq::<Seq<char>>::empty());
    }
}

proof fn lemma_sans_concat(a: Seq<Seq<char>>, b: Seq<Seq<char>>, name: Seq<char>)
    ensures
        sans(a + b, name) == sans(a, name) + sans(b, name),
    decreases b.len(),
{
    if b.len() == 0 {
        assert(a + b =~= a);
        assert(sans(a, name) + Seq::<Seq<char>>::empty() =~= sans(a, name));
    } else {
        assert((a + b).drop_last() =~= a + b.drop_last());
        assert((a + b).last() == b.last());
        lemma_sans_concat(a, b.drop_last(), name);
        if b.last() != name {
            assert((sans(a, name) + sans(b.drop_last(), name)).push(b.last()) =~= sans(a, name)
                + sans(b.drop_last(), name).push(b.last()));
        }
    }
}

/// The members of a row that are spared are members of the row.
proof fn lemma_spared_members(
    names: Seq<Seq<char>>,
    entries: Seq<RepoEntry>,
    name: Seq<char>,
)
    requires
        spared(names, entries).contains(name),
    ensures
        names.contains(name),
        declares(entries, name),
    decreases names.len(),
{
    let some = spared(names, entries);
    let k = choose|k: int| 0 <= k < some.len() && some[k] == name;
    let less = names.drop_last();
    if names.len() > 0 {
        if declares(entries, names.last()) && k == some.len() - 1 {
            assert(names[names.len() - 1] == name);
        } else {
            assert(spared(less, entries)[k] == name);
            lemma_spared_members(less, entries, name);
            let i = choose|i: int| 0 <= i < less.len() && less[i] == name;
            assert(names[i] == name);
        }
    }
}

/// Taking a key out takes its name out of those that hold something.
proof fn lemma_live_without(entries: toml::Entries, name: Seq<char>)
    requires
        toml::distinct_keys(entries),
    ensures
        toml::live_keys(toml::without(entries, name)) == sans(toml::live_keys(entries), name),
    decreases entries.len(),
{
    toml::lemma_slot(entries, name);
    if entries.len() > 0 {
        let less = entries.drop_last();
        let last = entries.last();
        assert forall|i: int, j: int|
            0 <= i < less.len() && 0 <= j < less.len() && #[trigger] less[i].0
                == #[trigger] less[j].0 implies i == j by {
            assert(entries[i].0 == entries[j].0);
        }
        toml::lemma_slot(less, name);
        let at = toml::slot(less, name);
        if last.0 == name {
            assert forall|i: int| 0 <= i < less.len() implies #[trigger] less[i].0 != name by {
                if less[i].0 == name {
                    assert(entries[i].0 == entries[entries.len() - 1].0);
                }
            }
            toml::lemma_slot_is(less, name, less.len() as int);
            assert forall|i: int| 0 <= i < less.len() implies #[trigger] entries[i].0 != name by {
                assert(less[i].0 != name);
            }
            toml::lemma_slot_is(entries, name, entries.len() - 1);
            assert(toml::without(entries, name) =~= less);
            assert(!toml::live_keys(less).contains(name)) by {
                if toml::live_keys(less).contains(name) {
                    lemma_live_is_there(less, name);
                }
            }
            lemma_sans_none(toml::live_keys(less), name);
            let live = toml::live_keys(entries);
            if !(last.1 is Nothing) {
                assert(live.drop_last() =~= toml::live_keys(less));
            }
        } else {
            lemma_live_without(less, name);
            if at < less.len() {
                assert forall|i: int| 0 <= i < at implies #[trigger] entries[i].0 != name by {
                    assert(less[i].0 != name);
                }
                assert(entries[at].0 == name);
                toml::lemma_slot_is(entries, name, at);
            } else {
                assert forall|i: int| 0 <= i < entries.len() implies #[trigger] entries[i].0
                    != name by {
                    if i < less.len() {
                        assert(less[i].0 != name);
                    }
                }
                toml::lemma_slot_is(entries, name, entries.len() as int);
            }
            let after = toml::without(entries, name);
            assert(after =~= toml::without(less, name).push(last));
            assert(after.drop_last() =~= toml::without(less, name));
            let live = toml::live_keys(entries);
            if !(last.1 is Nothing) {
                assert(live.drop_last() =~= toml::live_keys(less));
            }
        }
    } else {
        assert(toml::without(entries, name) =~= entries);
    }
}

/// What dropping one name does to the names under `[repo]`.
proof fn lemma_names_without(entries: toml::Entries, name: Seq<char>)
    requires
        lock::repo_entries(entries) is Some ==> toml::distinct_keys(
            lock::repo_entries(entries)->0,
        ),
    ensures
        lock::recorded_names(lock::without_name(entries, name)) == sans(
            lock::recorded_names(entries),
            name,
        ),
{
    if let Some(repos) = lock::repo_entries(entries) {
        let left = toml::without(repos, name);
        toml::put_is_found(entries, "repo"@, toml::Node::Section(left));
        lemma_live_without(repos, name);
    }
}

/// **Collecting again drops nothing**: no name that is left is an orphan.
pub proof fn collecting_again_drops_nothing(names: Seq<Seq<char>>, entries: Seq<RepoEntry>)
    ensures
        orphans(spared(names, entries), entries).len() == 0,
    decreases names.len(),
{
    if names.len() > 0 {
        let less = names.drop_last();
        collecting_again_drops_nothing(less, entries);
        if declares(entries, names.last()) {
            assert(spared(names, entries).drop_last() =~= spared(less, entries));
        }
    }
}

/// The effective names of all entries.
pub(crate) fn declared_names(entries: &[RepoEntry]) -> (names: Vec<String>)
    ensures
        names@.len() == entries@.len(),
        forall|i: int| 0 <= i < entries@.len() ==> #[trigger] names@[i]@ == name_of(entries@[i]),
{
    let mut names: Vec<String> = Vec::new();
    let mut i: usize = 0;
    while i < entries.len()
        invariant
            i <= entries.len(),
            names.len() == i,
            forall|j: int| 0 <= j < i ==> #[trigger] names@[j]@ == name_of(entries@[j]),
        decreases entries.len() - i,
    {
        names.push(entries[i].effective_name());
        i = i + 1;
    }
    names
}

proof fn lemma_live_is_there(entries: toml::Entries, key: Seq<char>)
    requires
        toml::live_keys(entries).contains(key),
    ensures
        toml::slot(entries, key) < entries.len(),
    decreases entries.len(),
{
    toml::lemma_slot(entries, key);
    if toml::slot(entries, key) == entries.len() {
        let less = entries.drop_last();
        let live = toml::live_keys(entries);
        let i = choose|i: int| 0 <= i < live.len() && live[i] == key;
        if entries.last().1 is Nothing {
        } else {
            assert(entries.last().0 == entries[entries.len() - 1].0);
            assert(i < live.len() - 1);
            assert(toml::live_keys(less)[i] == key);
        }
        assert(toml::live_keys(less).contains(key));
        lemma_live_is_there(less, key);
        toml::lemma_slot(less, key);
        let at = toml::slot(less, key);
        assert(entries[at].0 == key);
    }
}

/// Whether there is an entry of this name under `[repo]`.
spec fn there(entries: toml::Entries, name: Seq<char>) -> bool {
    match lock::repo_entries(entries) {
        Some(repos) => toml::slot(repos, name) < repos.len(),
        None => false,
    }
}

proof fn lemma_other_stays(entries: toml::Entries, name: Seq<char>, other: Seq<char>)
    requires
        other != name,
        there(entries, other),
    ensures
        there(lock::without_name(entries, name), other),
{
    let repos = lock::repo_entries(entries)->0;
    let left = toml::without(repos, name);
    toml::put_is_found(entries, "repo"@, toml::Node::Section(left));
    toml::lemma_slot(repos, name);
    toml::lemma_slot(repos, other);
    toml::lemma_slot(left, other);
    let at = toml::slot(repos, name);
    let s = toml::slot(repos, other);
    if at < repos.len() {
        let t = if s > at {
            s - 1
        } else {
            s
        };
        assert(left[t] == repos[s]);
        assert(left[t].0 == other);
    }
}

/// Drops lock entries whose manifest entry is gone; returns the dropped
/// names (lock is derived state, so this is a safe garbage collection).
pub fn gc_lock(lock: &mut RepoLock, entries: &[RepoEntry]) -> (dropped: Vec<String>)
    ensures
        text::views(dropped@) == orphans(lock::recorded_names(old(lock).entries()), entries@),
        final(lock).entries() == dropping(old(lock).entries(), text::views(dropped@)),
        lock::recorded_names(final(lock).entries()) == spared(
            lock::recorded_names(old(lock).entries()),
            entries@,
        ),
        forall|name: Seq<char>| #[trigger]
            lock::recorded(final(lock).entries(), name) == (if declares(entries@, name) {
                lock::recorded(old(lock).entries(), name)
            } else {
                None
            }),
        final(lock).dirty() == (old(lock).dirty() || dropped@.len() > 0),
        final(lock).file() == old(lock).file(),
        final(lock).unwritten() == old(lock).unwritten(),
        lock::recordable(old(lock).entries()) ==> lock::recordable(final(lock).entries()),
        lock::version_of(final(lock).entries()) == lock::version_of(old(lock).entries()),
        old(lock).legible() ==> final(lock).legible(),
{
    let declared = declared_names(entries);
    let names = lock.names();
    let mut dropped: Vec<String> = Vec::new();
    let ghost all = text::views(names@);
    let ghost first = lock.entries();
    let mut i: usize = 0;
    assert(text::views(dropped@) =~= Seq::<Seq<char>>::empty());
    assert(all =~= spared(all.take(0), entries@) + all.skip(0));
    proof {
        assert forall|j: int| 0 <= j < all.len() implies there(first, #[trigger] all[j]) by {
            lemma_live_is_there(lock::repo_entries(first)->0, all[j]);
        }
    }
    while i < names.len()
        invariant
            i <= names.len(),
            all == text::views(names@),
            all.no_duplicates(),
            all == lock::recorded_names(first),
            first == old(lock).entries(),
            declared@.len() == entries@.len(),
            forall|j: int|
                0 <= j < entries@.len() ==> #[trigger] declared@[j]@ == name_of(entries@[j]),
            text::views(dropped@) == orphans(all.take(i as int), entries@),
            lock.entries() == dropping(first, text::views(dropped@)),
            lock::recorded_names(lock.entries()) == spared(all.take(i as int), entries@) + all.skip(
                i as int,
            ),
            lock.dirty() == (old(lock).dirty() || dropped@.len() > 0),
            lock.file() == old(lock).file(),
            lock.unwritten() == old(lock).unwritten(),
            lock::recordable(first) ==> lock::recordable(lock.entries()),
            lock::version_of(lock.entries()) == lock::version_of(first),
            old(lock).legible() ==> lock.legible(),
            forall|name: Seq<char>|
                declares(entries@, name) ==> #[trigger] lock::recorded(lock.entries(), name)
                    == lock::recorded(first, name),
            forall|name: Seq<char>| #[trigger]
                lock::recorded(lock.entries(), name) is Some ==> lock::recorded(first, name)
                    is Some,
            forall|j: int|
                0 <= j < i && !declares(entries@, all[j]) ==> #[trigger] lock::recorded(
                    lock.entries(),
                    all[j],
                ) is None,
            forall|j: int| i <= j < all.len() ==> there(lock.entries(), #[trigger] all[j]),
        decreases names.len() - i,
    {
        let ghost name = all[i as int];
        let ghost before = lock.entries();
        assert(names@[i as int]@ == name);
        assert(all.take(i + 1).drop_last() =~= all.take(i as int));
        let known = text::contains_text(&declared, names[i].as_str());
        proof {
            if known {
                let j = choose|j: int| 0 <= j < declared@.len() && #[trigger] declared@[j]@ == name;
                assert(name_of(entries@[j]) == name);
            } else if declares(entries@, name) {
                let j = choose|j: int| 0 <= j < entries@.len() && name_of(#[trigger] entries@[j]) == name;
                assert(declared@[j]@ == name);
            }
        }
        let ghost kept = spared(all.take(i as int), entries@);
        let ghost rest = all.skip(i + 1);
        assert(all.skip(i as int) =~= seq![name] + rest);
        assert(all.take(i + 1).last() == name);
        assert(known == declares(entries@, name));
        if known {
            assert(spared(all.take(i + 1), entries@) == kept.push(name));
            assert(kept + (seq![name] + rest) =~= kept.push(name) + rest);
        }
        if !known {
            assert(there(before, name));
            let removed = lock.remove(names[i].as_str());
            proof {
                lemma_names_without(before, name);
                lemma_sans_concat(kept, seq![name] + rest, name);
                lemma_sans_concat(seq![name], rest, name);
                assert(seq![name].drop_last() =~= Seq::<Seq<char>>::empty());
                assert(sans(seq![name].drop_last(), name) == Seq::<Seq<char>>::empty());
                assert(seq![name].last() == name);
                assert(sans(seq![name], name) == Seq::<Seq<char>>::empty());
                assert(!kept.contains(name)) by {
                    if kept.contains(name) {
                        lemma_spared_members(all.take(i as int), entries@, name);
                    }
                }
                assert(!rest.contains(name)) by {
                    if rest.contains(name) {
                        let k = choose|k: int| 0 <= k < rest.len() && rest[k] == name;
                        assert(all[k + i + 1] == all[i as int]);
                    }
                }
                lemma_sans_none(kept, name);
                lemma_sans_none(rest, name);
                assert(Seq::<Seq<char>>::empty() + rest =~= rest);
                lock::dropped_entry_is_gone(before, name);
                assert forall|other: Seq<char>| #[trigger]
                    lock::recorded(lock.entries(), other) is Some implies lock::recorded(
                    first,
                    other,
                ) is Some by {
                    assert(other != name);
                    assert(lock::recorded(before, other) is Some);
                }
                assert forall|j: int| i < j < all.len() implies there(
                    lock.entries(),
                    #[trigger] all[j],
                ) by {
                    assert(all[j] != name);
                    assert(there(before, all[j]));
                    lemma_other_stays(before, name, all[j]);
                }
                assert forall|j: int|
                    0 <= j < i + 1 && !declares(entries@, all[j]) implies #[trigger] lock::recorded(
                    lock.entries(),
                    all[j],
                ) is None by {
                    if j < i {
                        assert(all[j] != name);
                        assert(lock::recorded(before, all[j]) is None);
                    }
                }
            }
            if removed {
                let ghost held = text::views(dropped@);
                dropped.push(names[i].clone());
                assert(text::views(dropped@) =~= held.push(name));
                assert(held.push(name).drop_last() =~= held);
            }
        }
        i = i + 1;
    }
    assert(all.take(i as int) =~= all);
    assert(spared(all, entries@) + all.skip(i as int) =~= spared(all, entries@));
    assert forall|name: Seq<char>| #[trigger]
        lock::recorded(lock.entries(), name) == (if declares(entries@, name) {
            lock::recorded(first, name)
        } else {
            None
        }) by {
        if !declares(entries@, name) && lock::recorded(lock.entries(), name) is Some {
            lock::lemma_found_is_live(lock::repo_entries(first)->0, name);
            let j = choose|j: int| 0 <= j < all.len() && all[j] == name;
            assert(lock::recorded(lock.entries(), all[j]) is None);
        }
    }
    dropped
}

/// **Each status has its cause**, and the first one that there is is reported: a
/// target that escapes, no repository there, no lock entry, local changes, another
/// commit, another full commit id in the manifest.
pub proof fn each_status_has_its_cause(
    entry: RepoEntry,
    locked: Option<Seq<char>>,
    sight: RepoSight,
)
    ensures
        ({
            let health = health_of(entry, locked, sight);
            let kept = path::within_root(encode_utf8(target_of(entry)));
            let known = kept && sight.git && locked is Some;
            let dirty = sight.status matches Some(output) && dirty_report(output@);
            let here = sight.head matches Some(head) && locked == Some(head@);
            &&& health is EscapedTarget <==> !kept
            &&& health is MissingTarget <==> kept && !sight.git && !sight.target
            &&& health is Occupied <==> kept && !sight.git && sight.target
            &&& health is MissingLock <==> kept && sight.git && locked is None
            &&& health is Dirty <==> known && dirty
            &&& health is Diverged <==> known && !dirty && !here
            &&& health matches Health::Diverged(at, wanted) ==> Some(wanted) == locked && match sight.head {
                Some(head) => at == Some(head@),
                None => at is None,
            }
            &&& health is Pinned <==> known && !dirty && here && (entry.rev matches Some(rev)
                && full_id(rev@) && Some(rev@) != locked)
            &&& health matches Health::Pinned(rev, wanted) ==> Some(wanted) == locked && entry.rev
                is Some && rev == entry.rev->0@
        }),
{
}

/// **Exactly what no entry declares is dropped from a lock**, and the rest stays,
/// both in their order.
pub proof fn orphans_are_what_is_not_declared(
    names: Seq<Seq<char>>,
    entries: Seq<RepoEntry>,
    name: Seq<char>,
)
    ensures
        orphans(names, entries).contains(name) <==> names.contains(name) && forall|i: int|
            0 <= i < entries.len() ==> name_of(#[trigger] entries[i]) != name,
        spared(names, entries).contains(name) <==> names.contains(name) && exists|i: int|
            0 <= i < entries.len() && name_of(#[trigger] entries[i]) == name,
        orphans(names, entries).len() + spared(names, entries).len() == names.len(),
        names.no_duplicates() ==> orphans(names, entries).no_duplicates() && spared(
            names,
            entries,
        ).no_duplicates(),
    decreases names.len(),
{
    if names.len() > 0 {
        let less = names.drop_last();
        let last = names.last();
        orphans_are_what_is_not_declared(less, entries, name);
        orphans_are_what_is_not_declared(less, entries, last);
        let gone = orphans(less, entries);
        let kept = spared(less, entries);
        assert(names.contains(name) <==> less.contains(name) || name == last) by {
            if names.contains(name) {
                let i = choose|i: int| 0 <= i < names.len() && names[i] == name;
                if i < less.len() {
                    assert(less[i] == name);
                }
            }
            if less.contains(name) {
                let i = choose|i: int| 0 <= i < less.len() && less[i] == name;
                assert(names[i] == name);
            }
            assert(names[names.len() - 1] == last);
        }
        assert(gone.push(last).contains(name) <==> gone.contains(name) || name == last) by {
            assert(gone.push(last)[gone.len() as int] == last);
            if gone.contains(name) {
                let i = choose|i: int| 0 <= i < gone.len() && gone[i] == name;
                assert(gone.push(last)[i] == name);
            }
        }
        assert(kept.push(last).contains(name) <==> kept.contains(name) || name == last) by {
            assert(kept.push(last)[kept.len() as int] == last);
            if kept.contains(name) {
                let i = choose|i: int| 0 <= i < kept.len() && kept[i] == name;
                assert(kept.push(last)[i] == name);
            }
        }
        if names.no_duplicates() {
            assert(less.no_duplicates());
            assert(!less.contains(last)) by {
                if less.contains(last) {
                    let i = choose|i: int| 0 <= i < less.len() && less[i] == last;
                    assert(names[i] == names[names.len() - 1]);
                }
            }
        }
    }
}

/// **What is dropped and what stays keep their order.**
pub proof fn collecting_keeps_the_order(
    first: Seq<Seq<char>>,
    second: Seq<Seq<char>>,
    entries: Seq<RepoEntry>,
)
    ensures
        orphans(first + second, entries) == orphans(first, entries) + orphans(second, entries),
        spared(first + second, entries) == spared(first, entries) + spared(second, entries),
    decreases second.len(),
{
    if second.len() == 0 {
        assert(first + second =~= first);
    } else {
        let less = second.drop_last();
        assert((first + second).drop_last() =~= first + less);
        collecting_keeps_the_order(first, less, entries);
        assert(orphans(first + second, entries) =~= orphans(first, entries) + orphans(
            second,
            entries,
        ));
        assert(spared(first + second, entries) =~= spared(first, entries) + spared(
            second,
            entries,
        ));
    }
}

/// **What is said of a repository that went elsewhere tells where it is and what is
/// locked.**
pub proof fn diverged_commits_are_told_apart(at: Seq<char>, locked: Seq<char>)
    ensures
        health_text(Health::Diverged(Some(at), locked)) == "at "@ + at + ", locked "@ + locked,
        health_text(Health::Diverged(None, locked)) == "unborn HEAD, locked "@ + locked,
        health_text(Health::Pinned(at, locked)) == "manifest pins "@ + at + ", lock has "@ + locked
            + " (jjn repo update)"@,
{
}

} // verus!
