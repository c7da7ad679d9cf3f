//! `jjn repo`: adding, removing, updating, syncing and listing sub-repos.

use vstd::prelude::*;

use super::apply::converging;
use super::apply::put_converging;
use super::apply::task_views;
use super::apply::Task;
use super::apply::TaskView;
use super::complained;
use super::end_with;
use super::error;
use super::error_line;
use super::line_views;
use super::no_lines;
use super::put_line;
use super::said;
use super::Ending;
use super::Line;
use super::LineView;
use crate::config::stack;
use crate::config::trust::trusts;
use crate::config::trust::TrustedRoot;
use crate::files;
use crate::files::Deed;
use crate::files::StepView;
use crate::lock;
use crate::lock::RepoLock;
use crate::path;
use crate::path::FsPath;
use crate::repo;
use crate::repo::doctor::declared_names;
use crate::repo::doctor::health_of;
use crate::repo::doctor::health_text;
use crate::repo::entry::apply_status_text;
use crate::repo::entry::copied_entries;
use crate::repo::entry::duplicate_of;
use crate::repo::entry::name_of;
use crate::repo::entry::repo_error_text;
use crate::repo::entry::summary_of;
use crate::repo::entry::target_of;
use crate::repo::load::entries_of;
use crate::repo::load::entry_views;
use crate::repo::load::lemma_declared_by;
use crate::repo::load::lemma_declared_entries;
use crate::repo::load::removed_tables_are_not_loaded;
use crate::repo::manifest::declares;
use crate::repo::manifest::goes_by;
use crate::repo::manifest::lemma_table_index;
use crate::repo::manifest::manifest_tables;
use crate::repo::manifest::other_keys_are_left_alone;
use crate::repo::manifest::table_index;
use crate::repo::manifest::with_tables;
use crate::repo::manifest::Manifest;
use crate::repo::materialize::sound;
use crate::repo::materialize::started;
use crate::repo::ApplyStatus;
use crate::repo::Materialize;
use crate::repo::RepoEntry;
use crate::repo::RepoError;
use crate::repo::RepoSight;
use crate::text;
use crate::toml;
use crate::toml::Entries;
use crate::toml::Node;

verus! {

// ---------------------------------------------------------------------------
// Trust and selection
// ---------------------------------------------------------------------------

/// What is said where a workspace has to be trusted first.
pub open spec fn gate_line(root: Seq<u8>) -> LineView {
    error_line("repo "@ + text::lossy_text(root) + " is not trusted; run `jjn trust` first"@)
}

/// Lets commands that materialize sub-repos go on only in a trusted workspace:
/// one of the `listed` places, all canonicalized by the caller.
pub fn gate(listed: &Vec<FsPath>, root: &FsPath) -> (passed: Result<TrustedRoot, Line>)
    ensures
        match passed {
            Ok(trusted) => trusts(path::views(listed@), root@) && trusted@ == root@,
            Err(line) => !trusts(path::views(listed@), root@) && line@ == gate_line(root@),
        },
{
    match TrustedRoot::vouch(listed, root) {
        Some(trusted) => Ok(trusted),
        None => Err(
            error(
                "repo ".to_owned().concat(root.display().as_str()).concat(
                    " is not trusted; run `jjn trust` first",
                ).as_str(),
            ),
        ),
    }
}

/// Whether an entry goes by this name, or stands at this target.
pub open spec fn answers_to(entry: RepoEntry, name: Seq<char>) -> bool {
    name_of(entry) == name || target_of(entry) == name
}

/// The index of the first entry that goes by this name, or the number of
/// entries.
pub open spec fn index_of(entries: Seq<RepoEntry>, name: Seq<char>) -> int
    decreases entries.len(),
{
    if entries.len() == 0 || answers_to(entries[0], name) {
        0
    } else {
        1 + index_of(entries.skip(1), name)
    }
}

/// What [`index_of`] means.
pub proof fn lemma_index_of(entries: Seq<RepoEntry>, name: Seq<char>)
    ensures
        0 <= index_of(entries, name) <= entries.len(),
        index_of(entries, name) < entries.len() ==> answers_to(
            entries[index_of(entries, name)],
            name,
        ),
        forall|i: int|
            0 <= i < index_of(entries, name) ==> !answers_to(#[trigger] entries[i], name),
    decreases entries.len(),
{
    if entries.len() > 0 && !answers_to(entries[0], name) {
        let rest = entries.skip(1);
        lemma_index_of(rest, name);
        assert forall|i: int| 0 <= i < index_of(entries, name) implies !answers_to(
            #[trigger] entries[i],
            name,
        ) by {
            if i > 0 {
                assert(entries[i] == rest[i - 1]);
            }
        }
    }
}

fn find_entry(entries: &Vec<RepoEntry>, name: &str) -> (index: usize)
    ensures
        index == index_of(entries@, name@),
        index <= entries@.len(),
{
    let mut i: usize = 0;
    assert(entries@.skip(0) =~= entries@);
    while i < entries.len()
        invariant
            i <= entries.len(),
            index_of(entries@, name@) == i + index_of(entries@.skip(i as int), name@),
        decreases entries.len() - i,
    {
        assert(entries@.skip(i as int)[0] == entries@[i as int]);
        if text::same(entries[i].effective_name().as_str(), name) || text::same(
            entries[i].effective_target().as_str(),
            name,
        ) {
            return i;
        }
        assert(entries@.skip(i as int).skip(1) =~= entries@.skip(i + 1));
        i = i + 1;
    }
    i
}

/// The effective names of all entries.
pub open spec fn names_of(entries: Seq<RepoEntry>) -> Seq<Seq<char>> {
    entries.map_values(|entry: RepoEntry| name_of(entry))
}

/// What is said where no entry goes by a name.
pub open spec fn unknown_line(name: Seq<char>, entries: Seq<RepoEntry>) -> LineView {
    error_line(
        "no [[repo]] entry named "@ + name + "; known: "@ + text::joined(names_of(entries), ", "@),
    )
}

fn unknown(name: &str, entries: &Vec<RepoEntry>) -> (line: Line)
    ensures
        line@ == unknown_line(name@, entries@),
{
    let names = declared_names(entries.as_slice());
    assert(text::views(names@) =~= names_of(entries@));
    error(
        "no [[repo]] entry named ".to_owned().concat(name).concat("; known: ").concat(
            text::join(&names, ", ").as_str(),
        ).as_str(),
    )
}

/// The entry that goes by a name.
pub open spec fn picked(entries: Seq<RepoEntry>, name: Seq<char>) -> Result<RepoEntry, LineView> {
    let index = index_of(entries, name);
    if index < entries.len() {
        Ok(entries[index])
    } else {
        Err(unknown_line(name, entries))
    }
}

/// Picks the entry that goes by a name, or stands at that target: the first
/// one.
pub fn pick(entries: &Vec<RepoEntry>, name: &str) -> (entry: Result<RepoEntry, Line>)
    ensures
        match entry {
            Ok(entry) => picked(entries@, name@) == Ok::<RepoEntry, LineView>(entry),
            Err(line) => picked(entries@, name@) == Err::<RepoEntry, LineView>(line@),
        },
{
    let index: usize = find_entry(entries, name);
    if index < entries.len() {
        Ok(entries[index].clone())
    } else {
        Err(unknown(name, entries))
    }
}

/// The entries that go by these names, in the order of the names.
pub open spec fn all_picked(entries: Seq<RepoEntry>, names: Seq<Seq<char>>) -> Result<
    Seq<RepoEntry>,
    LineView,
>
    decreases names.len(),
{
    if names.len() == 0 {
        Ok(Seq::empty())
    } else {
        match all_picked(entries, names.drop_last()) {
            Err(line) => Err(line),
            Ok(before) => match picked(entries, names.last()) {
                Err(line) => Err(line),
                Ok(entry) => Ok(before.push(entry)),
            },
        }
    }
}

/// The entries to update: those that were named, or all of them.
pub open spec fn selected(entries: Seq<RepoEntry>, names: Seq<Seq<char>>) -> Result<
    Seq<RepoEntry>,
    LineView,
> {
    if entries.len() == 0 {
        Err(error_line("no [[repo]] entries"@))
    } else if names.len() == 0 {
        Ok(entries)
    } else {
        all_picked(entries, names)
    }
}

proof fn lemma_refused_stays(entries: Seq<RepoEntry>, names: Seq<Seq<char>>, i: int)
    requires
        0 <= i <= names.len(),
        all_picked(entries, names.take(i)) is Err,
    ensures
        all_picked(entries, names) == all_picked(entries, names.take(i)),
    decreases names.len() - i,
{
    if i < names.len() {
        assert(names.take(i + 1).drop_last() =~= names.take(i));
        lemma_refused_stays(entries, names, i + 1);
    } else {
        assert(names.take(i) =~= names);
    }
}

/// Selects the entries to update.
pub fn select(entries: &Vec<RepoEntry>, names: &Vec<String>) -> (selection: Result<
    Vec<RepoEntry>,
    Line,
>)
    ensures
        match selection {
            Ok(list) => selected(entries@, text::views(names@)) == Ok::<Seq<RepoEntry>, LineView>(
                list@,
            ),
            Err(line) => selected(entries@, text::views(names@)) == Err::<
                Seq<RepoEntry>,
                LineView,
            >(line@),
        },
{
    if entries.len() == 0 {
        return Err(error("no [[repo]] entries"));
    }
    if names.len() == 0 {
        return Ok(copied_entries(entries.as_slice()));
    }
    let ghost wanted = text::views(names@);
    let mut list: Vec<RepoEntry> = Vec::new();
    let mut i: usize = 0;
    assert(list@ =~= Seq::<RepoEntry>::empty());
    while i < names.len()
        invariant
            i <= names.len(),
            entries@.len() > 0,
            wanted == text::views(names@),
            all_picked(entries@, wanted.take(i as int)) == Ok::<Seq<RepoEntry>, LineView>(list@),
        decreases names.len() - i,
    {
        assert(wanted.take(i + 1).drop_last() =~= wanted.take(i as int));
        assert(wanted.take(i + 1).last() == names@[i as int]@);
        match pick(entries, names[i].as_str()) {
            Ok(entry) => {
                list.push(entry);
            },
            Err(line) => {
                proof {
                    lemma_refused_stays(entries@, wanted, i + 1);
                }
                return Err(line);
            },
        }
        i = i + 1;
    }
    assert(wanted.take(i as int) =~= wanted);
    Ok(list)
}

/// What `update` does with the selected entries: each is fetched, its revision is
/// resolved anew, and the lock is written.
pub fn update_tasks(trusted: &TrustedRoot, selected: &Vec<RepoEntry>) -> (tasks: Vec<Task>)
    ensures
        task_views(tasks@) == converging(trusted@, selected@.len(), true, false),
{
    let mut tasks: Vec<Task> = Vec::new();
    let ghost none = task_views(tasks@);
    assert(none =~= Seq::<TaskView>::empty());
    put_converging(&mut tasks, trusted.root(), selected.len(), true, false);
    assert(none + converging(trusted@, selected@.len(), true, false) =~= converging(
        trusted@,
        selected@.len(),
        true,
        false,
    ));
    tasks
}

/// What `sync` does: every entry is brought to the lock, what the lock has of
/// others is dropped, and the lock is written.
pub fn sync_tasks(trusted: &TrustedRoot, entries: &Vec<RepoEntry>) -> (tasks: Vec<Task>)
    ensures
        task_views(tasks@) == converging(trusted@, entries@.len(), false, true),
{
    let mut tasks: Vec<Task> = Vec::new();
    let ghost none = task_views(tasks@);
    assert(none =~= Seq::<TaskView>::empty());
    put_converging(&mut tasks, trusted.root(), entries.len(), false, true);
    assert(none + converging(trusted@, entries@.len(), false, true) =~= converging(
        trusted@,
        entries@.len(),
        false,
        true,
    ));
    tasks
}

// ---------------------------------------------------------------------------
// Adding
// ---------------------------------------------------------------------------

/// The first entry that has the name, or else the target.
pub open spec fn holder(entries: Seq<RepoEntry>, by_name: bool, value: Seq<char>) -> Option<
    RepoEntry,
>
    decreases entries.len(),
{
    if entries.len() == 0 {
        None
    } else if (if by_name {
        name_of(entries[0])
    } else {
        target_of(entries[0])
    }) == value {
        Some(entries[0])
    } else {
        holder(entries.skip(1), by_name, value)
    }
}

fn find_holder(entries: &Vec<RepoEntry>, by_name: bool, value: &str) -> (entry: Option<RepoEntry>)
    ensures
        entry == holder(entries@, by_name, value@),
{
    let mut i: usize = 0;
    assert(entries@.skip(0) =~= entries@);
    while i < entries.len()
        invariant
            i <= entries.len(),
            holder(entries@, by_name, value@) == holder(entries@.skip(i as int), by_name, value@),
        decreases entries.len() - i,
    {
        assert(entries@.skip(i as int)[0] == entries@[i as int]);
        let held = if by_name {
            entries[i].effective_name()
        } else {
            entries[i].effective_target()
        };
        if text::same(held.as_str(), value) {
            return Some(entries[i].clone());
        }
        assert(entries@.skip(i as int).skip(1) =~= entries@.skip(i + 1));
        i = i + 1;
    }
    None
}

/// What is said where an entry cannot be added: what clashes, the entry that is
/// there already, and how to remove it.
pub open spec fn clash_lines(entries: Seq<RepoEntry>, entry: RepoEntry) -> Seq<LineView> {
    let (kind, value) = duplicate_of(entries.push(entry))->0;
    let clash = seq![error_line("duplicate repo "@ + kind + ": "@ + value)];
    match holder(entries, kind == "name"@, value) {
        Some(there) => clash + seq![
            (true, "existing entry: "@ + summary_of(there)),
            (true, "remove it with: jjn repo remove "@ + name_of(there)),
        ],
        None => clash,
    }
}

/// Whether an entry can be added to the others, or how the command ends.
pub fn allow_entry(entries: &Vec<RepoEntry>, entry: &RepoEntry) -> (allowed: Result<(), Ending>)
    ensures
        allowed is Ok == repo::entry::apart(entries@.push(*entry)),
        allowed matches Err(ending) ==> ending@ == (clash_lines(entries@, *entry), true),
{
    let mut merged = copied_entries(entries.as_slice());
    merged.push(entry.clone());
    assert(merged@ =~= entries@.push(*entry));
    let err = match repo::validate(merged.as_slice()) {
        Ok(_) => return Ok(()),
        Err(err) => err,
    };
    let mut lines = no_lines();
    put_line(&mut lines, error(err.message().as_str()));
    if let RepoError::Duplicate { kind, value } = &err {
        let by_name = text::same(kind, "name");
        if let Some(there) = find_holder(entries, by_name, value.as_str()) {
            put_line(
                &mut lines,
                complained(
                    "existing entry: ".to_owned().concat(repo::entry_summary(&there).as_str()),
                ),
            );
            put_line(
                &mut lines,
                complained(
                    "remove it with: jjn repo remove ".to_owned().concat(
                        there.effective_name().as_str(),
                    ),
                ),
            );
        }
    }
    assert(line_views(lines@) =~= clash_lines(entries@, *entry));
    Err(Ending { lines, failed: true })
}

/// Starts materializing an entry that is to be added.
pub fn add_run(trusted: &TrustedRoot, entry: &RepoEntry) -> (run: Materialize)
    ensures
        run@ == started(trusted@, *entry, false, true),
        sound(run@),
{
    repo::apply_one(trusted.root(), entry, false, true)
}

/// What `add` does next.
#[derive(Debug, Clone, Copy, PartialEq, Eq, Structural)]
pub enum AddNext {
    /// The entry goes into the manifest.
    WriteManifest,
    /// The lock is written, if it was changed.
    WriteLock,
    /// What was put at the target is taken back, and the command ends.
    TakeBack,
}

/// A turn of `add`: what it says, and what it does next.
#[derive(Debug)]
pub struct AddTurn {
    /// The lines to print.
    pub lines: Vec<Line>,
    /// What is done next.
    pub next: AddNext,
}

impl View for AddTurn {
    type V = (Seq<LineView>, AddNext);

    open spec fn view(&self) -> (Seq<LineView>, AddNext) {
        (line_views(self.lines@), self.next)
    }
}

impl AddTurn {
    /// Whether the command failed: what was done is taken back.
    pub fn failed(&self) -> (yes: bool)
        ensures
            yes == (self@.1 == AddNext::TakeBack),
    {
        match self.next {
            AddNext::TakeBack => true,
            _ => false,
        }
    }
}

/// How `add` goes on once the sub-repo was materialized, or was not: nothing is
/// written before that.
pub open spec fn after_materializing(
    entry: RepoEntry,
    outcome: Result<ApplyStatus, RepoError>,
) -> (Seq<LineView>, AddNext) {
    match outcome {
        Ok(_) => (Seq::empty(), AddNext::WriteManifest),
        Err(err) => (
            seq![
                (true, name_of(entry) + ": "@ + repo_error_text(err)),
                (true, "nothing written"@),
            ],
            AddNext::TakeBack,
        ),
    }
}

/// Goes on once the sub-repo was materialized, or was not.
pub fn materialized(entry: &RepoEntry, outcome: &Result<ApplyStatus, RepoError>) -> (turn: AddTurn)
    ensures
        turn@ == after_materializing(*entry, *outcome),
{
    let mut lines = no_lines();
    match outcome {
        Ok(_) => AddTurn { lines, next: AddNext::WriteManifest },
        Err(err) => {
            put_line(
                &mut lines,
                complained(entry.effective_name().concat(": ").concat(err.message().as_str())),
            );
            put_line(&mut lines, complained("nothing written".to_owned()));
            assert(line_views(lines@) =~= after_materializing(*entry, *outcome).0);
            AddTurn { lines, next: AddNext::TakeBack }
        },
    }
}

/// How `add` goes on once the manifest was written, or was not.
pub open spec fn after_manifest(
    entry: RepoEntry,
    manifest: Seq<u8>,
    status: ApplyStatus,
    failure: Option<Seq<char>>,
) -> (Seq<LineView>, AddNext) {
    match failure {
        Some(message) => (
            seq![error_line("manifest: "@ + message), (true, "nothing written"@)],
            AddNext::TakeBack,
        ),
        None => (
            seq![
                (
                    false,
                    "added "@ + name_of(entry) + " ("@ + target_of(entry) + ") to "@
                        + text::lossy_text(manifest),
                ),
                (false, name_of(entry) + ": "@ + apply_status_text(status)),
            ],
            AddNext::WriteLock,
        ),
    }
}

/// Goes on once the manifest was written, or was not.
pub fn recorded(
    entry: &RepoEntry,
    manifest: &FsPath,
    status: &ApplyStatus,
    failure: &Option<String>,
) -> (turn: AddTurn)
    ensures
        turn@ == after_manifest(
            *entry,
            manifest@,
            *status,
            repo::materialize::maybe(*failure),
        ),
{
    let mut lines = no_lines();
    match failure {
        Some(message) => {
            put_line(
                &mut lines,
                error("manifest: ".to_owned().concat(message.as_str()).as_str()),
            );
            put_line(&mut lines, complained("nothing written".to_owned()));
            assert(line_views(lines@) =~= after_manifest(
                *entry,
                manifest@,
                *status,
                Some(message@),
            ).0);
            AddTurn { lines, next: AddNext::TakeBack }
        },
        None => {
            let name = entry.effective_name();
            put_line(
                &mut lines,
                said(
                    "added ".to_owned().concat(name.as_str()).concat(" (").concat(
                        entry.effective_target().as_str(),
                    ).concat(") to ").concat(manifest.display().as_str()),
                ),
            );
            put_line(&mut lines, said(name.concat(": ").concat(status.message().as_str())));
            assert(line_views(lines@) =~= after_manifest(*entry, manifest@, *status, None).0);
            AddTurn { lines, next: AddNext::WriteLock }
        },
    }
}

// ---------------------------------------------------------------------------
// Removing and listing
// ---------------------------------------------------------------------------

/// Ends `remove` where the manifest could not be read or written.
pub fn manifest_ending(message: &str) -> (ending: Ending)
    ensures
        ending@ == (seq![error_line("manifest: "@ + message@)], true),
{
    end_with(error("manifest: ".to_owned().concat(message).as_str()), true)
}

/// Ends `remove` where the entry was not in the manifest.
pub fn vanished_ending(name: &str) -> (ending: Ending)
    ensures
        ending@ == (
            seq![error_line(name@ + " disappeared from the manifest while removing it"@)],
            true,
        ),
{
    end_with(
        error(
            name.to_owned().concat(" disappeared from the manifest while removing it").as_str(),
        ),
        true,
    )
}

/// Takes an entry out of the manifest at `path`, which is then written; where it
/// is not there any more, `remove` ends.
pub fn drop_declaration(
    manifest: &mut Manifest,
    path: &FsPath,
    found: &RepoEntry,
    name: &str,
) -> (deeds: Result<Vec<Deed>, Ending>)
    requires
        manifest_tables(old(manifest).entries()) is Some,
    ensures
        ({
            let tables = manifest_tables(old(manifest).entries())->0;
            let index = table_index(tables, name_of(*found));
            if index < tables.len() {
                &&& final(manifest).entries() == with_tables(
                    old(manifest).entries(),
                    tables.remove(index),
                )
                &&& deeds matches Ok(deeds) && files::deed_views(deeds@) == files::above(
                    path@,
                    true,
                ).push((StepView::Write(path@, final(manifest).rendering()), true))
                &&& old(manifest).legible() && toml::all_tables_plain(tables) ==> declares(
                    final(manifest).rendering(),
                    tables.remove(index),
                )
            } else {
                &&& *final(manifest) == *old(manifest)
                &&& deeds matches Err(ending) && ending@ == (
                    seq![error_line(name@ + " disappeared from the manifest while removing it"@)],
                    true,
                )
            }
        }),
{
    match repo::remove_manifest_entry(manifest, found.effective_name().as_str()) {
        Some(content) => Ok(files::save_file(path, content)),
        None => Err(vanished_ending(name)),
    }
}

/// Whether the lock has something under a name.
pub open spec fn is_locked(entries: Entries, name: Seq<char>) -> bool {
    lock::repo_entries(entries) matches Some(repos) && toml::slot(repos, name) < repos.len()
}

/// Drops what the lock has of an entry, and saves the lock if that changed it.
pub fn drop_lock(lock: &mut RepoLock, found: &RepoEntry) -> (deeds: Vec<Deed>)
    requires
        old(lock).unwritten() ==> lock::recordable(old(lock).entries()),
    ensures
        forall|name: Seq<char>| #[trigger]
            lock::recorded(final(lock).entries(), name) == (if name == name_of(*found) {
                None
            } else {
                lock::recorded(old(lock).entries(), name)
            }),
        !old(lock).unwritten() ==> final(lock).entries() == lock::without_name(
            old(lock).entries(),
            name_of(*found),
        ),
        files::deed_views(deeds@) == (if old(lock).dirty() || is_locked(
            old(lock).entries(),
            name_of(*found),
        ) {
            seq![(StepView::Write(old(lock).file(), final(lock).rendering()), true)]
        } else {
            Seq::<(StepView, bool)>::empty()
        }),
        final(lock).file() == old(lock).file(),
        !final(lock).dirty(),
        old(lock).legible() ==> final(lock).legible(),
        old(lock).legible() && deeds@.len() > 0 ==> lock::keeps(
            final(lock).rendering(),
            final(lock).entries(),
        ),
{
    let ghost before = lock.entries();
    let name = found.effective_name();
    lock.remove(name.as_str());
    proof {
        lock::dropped_entry_is_gone(before, name@);
    }
    let deeds = lock::save_if_changed(lock);
    assert(files::deed_views(deeds@).len() == deeds@.len());
    deeds
}

/// How `remove` ends once the entry is out of the manifest and of the lock.
pub open spec fn removal(entry: RepoEntry, failure: Option<Seq<char>>) -> (Seq<LineView>, bool) {
    match failure {
        Some(message) => (seq![error_line("lock: "@ + message)], true),
        None => (
            seq![
                (
                    false,
                    "removed "@ + name_of(entry) + "; directory left at "@ + target_of(entry)
                        + " (delete it manually if desired)"@,
                ),
            ],
            false,
        ),
    }
}

/// Ends `remove` once the entry is out of the manifest and of the lock.
pub fn removed_ending(entry: &RepoEntry, failure: &Option<String>) -> (ending: Ending)
    ensures
        ending@ == removal(*entry, repo::materialize::maybe(*failure)),
{
    match failure {
        Some(message) => end_with(
            error("lock: ".to_owned().concat(message.as_str()).as_str()),
            true,
        ),
        None => end_with(
            said(
                "removed ".to_owned().concat(entry.effective_name().as_str()).concat(
                    "; directory left at ",
                ).concat(entry.effective_target().as_str()).concat(
                    " (delete it manually if desired)",
                ),
            ),
            false,
        ),
    }
}

/// What is said of all entries: each with its state.
pub open spec fn list_lines(
    entries: Seq<RepoEntry>,
    locked: Entries,
    sights: Seq<RepoSight>,
) -> Seq<LineView> {
    if entries.len() == 0 {
        seq![(false, "no [[repo]] entries"@)]
    } else {
        Seq::new(
            entries.len(),
            |i: int|
                (
                    false,
                    summary_of(entries[i]) + ": "@ + health_text(
                        health_of(
                            entries[i],
                            lock::recorded(locked, name_of(entries[i])),
                            sights[i],
                        ),
                    ),
                ),
        )
    }
}

/// Lists all entries, each with its state, going by what was seen of it.
pub fn list(entries: &Vec<RepoEntry>, lock: &RepoLock, sights: &Vec<RepoSight>) -> (ending: Ending)
    requires
        sights@.len() == entries@.len(),
    ensures
        ending@ == (list_lines(entries@, lock.entries(), sights@), false),
{
    if entries.len() == 0 {
        return end_with(said("no [[repo]] entries".to_owned()), false);
    }
    let mut lines = no_lines();
    let ghost all = list_lines(entries@, lock.entries(), sights@);
    let mut i: usize = 0;
    assert(all.take(0) =~= Seq::<LineView>::empty());
    while i < entries.len()
        invariant
            i <= entries.len(),
            entries@.len() > 0,
            sights@.len() == entries@.len(),
            all == list_lines(entries@, lock.entries(), sights@),
            line_views(lines@) == all.take(i as int),
        decreases entries.len() - i,
    {
        let status = repo::doctor_one(&entries[i], lock, &sights[i]);
        put_line(
            &mut lines,
            said(
                repo::entry_summary(&entries[i]).concat(": ").concat(status.message().as_str()),
            ),
        );
        assert(all.take(i + 1) =~= all.take(i as int).push(all[i as int]));
        i = i + 1;
    }
    assert(all.take(i as int) =~= all);
    Ending { lines, failed: false }
}

// ---------------------------------------------------------------------------
// Laws
// ---------------------------------------------------------------------------

/// **Adding is all or nothing.** The manifest is written only once the sub-repo
/// is there, the lock only once the manifest is written; in every other case
/// what was put at the target is taken back, and the user is told that nothing
/// was written.
pub proof fn adding_is_all_or_nothing(
    entry: RepoEntry,
    outcome: Result<ApplyStatus, RepoError>,
    manifest: Seq<u8>,
    status: ApplyStatus,
    failure: Option<Seq<char>>,
)
    ensures
        after_materializing(entry, outcome).1 == AddNext::WriteManifest <==> outcome is Ok,
        after_materializing(entry, outcome).1 == AddNext::TakeBack <==> outcome is Err,
        after_materializing(entry, outcome).1 == AddNext::TakeBack ==> after_materializing(
            entry,
            outcome,
        ).0.last() == (true, "nothing written"@),
        after_manifest(entry, manifest, status, failure).1 == AddNext::WriteLock <==> failure
            is None,
        after_manifest(entry, manifest, status, failure).1 == AddNext::TakeBack <==> failure
            is Some,
        after_manifest(entry, manifest, status, failure).1 == AddNext::TakeBack ==> after_manifest(
            entry,
            manifest,
            status,
            failure,
        ).0.last() == (true, "nothing written"@),
{
}

/// **An entry that was added is found by its name**, unless the target of an
/// earlier one is that name.
pub proof fn added_entries_are_found(entries: Seq<RepoEntry>, entry: RepoEntry)
    requires
        repo::entry::apart(entries.push(entry)),
        forall|i: int|
            0 <= i < entries.len() ==> target_of(#[trigger] entries[i]) != name_of(entry),
    ensures
        picked(entries.push(entry), name_of(entry)) == Ok::<RepoEntry, LineView>(entry),
{
    let all = entries.push(entry);
    lemma_index_of(all, name_of(entry));
    let index = index_of(all, name_of(entry));
    assert(answers_to(all[entries.len() as int], name_of(entry)));
    if index < entries.len() {
        assert(name_of(all[index]) != name_of(all[entries.len() as int]));
        assert(target_of(entries[index]) != name_of(entry));
    }
}

/// **Removing takes out the entry that was asked for, and no other.** Where the
/// tables of the manifest declare the entries, and the effective name of the one
/// that was picked picks it too, its table leaves, and the others declare what
/// they declared; every other key of the manifest stays.
pub proof fn the_picked_entry_is_removed(
    manifest: Entries,
    entries: Seq<RepoEntry>,
    name: Seq<char>,
    key: Seq<char>,
)
    requires
        manifest_tables(manifest) is Some,
        entries_of(stack::as_value(Node::Sections(manifest_tables(manifest)->0))) == Some(
            entry_views(entries),
        ),
        picked(entries, name) is Ok,
        index_of(entries, name_of(picked(entries, name)->Ok_0)) == index_of(entries, name),
        key != "repo"@,
    ensures
        ({
            let tables = manifest_tables(manifest)->0;
            let found = picked(entries, name)->Ok_0;
            let index = table_index(tables, name_of(found));
            let after = with_tables(manifest, tables.remove(index));
            &&& index == index_of(entries, name) && index < tables.len()
            &&& entries[index] == found
            &&& manifest_tables(after) == Some(tables.remove(index))
            &&& entries_of(stack::as_value(Node::Sections(tables.remove(index)))) == Some(
                entry_views(entries.remove(index)),
            )
            &&& toml::lookup(after, key) == toml::lookup(manifest, key)
        }),
{
    let tables = manifest_tables(manifest)->0;
    let found = picked(entries, name)->Ok_0;
    let wanted = name_of(found);
    let at = index_of(entries, name);
    let index = table_index(tables, wanted);
    lemma_declared_entries(tables, entries);
    lemma_index_of(entries, name);
    lemma_index_of(entries, wanted);
    lemma_table_index(tables, wanted);
    assert forall|i: int| 0 <= i < tables.len() implies goes_by(#[trigger] tables[i], wanted)
        == answers_to(entries[i], wanted) by {
        lemma_declared_by(tables[i], entries[i]);
    }
    if index < at {
        assert(goes_by(tables[index], wanted));
        assert(!answers_to(entries[index], wanted));
    } else if at < index {
        assert(answers_to(entries[at], wanted));
        assert(!goes_by(tables[at], wanted));
    }
    removed_tables_are_not_loaded(tables, entries, index);
    other_keys_are_left_alone(manifest, tables.remove(index), key);
}

/// **A repository is picked by its name or its target**, the first in the manifest
/// that has it; a word that is neither is refused.
pub proof fn entries_are_picked_by_name_or_target(entries: Seq<RepoEntry>, name: Seq<char>)
    ensures
        picked(entries, name) is Err <==> forall|i: int|
            0 <= i < entries.len() ==> name_of(#[trigger] entries[i]) != name && target_of(
                entries[i],
            ) != name,
        picked(entries, name) matches Ok(entry) ==> exists|i: int|
            0 <= i < entries.len() && #[trigger] entries[i] == entry && (name_of(entry) == name
                || target_of(entry) == name) && forall|j: int|
                0 <= j < i ==> name_of(#[trigger] entries[j]) != name && target_of(entries[j])
                    != name,
        picked(entries, name) matches Err(line) ==> line.0,
{
    lemma_index_of(entries, name);
    let at = index_of(entries, name);
    if at < entries.len() {
        assert(answers_to(entries[at], name));
        assert forall|j: int| 0 <= j < at implies name_of(#[trigger] entries[j]) != name && target_of(
            entries[j],
        ) != name by {
            assert(!answers_to(entries[j], name));
        }
    } else {
        assert forall|i: int| 0 <= i < entries.len() implies name_of(#[trigger] entries[i]) != name
            && target_of(entries[i]) != name by {
            assert(!answers_to(entries[i], name));
        }
    }
}

/// **A selection has one repository for each word, in the order of the words**, and
/// all of them without a word; one unknown word refuses it all.
pub proof fn selections_follow_the_words(
    entries: Seq<RepoEntry>,
    names: Seq<Seq<char>>,
    i: int,
)
    requires
        entries.len() > 0,
    ensures
        names.len() == 0 ==> selected(entries, names) == Ok::<Seq<RepoEntry>, LineView>(entries),
        names.len() > 0 && 0 <= i < names.len() ==> {
            &&& selected(entries, names) is Ok ==> selected(entries, names)->Ok_0.len()
                == names.len() && picked(entries, names[i]) == Ok::<RepoEntry, LineView>(
                selected(entries, names)->Ok_0[i],
            )
            &&& picked(entries, names[i]) is Err ==> selected(entries, names) is Err
        },
        (forall|k: int| 0 <= k < names.len() ==> picked(entries, #[trigger] names[k]) is Ok)
            ==> selected(entries, names) is Ok,
        selected(Seq::empty(), names) is Err,
{
    if names.len() > 0 {
        lemma_all_picked(entries, names);
    }
}

proof fn lemma_all_picked(entries: Seq<RepoEntry>, names: Seq<Seq<char>>)
    ensures
        all_picked(entries, names) matches Ok(list) ==> list.len() == names.len() && forall|i: int|
            0 <= i < names.len() ==> picked(entries, #[trigger] names[i]) == Ok::<
                RepoEntry,
                LineView,
            >(list[i]),
        all_picked(entries, names) is Err ==> exists|i: int|
            0 <= i < names.len() && picked(entries, #[trigger] names[i]) is Err,
    decreases names.len(),
{
    if names.len() > 0 {
        let less = names.drop_last();
        lemma_all_picked(entries, less);
        assert(names[names.len() - 1] == names.last());
        assert(forall|i: int| 0 <= i < less.len() ==> #[trigger] less[i] == names[i]);
        match all_picked(entries, less) {
            Ok(list) => {
                assert forall|i: int| 0 <= i < less.len() implies picked(entries, #[trigger] names[i])
                    == Ok::<RepoEntry, LineView>(list[i]) by {
                    assert(less[i] == names[i]);
                }
            },
            Err(_) => {
                let i = choose|i: int|
                    0 <= i < less.len() && picked(entries, #[trigger] less[i]) is Err;
                assert(picked(entries, names[i]) is Err);
            },
        }
    }
}

/// **Who holds a name or a target is the first that has it.**
pub proof fn holders_have_what_is_looked_for(
    entries: Seq<RepoEntry>,
    by_name: bool,
    value: Seq<char>,
)
    ensures
        holder(entries, by_name, value) matches Some(entry) ==> entries.contains(entry) && (
        by_name ==> name_of(entry) == value) && (!by_name ==> target_of(entry) == value),
        holder(entries, by_name, value) is None ==> forall|i: int|
            0 <= i < entries.len() ==> (by_name ==> name_of(#[trigger] entries[i]) != value) && (
            !by_name ==> target_of(entries[i]) != value),
    decreases entries.len(),
{
    if entries.len() > 0 {
        let rest = entries.skip(1);
        holders_have_what_is_looked_for(rest, by_name, value);
        assert(forall|i: int| 0 <= i < rest.len() ==> #[trigger] rest[i] == entries[i + 1]);
        match holder(rest, by_name, value) {
            Some(entry) => {
                if rest.contains(entry) {
                    let i = choose|i: int| 0 <= i < rest.len() && rest[i] == entry;
                    assert(entries[i + 1] == entry);
                }
            },
            None => {
                assert forall|i: int| 1 <= i < entries.len() implies (by_name ==> name_of(
                    #[trigger] entries[i],
                ) != value) && (!by_name ==> target_of(entries[i]) != value) by {
                    assert(rest[i - 1] == entries[i]);
                }
            },
        }
        assert(entries.contains(entries[0]));
    }
}

/// **Every repository is listed once, in order, with its health.**
pub proof fn every_entry_is_listed(
    entries: Seq<RepoEntry>,
    locked: Entries,
    sights: Seq<RepoSight>,
    i: int,
)
    ensures
        entries.len() > 0 ==> list_lines(entries, locked, sights).len() == entries.len(),
        0 <= i < entries.len() ==> list_lines(entries, locked, sights)[i] == (
            false,
            summary_of(entries[i]) + ": "@ + health_text(
                health_of(
                    entries[i],
                    lock::recorded(locked, name_of(entries[i])),
                    sights[i],
                ),
            ),
        ),
        list_lines(Seq::empty(), locked, sights).len() == 1,
{
}

/// **A removal leaves the directory and says where it is**; only a lock that cannot
/// be written makes it fail.
pub proof fn removals_leave_the_directory(entry: RepoEntry, failure: Option<Seq<char>>)
    ensures
        removal(entry, failure).1 == failure is Some,
        removal(entry, failure).0.len() == 1,
        removal(entry, failure).0[0].0 == failure is Some,
        failure matches Some(message) ==> removal(entry, failure).0[0].1 == "error: "@ + ("lock: "@
            + message),
        failure is None ==> text::holds(removal(entry, failure).0[0].1, name_of(entry))
            && text::holds(removal(entry, failure).0[0].1, target_of(entry)),
{
    if failure is None {
        let line = removal(entry, failure).0[0].1;
        let rest = "; directory left at "@ + target_of(entry)
            + " (delete it manually if desired)"@;
        text::lemma_holds_middle("removed "@, name_of(entry), rest);
        assert(line =~= "removed "@ + name_of(entry) + rest);
        let front = "removed "@ + name_of(entry) + "; directory left at "@;
        text::lemma_holds_middle(front, target_of(entry), " (delete it manually if desired)"@);
        assert(line =~= front + target_of(entry) + " (delete it manually if desired)"@);
    }
}

/// **An addition that clashes is refused with what is there already**, and with the
/// command that removes it.
pub proof fn clashing_additions_name_what_is_there(entries: Seq<RepoEntry>, entry: RepoEntry)
    requires
        duplicate_of(entries.push(entry)) is Some,
    ensures
        ({
            let (kind, value) = duplicate_of(entries.push(entry))->0;
            let lines = clash_lines(entries, entry);
            &&& forall|i: int| 0 <= i < lines.len() ==> (#[trigger] lines[i]).0
            &&& lines[0].1 == "error: "@ + ("duplicate repo "@ + kind + ": "@ + value)
            &&& holder(entries, kind == "name"@, value) matches Some(there) ==> lines.len() == 3
                && lines[1].1 == "existing entry: "@ + summary_of(there) && lines[2].1
                == "remove it with: jjn repo remove "@ + name_of(there)
            &&& holder(entries, kind == "name"@, value) is None ==> lines.len() == 1
        }),
{
}

/// **A word that names no repository is refused with the names that there are.**
pub proof fn unknown_words_are_refused_with_the_names(entries: Seq<RepoEntry>, name: Seq<char>)
    ensures
        picked(entries, name) is Err ==> picked(entries, name)->Err_0 == (
            true,
            "error: "@ + ("no [[repo]] entry named "@ + name + "; known: "@ + text::joined(
                names_of(entries),
                ", "@,
            )),
        ),
        names_of(entries).len() == entries.len(),
        forall|i: int| 0 <= i < entries.len() ==> #[trigger] names_of(entries)[i] == name_of(entries[i]),
        selected(Seq::empty(), Seq::empty())->Err_0 == (true, "error: "@ + "no [[repo]] entries"@),
{
}

} // verus!
