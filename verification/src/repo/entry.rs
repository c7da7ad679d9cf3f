//! `[[repo]]` entries: their names and targets, and what can go wrong.

use vstd::prelude::*;

use crate::lock;
use crate::lock::LockError;
use crate::path::FsPath;
use crate::text;

verus! {

/// One `[[repo]]` entry. `name` defaults to the url basename minus `.git`;
/// `target` defaults to `name` and is relative to the workspace root; `rev`
/// defaults to floating (follows the remote's default branch).
#[derive(Debug, PartialEq, Eq)]
pub struct RepoEntry {
    /// Explicit entry name; defaults to the url basename.
    pub name: Option<String>,
    /// Clone url.
    pub url: String,
    /// Materialization path, relative to the workspace root.
    pub target: Option<String>,
    /// Branch, tag, or full commit id; absent = follow the default branch.
    pub rev: Option<String>,
}

impl Clone for RepoEntry {
    fn clone(&self) -> (copy: RepoEntry)
        ensures
            copy == *self,
    {
        RepoEntry {
            name: text::copied(&self.name),
            url: self.url.clone(),
            target: text::copied(&self.target),
            rev: text::copied(&self.rev),
        }
    }
}

/// `text` without the slashes at its end.
pub open spec fn without_slashes(text: Seq<char>) -> Seq<char>
    decreases text.len(),
{
    if text.len() > 0 && text.last() == '/' {
        without_slashes(text.drop_last())
    } else {
        text
    }
}

/// What follows the last slash of `text`, or all of it without one.
pub open spec fn last_segment(text: Seq<char>) -> Seq<char>
    decreases text.len(),
{
    if text.len() == 0 || text.last() == '/' {
        Seq::empty()
    } else {
        last_segment(text.drop_last()).push(text.last())
    }
}

/// `text` without any `.git` at its end.
pub open spec fn without_git(text: Seq<char>) -> Seq<char>
    decreases text.len(),
{
    if text.len() >= 4 && text.skip(text.len() - 4) == seq!['.', 'g', 'i', 't'] {
        without_git(text.take(text.len() - 4))
    } else {
        text
    }
}

/// The name that a url gives: its last segment, minus `.git`.
pub open spec fn url_name(url: Seq<char>) -> Seq<char> {
    without_git(last_segment(without_slashes(url)))
}

/// The name under which an entry is locked.
pub open spec fn name_of(entry: RepoEntry) -> Seq<char> {
    match entry.name {
        Some(name) => name@,
        None => url_name(entry.url@),
    }
}

/// Where an entry materializes, relative to the workspace root.
pub open spec fn target_of(entry: RepoEntry) -> Seq<char> {
    match entry.target {
        Some(target) => target@,
        None => name_of(entry),
    }
}

/// Where the slashes at the end begin.
fn slashes_from(chars: &Vec<char>) -> (end: usize)
    ensures
        end <= chars@.len(),
        chars@.take(end as int) == without_slashes(chars@),
{
    let mut end: usize = chars.len();
    assert(chars@.take(end as int) =~= chars@);
    while end > 0 && chars[end - 1] == '/'
        invariant
            end <= chars.len(),
            without_slashes(chars@.take(end as int)) == without_slashes(chars@),
        decreases end,
    {
        assert(chars@.take(end as int).drop_last() =~= chars@.take(end - 1));
        end = end - 1;
    }
    end
}

/// Where the last segment before `end` begins.
fn segment_from(chars: &Vec<char>, end: usize) -> (start: usize)
    requires
        end <= chars@.len(),
    ensures
        start <= end,
        chars@.subrange(start as int, end as int) == last_segment(chars@.take(end as int)),
{
    let ghost all = last_segment(chars@.take(end as int));
    let mut start: usize = end;
    assert(all =~= all + chars@.subrange(end as int, end as int));
    while start > 0 && chars[start - 1] != '/'
        invariant
            start <= end <= chars.len(),
            all == last_segment(chars@.take(start as int)) + chars@.subrange(
                start as int,
                end as int,
            ),
        decreases start,
    {
        let ghost piece = chars@.take(start as int);
        assert(piece.drop_last() =~= chars@.take(start - 1));
        assert(last_segment(piece) + chars@.subrange(start as int, end as int) =~= last_segment(
            chars@.take(start - 1),
        ) + chars@.subrange(start - 1, end as int));
        start = start - 1;
    }
    assert(last_segment(chars@.take(start as int)) =~= Seq::<char>::empty());
    assert(all =~= chars@.subrange(start as int, end as int));
    start
}

/// Where the `.git`s before `end` begin, from `start` on.
fn git_from(chars: &Vec<char>, start: usize, end: usize) -> (cut: usize)
    requires
        start <= end <= chars@.len(),
    ensures
        start <= cut <= end,
        chars@.subrange(start as int, cut as int) == without_git(
            chars@.subrange(start as int, end as int),
        ),
{
    let ghost all = without_git(chars@.subrange(start as int, end as int));
    let mut cut: usize = end;
    while cut - start >= 4 && chars[cut - 4] == '.' && chars[cut - 3] == 'g' && chars[cut - 2]
        == 'i' && chars[cut - 1] == 't'
        invariant
            start <= cut <= end <= chars.len(),
            without_git(chars@.subrange(start as int, cut as int)) == all,
        decreases cut,
    {
        let ghost piece = chars@.subrange(start as int, cut as int);
        assert(piece.skip(piece.len() - 4) =~= seq!['.', 'g', 'i', 't']);
        assert(piece.take(piece.len() - 4) =~= chars@.subrange(start as int, cut - 4));
        cut = cut - 4;
    }
    proof {
        let piece = chars@.subrange(start as int, cut as int);
        if piece.len() >= 4 {
            let tail = piece.skip(piece.len() - 4);
            if tail == seq!['.', 'g', 'i', 't'] {
                assert(tail[0] == chars@[cut - 4]);
                assert(tail[1] == chars@[cut - 3]);
                assert(tail[2] == chars@[cut - 2]);
                assert(tail[3] == chars@[cut - 1]);
            }
        }
    }
    cut
}

/// Derives an entry name from a url: last path segment, minus `.git`.
pub fn default_name(url: &str) -> (name: String)
    ensures
        name@ == url_name(url@),
{
    let chars = text::chars_of(url);
    let end: usize = slashes_from(&chars);
    let start: usize = segment_from(&chars, end);
    let cut: usize = git_from(&chars, start, end);
    text::cut(&chars, start, cut)
}

impl RepoEntry {
    /// The entry name used as the lock key.
    pub fn effective_name(&self) -> (name: String)
        ensures
            name@ == name_of(*self),
    {
        match &self.name {
            Some(name) => name.clone(),
            None => default_name(self.url.as_str()),
        }
    }

    /// The path the repo materializes at, relative to the workspace root.
    pub fn effective_target(&self) -> (target: String)
        ensures
            target@ == target_of(*self),
    {
        match &self.target {
            Some(target) => target.clone(),
            None => self.effective_name(),
        }
    }
}

/// A copy of a list of entries.
pub fn copied_entries(entries: &[RepoEntry]) -> (copy: Vec<RepoEntry>)
    ensures
        copy@ == entries@,
{
    let mut copy: Vec<RepoEntry> = Vec::new();
    let mut i: usize = 0;
    while i < entries.len()
        invariant
            i <= entries.len(),
            copy@ == entries@.take(i as int),
        decreases entries.len() - i,
    {
        copy.push(entries[i].clone());
        i = i + 1;
    }
    copy
}

/// Whether an entry before `i` has the name of entry `i`.
pub open spec fn name_taken(entries: Seq<RepoEntry>, i: int) -> bool {
    exists|j: int| 0 <= j < i && name_of(#[trigger] entries[j]) == name_of(entries[i])
}

/// Whether an entry before `i` has the target of entry `i`.
pub open spec fn target_taken(entries: Seq<RepoEntry>, i: int) -> bool {
    exists|j: int| 0 <= j < i && target_of(#[trigger] entries[j]) == target_of(entries[i])
}

/// Whether entry `i` clashes with an earlier one.
pub open spec fn clashes(entries: Seq<RepoEntry>, i: int) -> bool {
    name_taken(entries, i) || target_taken(entries, i)
}

/// Whether no two entries share a name or a target.
pub open spec fn apart(entries: Seq<RepoEntry>) -> bool {
    forall|i: int, j: int|
        0 <= i < j < entries.len() ==> name_of(#[trigger] entries[i]) != name_of(
            #[trigger] entries[j],
        ) && target_of(entries[i]) != target_of(entries[j])
}

/// The index of the first entry from `from` on that clashes with an earlier
/// one, or the number of entries.
pub open spec fn first_clash(entries: Seq<RepoEntry>, from: int) -> int
    decreases entries.len() - from,
{
    if from < 0 || from >= entries.len() || clashes(entries, from) {
        from
    } else {
        first_clash(entries, from + 1)
    }
}

/// What occurs twice: the kind and the value.
pub open spec fn duplicate_of(entries: Seq<RepoEntry>) -> Option<(Seq<char>, Seq<char>)> {
    let i = first_clash(entries, 0);
    if 0 <= i < entries.len() {
        if name_taken(entries, i) {
            Some(("name"@, name_of(entries[i])))
        } else {
            Some(("target"@, target_of(entries[i])))
        }
    } else {
        None
    }
}

/// Rejects duplicate entry names or targets: the first entry that clashes
/// with an earlier one is reported, by its name if that is taken.
pub fn validate(entries: &[RepoEntry]) -> (verdict: Result<(), RepoError>)
    ensures
        verdict is Ok == apart(entries@),
        verdict is Ok == duplicate_of(entries@) is None,
        match verdict {
            Ok(_) => true,
            Err(err) => err matches RepoError::Duplicate { kind, value } && duplicate_of(entries@)
                == Some((kind@, value@)),
        },
{
    let mut names: Vec<String> = Vec::new();
    let mut targets: Vec<String> = Vec::new();
    let mut i: usize = 0;
    while i < entries.len()
        invariant
            i <= entries.len(),
            names.len() == i,
            targets.len() == i,
            forall|j: int| 0 <= j < i ==> #[trigger] names@[j]@ == name_of(entries@[j]),
            forall|j: int| 0 <= j < i ==> #[trigger] targets@[j]@ == target_of(entries@[j]),
            forall|j: int| 0 <= j < i ==> !#[trigger] clashes(entries@, j),
            first_clash(entries@, 0) == first_clash(entries@, i as int),
        decreases entries.len() - i,
    {
        let name = entries[i].effective_name();
        if text::contains_text(&names, name.as_str()) {
            proof {
                let j = choose|j: int| 0 <= j < names.len() && #[trigger] names@[j]@ == name@;
                assert(name_of(entries@[j]) == name_of(entries@[i as int]));
                assert(clashes(entries@, i as int));
                assert(!apart(entries@));
            }
            return Err(RepoError::Duplicate { kind: "name", value: name });
        }
        let target = entries[i].effective_target();
        assert(!name_taken(entries@, i as int)) by {
            if name_taken(entries@, i as int) {
                let j = choose|j: int|
                    0 <= j < i && name_of(#[trigger] entries@[j]) == name_of(entries@[i as int]);
                assert(names@[j]@ == name@);
            }
        }
        if text::contains_text(&targets, target.as_str()) {
            proof {
                let j = choose|j: int| 0 <= j < targets.len() && #[trigger] targets@[j]@ == target@;
                assert(target_of(entries@[j]) == target_of(entries@[i as int]));
                assert(clashes(entries@, i as int));
                assert(!apart(entries@));
            }
            return Err(RepoError::Duplicate { kind: "target", value: target });
        }
        assert(!target_taken(entries@, i as int)) by {
            if target_taken(entries@, i as int) {
                let j = choose|j: int|
                    0 <= j < i && target_of(#[trigger] entries@[j]) == target_of(entries@[i as int]);
                assert(targets@[j]@ == target@);
            }
        }
        assert(!clashes(entries@, i as int));
        names.push(name);
        targets.push(target);
        i = i + 1;
    }
    assert forall|a: int, b: int| 0 <= a < b < entries@.len() implies name_of(
        #[trigger] entries@[a],
    ) != name_of(#[trigger] entries@[b]) && target_of(entries@[a]) != target_of(entries@[b]) by {
        assert(!clashes(entries@, b));
    }
    Ok(())
}

/// Outcome of materializing one entry.
#[derive(Debug, PartialEq, Eq)]
pub enum ApplyStatus {
    /// The repo was cloned and checked out at the commit.
    Cloned(String),
    /// An existing repo was moved to the commit.
    CheckedOut(String),
    /// The repo is already at the commit; nothing was done.
    AlreadyAt(String),
    /// The repo is dirty, so the checkout was skipped (readonly contract).
    SkippedDirty {
        /// The commit the repo was to be moved to.
        desired: String,
    },
}

/// How a status describes itself.
pub open spec fn apply_status_text(status: ApplyStatus) -> Seq<char> {
    match status {
        ApplyStatus::Cloned(commit) => "cloned at "@ + commit@,
        ApplyStatus::CheckedOut(commit) => "checked out "@ + commit@,
        ApplyStatus::AlreadyAt(commit) => "already at "@ + commit@,
        ApplyStatus::SkippedDirty { desired } => "skipped: dirty working copy (wanted "@ + desired@
            + ")"@,
    }
}

impl ApplyStatus {
    /// The status as text.
    pub fn message(&self) -> (message: String)
        ensures
            message@ == apply_status_text(*self),
    {
        match self {
            ApplyStatus::Cloned(commit) => "cloned at ".to_owned().concat(commit.as_str()),
            ApplyStatus::CheckedOut(commit) => "checked out ".to_owned().concat(commit.as_str()),
            ApplyStatus::AlreadyAt(commit) => "already at ".to_owned().concat(commit.as_str()),
            ApplyStatus::SkippedDirty { desired } => {
                "skipped: dirty working copy (wanted ".to_owned().concat(desired.as_str()).concat(
                    ")",
                )
            },
        }
    }
}

impl Clone for ApplyStatus {
    fn clone(&self) -> (copy: ApplyStatus)
        ensures
            copy == *self,
    {
        match self {
            ApplyStatus::Cloned(commit) => ApplyStatus::Cloned(commit.clone()),
            ApplyStatus::CheckedOut(commit) => ApplyStatus::CheckedOut(commit.clone()),
            ApplyStatus::AlreadyAt(commit) => ApplyStatus::AlreadyAt(commit.clone()),
            ApplyStatus::SkippedDirty { desired } => ApplyStatus::SkippedDirty {
                desired: desired.clone(),
            },
        }
    }
}

/// Errors while materializing or inspecting one entry.
#[derive(Debug)]
pub enum RepoError {
    /// The target path escapes the workspace root.
    EscapedTarget(String),
    /// The target exists but is not a git repository.
    Occupied(FsPath),
    /// Duplicate entry name or target.
    Duplicate {
        /// `name` or `target`.
        kind: &'static str,
        /// What occurs twice.
        value: String,
    },
    /// A `git` subprocess failed.
    Git {
        /// The step it was run for.
        what: &'static str,
        /// The end of what it complained.
        stderr: String,
    },
    /// A revision could not be resolved, even after fetching.
    Resolve(String),
    /// Lock file error.
    Lock(LockError),
    /// Filesystem error; the message describes it.
    Io(String),
}

/// How an error describes itself.
pub open spec fn repo_error_text(err: RepoError) -> Seq<char> {
    match err {
        RepoError::EscapedTarget(target) => "target escapes workspace root: "@ + target@,
        RepoError::Occupied(path) => "target exists and is not a git repository: "@
            + text::lossy_text(path@)
            + " (target names the repository itself, not its parent; only empty directories are cloned into)"@,
        RepoError::Duplicate { kind, value } => "duplicate repo "@ + kind@ + ": "@ + value@,
        RepoError::Git { what, stderr } => "git "@ + what@ + " failed: "@ + stderr@,
        RepoError::Resolve(message) => message@,
        RepoError::Lock(err) => "lock: "@ + lock::lock_error_text(err),
        RepoError::Io(message) => message@,
    }
}

impl RepoError {
    /// The error as text.
    pub fn message(&self) -> (message: String)
        ensures
            message@ == repo_error_text(*self),
    {
        match self {
            RepoError::EscapedTarget(target) => "target escapes workspace root: ".to_owned().concat(
                target.as_str(),
            ),
            RepoError::Occupied(path) => {
                "target exists and is not a git repository: ".to_owned().concat(
                    path.display().as_str(),
                ).concat(
                    " (target names the repository itself, not its parent; only empty directories are cloned into)",
                )
            },
            RepoError::Duplicate { kind, value } => "duplicate repo ".to_owned().concat(
                kind,
            ).concat(": ").concat(value.as_str()),
            RepoError::Git { what, stderr } => "git ".to_owned().concat(what).concat(
                " failed: ",
            ).concat(stderr.as_str()),
            RepoError::Resolve(message) => message.clone(),
            RepoError::Lock(err) => "lock: ".to_owned().concat(err.message().as_str()),
            RepoError::Io(message) => message.clone(),
        }
    }
}

/// The summary of an entry.
pub open spec fn summary_of(entry: RepoEntry) -> Seq<char> {
    "\""@ + name_of(entry) + "\" url="@ + entry.url@ + " target="@ + target_of(entry) + " rev="@ + (
    match entry.rev {
        Some(rev) => rev@,
        None => "(floating)"@,
    })
}

/// One-line summary of an entry for error messages and listings.
pub fn entry_summary(entry: &RepoEntry) -> (summary: String)
    ensures
        summary@ == summary_of(*entry),
{
    let start = "\"".to_owned().concat(entry.effective_name().as_str()).concat("\" url=").concat(
        entry.url.as_str(),
    ).concat(" target=").concat(entry.effective_target().as_str()).concat(" rev=");
    match &entry.rev {
        Some(rev) => start.concat(rev.as_str()),
        None => start.concat("(floating)"),
    }
}

// ---------------------------------------------------------------------------
// Laws
// ---------------------------------------------------------------------------

proof fn lemma_slashes_end(text: Seq<char>)
    ensures
        ({
            let rest = without_slashes(text);
            &&& rest.len() <= text.len()
            &&& text.take(rest.len() as int) == rest
            &&& forall|i: int| rest.len() <= i < text.len() ==> #[trigger] text[i] == '/'
            &&& rest.len() > 0 ==> rest.last() != '/'
        }),
    decreases text.len(),
{
    if text.len() > 0 && text.last() == '/' {
        let less = text.drop_last();
        lemma_slashes_end(less);
        let rest = without_slashes(less);
        assert(text.take(rest.len() as int) =~= less.take(rest.len() as int));
        assert forall|i: int| rest.len() <= i < text.len() implies #[trigger] text[i] == '/' by {
            if i < less.len() {
                assert(less[i] == text[i]);
            }
        }
    } else {
        assert(text.take(text.len() as int) =~= text);
    }
}

proof fn lemma_segment_ends(text: Seq<char>)
    ensures
        ({
            let segment = last_segment(text);
            let before = text.len() - segment.len();
            &&& segment.len() <= text.len()
            &&& text.skip(before) == segment
            &&& before > 0 ==> text[before - 1] == '/'
            &&& forall|i: int| 0 <= i < segment.len() ==> #[trigger] segment[i] != '/'
        }),
    decreases text.len(),
{
    if text.len() == 0 || text.last() == '/' {
        assert(text.skip(text.len() as int) =~= Seq::<char>::empty());
    } else {
        let less = text.drop_last();
        lemma_segment_ends(less);
        let segment = last_segment(text);
        let before = text.len() - segment.len();
        assert(text.skip(before) =~= segment) by {
            assert forall|i: int| 0 <= i < segment.len() implies text.skip(before)[i] == segment[i] by {
                if i < segment.len() - 1 {
                    assert(less.skip(before)[i] == last_segment(less)[i]);
                }
            }
        }
    }
}

proof fn lemma_git_ends(text: Seq<char>) -> (copies: nat)
    ensures
        ({
            let rest = without_git(text);
            &&& text.len() == rest.len() + 4 * copies
            &&& text.take(rest.len() as int) == rest
            &&& forall|j: int|
                0 <= j < copies ==> #[trigger] text.subrange(
                    rest.len() + 4 * j,
                    rest.len() + 4 * j + 4,
                ) == seq!['.', 'g', 'i', 't']
            &&& !(rest.len() >= 4 && rest[rest.len() - 4] == '.' && rest[rest.len() - 3] == 'g'
                && rest[rest.len() - 2] == 'i' && rest[rest.len() - 1] == 't')
        }),
    decreases text.len(),
{
    if text.len() >= 4 && text.skip(text.len() - 4) == seq!['.', 'g', 'i', 't'] {
        let less = text.take(text.len() - 4);
        let fewer = lemma_git_ends(less);
        let rest = without_git(less);
        assert(text.take(rest.len() as int) =~= less.take(rest.len() as int));
        assert forall|j: int| 0 <= j < fewer + 1 implies #[trigger] text.subrange(
            rest.len() + 4 * j,
            rest.len() + 4 * j + 4,
        ) == seq!['.', 'g', 'i', 't'] by {
            if j < fewer {
                assert(less.subrange(rest.len() + 4 * j, rest.len() + 4 * j + 4) =~= text.subrange(
                    rest.len() + 4 * j,
                    rest.len() + 4 * j + 4,
                ));
            } else {
                assert(text.subrange(rest.len() + 4 * j, rest.len() + 4 * j + 4) =~= text.skip(
                    text.len() - 4,
                ));
            }
        }
        fewer + 1
    } else {
        assert(text.take(text.len() as int) =~= text);
        if text.len() >= 4 && text[text.len() - 4] == '.' && text[text.len() - 3] == 'g'
            && text[text.len() - 2] == 'i' && text[text.len() - 1] == 't' {
            assert(text.skip(text.len() - 4) =~= seq!['.', 'g', 'i', 't']);
        }
        0
    }
}

/// **An entry without a name goes by the end of its url.** The url is something
/// that is empty or ends in a slash, a segment without slashes, and slashes; the
/// name is that segment without any number of `.git` at its end, and does not
/// end in `.git` itself. A segment is only empty where there are slashes alone.
pub proof fn default_names_end_urls(url: Seq<char>) -> (found: (int, int, nat))
    ensures
        ({
            let name = url_name(url);
            let (from, to, copies) = found;
            let segment = url.subrange(from, to);
            &&& 0 <= from <= to <= url.len()
            &&& from > 0 ==> url[from - 1] == '/'
            &&& from > 0 ==> from < to
            &&& forall|i: int| from <= i < to ==> #[trigger] url[i] != '/'
            &&& forall|i: int| to <= i < url.len() ==> #[trigger] url[i] == '/'
            &&& segment.len() == name.len() + 4 * copies
            &&& segment.take(name.len() as int) == name
            &&& forall|j: int|
                0 <= j < copies ==> #[trigger] segment.subrange(
                    name.len() + 4 * j,
                    name.len() + 4 * j + 4,
                ) == seq!['.', 'g', 'i', 't']
            &&& !(name.len() >= 4 && name[name.len() - 4] == '.' && name[name.len() - 3] == 'g'
                && name[name.len() - 2] == 'i' && name[name.len() - 1] == 't')
        }),
{
    let kept = without_slashes(url);
    let segment = last_segment(kept);
    lemma_slashes_end(url);
    lemma_segment_ends(kept);
    let copies = lemma_git_ends(segment);
    let from = kept.len() - segment.len();
    let to = kept.len() as int;
    assert(url.subrange(from, to) =~= kept.skip(from));
    assert forall|i: int| from <= i < to implies #[trigger] url[i] != '/' by {
        assert(segment[i - from] == kept.skip(from)[i - from]);
        assert(kept[i] == url[i]);
    }
    if from > 0 {
        assert(url[from - 1] == kept[from - 1]);
    }
    (from, to, copies)
}

/// **A url whose last segment does not end in `.git` is named by it unchanged.**
pub proof fn other_endings_stay(head: Seq<char>, segment: Seq<char>, slashes: Seq<char>)
    requires
        head.len() == 0 || head.last() == '/',
        segment.len() > 0,
        forall|i: int| 0 <= i < segment.len() ==> #[trigger] segment[i] != '/',
        forall|i: int| 0 <= i < slashes.len() ==> #[trigger] slashes[i] == '/',
        !(segment.len() >= 4 && segment[segment.len() - 4] == '.' && segment[segment.len() - 3]
            == 'g' && segment[segment.len() - 2] == 'i' && segment[segment.len() - 1] == 't'),
    ensures
        url_name(head + segment + slashes) == segment,
{
    let url = head + segment + slashes;
    let (from, to, copies) = default_names_end_urls(url);
    let end = head.len() + segment.len();
    assert(url[end - 1] == segment[segment.len() - 1]);
    if to < end {
        assert(url[end - 1] == '/');
    }
    if to > end {
        assert(url[end as int] == slashes[0]);
        assert(url[to - 1] == slashes[to - 1 - end]);
        assert(from == to || url[to - 1] != '/');
        assert(from > 0 ==> from < to);
    }
    assert(to == end);
    if from < head.len() {
        assert(url[head.len() - 1] == head.last());
    }
    if from > head.len() {
        assert(url[from - 1] == segment[from - 1 - head.len()]);
    }
    let found = url.subrange(from, to);
    assert(found =~= segment);
    if copies > 0 {
        let name = url_name(url);
        let last = copies - 1;
        let tail = segment.subrange(name.len() + 4 * last, name.len() + 4 * last + 4);
        assert(tail == seq!['.', 'g', 'i', 't']);
        assert(tail[0] == segment[segment.len() - 4]);
        assert(tail[1] == segment[segment.len() - 3]);
        assert(tail[2] == segment[segment.len() - 2]);
        assert(tail[3] == segment[segment.len() - 1]);
    }
    assert(segment.take(segment.len() as int) =~= segment);
}

/// **What an entry says of its name and its target goes before the defaults**:
/// the name that its url gives it, and its name.
pub proof fn names_and_targets_have_defaults(entry: RepoEntry)
    ensures
        entry.name matches Some(name) ==> name_of(entry) == name@,
        entry.name is None ==> name_of(entry) == url_name(entry.url@),
        entry.target matches Some(target) ==> target_of(entry) == target@,
        entry.target is None && entry.name is Some ==> target_of(entry) == entry.name->0@,
        entry.target is None && entry.name is None ==> target_of(entry) == url_name(entry.url@),
{
}

/// **Entries are refused exactly where two share a name or a target**, and what
/// is reported is shared by the first entry that repeats something and one
/// before it: its name, or its target where the name is new.
pub proof fn duplicates_are_shared(entries: Seq<RepoEntry>)
    ensures
        duplicate_of(entries) is None <==> forall|i: int, j: int|
            #![trigger entries[i], entries[j]]
            0 <= i < j < entries.len() ==> name_of(entries[i]) != name_of(entries[j])
                && target_of(entries[i]) != target_of(entries[j]),
        duplicate_of(entries) matches Some((kind, value)) ==> exists|i: int, j: int|
            #![trigger entries[i], entries[j]]
            {
                &&& 0 <= i < j < entries.len()
                &&& kind == "name"@ && name_of(entries[i]) == value && name_of(entries[j]) == value
                    || kind == "target"@ && target_of(entries[i]) == value && target_of(entries[j])
                    == value && forall|k: int|
                    0 <= k < j ==> name_of(#[trigger] entries[k]) != name_of(entries[j])
                &&& forall|a: int, b: int|
                    #![trigger entries[a], entries[b]]
                    0 <= a < b < j ==> name_of(entries[a]) != name_of(entries[b]) && target_of(
                        entries[a],
                    ) != target_of(entries[b])
            },
{
    let j = first_clash(entries, 0);
    lemma_first_clash(entries, 0);
    if duplicate_of(entries) is Some {
        assert forall|a: int, b: int|
            #![trigger entries[a], entries[b]]
            0 <= a < b < j implies name_of(entries[a]) != name_of(entries[b]) && target_of(
            entries[a],
        ) != target_of(entries[b]) by {
            assert(!clashes(entries, b));
        }
        if name_taken(entries, j) {
            let i = choose|i: int|
                0 <= i < j && name_of(#[trigger] entries[i]) == name_of(entries[j]);
            assert(0 <= i < j < entries.len());
        } else {
            let i = choose|i: int|
                0 <= i < j && target_of(#[trigger] entries[i]) == target_of(entries[j]);
            assert(0 <= i < j < entries.len());
        }
    } else {
        assert forall|a: int, b: int|
            #![trigger entries[a], entries[b]]
            0 <= a < b < entries.len() implies name_of(entries[a]) != name_of(entries[b])
            && target_of(entries[a]) != target_of(entries[b]) by {
            assert(!clashes(entries, b));
        }
    }
}

proof fn lemma_first_clash(entries: Seq<RepoEntry>, from: int)
    requires
        0 <= from <= entries.len(),
    ensures
        from <= first_clash(entries, from) <= entries.len(),
        first_clash(entries, from) < entries.len() ==> clashes(entries, first_clash(entries, from)),
        forall|k: int| from <= k < first_clash(entries, from) ==> !#[trigger] clashes(entries, k),
    decreases entries.len() - from,
{
    if from < entries.len() && !clashes(entries, from) {
        lemma_first_clash(entries, from + 1);
    }
}

} // verus!
