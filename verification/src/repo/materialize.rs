//! Materializing one entry: a run that asks for one thing at a time.
//!
//! Local state is read by the caller, and everything that moves data — clone,
//! fetch, checkout — is a `git` call that the caller makes. The run decides
//! what is asked next from what came back.

use vstd::prelude::*;
use vstd::utf8::encode_scalar;
use vstd::utf8::encode_utf8;

use super::entry::name_of;
use super::entry::target_of;
use super::entry::ApplyStatus;
use super::entry::RepoEntry;
use super::entry::RepoError;
use crate::files;
use crate::files::Deed;
use crate::files::Step;
use crate::files::StepView;
use crate::lock;
use crate::lock::RepoLock;
use crate::path;
use crate::path::FsPath;
use crate::text;

verus! {

/// What stands at a target that is not a git repository.
#[derive(Debug)]
pub enum Spot {
    /// Nothing.
    Absent,
    /// A directory with nothing in it.
    EmptyDirectory,
    /// A directory with something in it, or one that cannot be listed.
    UsedDirectory,
    /// Something other than a directory.
    Other,
    /// It could not be looked at; the message says why.
    Unreadable(String),
}

/// How a revision is looked for in a repository, without the network.
#[derive(Debug)]
pub enum Lookup {
    /// The object with this full id, peeled to a commit.
    Object(String),
    /// These references, in order of preference, each peeled to a commit.
    References(Vec<String>),
}

/// One call of `git`.
#[derive(Debug)]
pub struct GitCall {
    /// The step it is made for.
    pub what: &'static str,
    /// The directory it is made in.
    pub dir: FsPath,
    /// Its arguments, beginning with the subcommand.
    pub args: Vec<String>,
    /// The label under which its progress is shown, if it is.
    pub label: Option<String>,
}

/// What a run asks for.
#[derive(Debug)]
pub enum RepoAsk {
    /// Whether there is anything at a path; links are not followed.
    Probe(FsPath),
    /// What stands at a path; links are not followed.
    Inspect(FsPath),
    /// A directory, with all the directories above it.
    MakeDirs(FsPath),
    /// A call of `git`.
    Git(GitCall),
    /// The commit that a revision names in a repository.
    Resolve {
        /// The repository.
        target: FsPath,
        /// How to look for it.
        lookup: Lookup,
    },
    /// The commit that HEAD of a repository points at.
    Head(FsPath),
}

/// What came back.
#[derive(Debug)]
pub enum RepoReply {
    /// To [`RepoAsk::Probe`].
    Present(bool),
    /// To [`RepoAsk::Inspect`].
    Spot(Spot),
    /// To [`RepoAsk::MakeDirs`]: the message, if it failed.
    Made(Option<String>),
    /// To [`RepoAsk::Git`]: what it printed, or the end of its complaint.
    Ran(Result<Vec<u8>, String>),
    /// To [`RepoAsk::Resolve`]: the commit behind each place looked at.
    Found(Vec<Option<String>>),
    /// To [`RepoAsk::Head`]: the commit, or `None` for an unborn HEAD.
    At(Option<String>),
}

/// How far a run has come.
#[derive(Debug, Clone, Copy, PartialEq, Eq, Structural)]
pub enum Stage {
    /// Looking for an existing repository.
    Probing,
    /// Looking at what occupies the target.
    Inspecting,
    /// Making the directory above the target.
    MakingParent,
    /// Cloning.
    Cloning,
    /// Fetching, because a refresh was asked for.
    Fetching,
    /// Following the remote's default branch after that fetch.
    SettingHead,
    /// Resolving the revision from what is there.
    Resolving,
    /// Fetching just the revision.
    FetchingRev,
    /// Fetching everything to find the revision.
    FetchingAll,
    /// Following the remote's default branch after that.
    SettingHeadAgain,
    /// Resolving the revision once more.
    ResolvingAgain,
    /// Comparing HEAD with the commit.
    ReadingHead,
    /// Looking for local changes.
    ReadingStatus,
    /// Checking out the commit.
    CheckingOut,
    /// Fetching just the commit.
    FetchingCommit,
    /// Fetching everything to find the commit.
    FetchingForCommit,
    /// Checking out the commit once more.
    CheckingOutAgain,
    /// Nothing is left to ask.
    Done,
}

/// What a run found at its target before it put anything there.
#[derive(Debug, Clone, Copy, PartialEq, Eq, Structural)]
pub enum Ground {
    /// It did not look, or the place was not free.
    Unseen,
    /// Nothing.
    Free,
    /// A directory with nothing in it.
    Empty,
}

// ---------------------------------------------------------------------------
// The model
// ---------------------------------------------------------------------------

/// How a run ended.
pub enum Ending {
    /// It has not.
    Pending,
    /// See [`ApplyStatus::Cloned`].
    Cloned(Seq<char>),
    /// See [`ApplyStatus::CheckedOut`].
    CheckedOut(Seq<char>),
    /// See [`ApplyStatus::AlreadyAt`].
    AlreadyAt(Seq<char>),
    /// See [`ApplyStatus::SkippedDirty`].
    SkippedDirty(Seq<char>),
    /// See [`RepoError::EscapedTarget`].
    Escaped(Seq<char>),
    /// See [`RepoError::Occupied`].
    Occupied(Seq<u8>),
    /// See [`RepoError::Git`].
    Git(Seq<char>, Seq<char>),
    /// See [`RepoError::Resolve`].
    Unresolved(Seq<char>),
    /// See [`RepoError::Io`].
    Io(Seq<char>),
    /// An error that a run never ends with.
    Foreign,
}

/// The ending that an outcome stands for.
pub open spec fn ending_of(outcome: Option<Result<ApplyStatus, RepoError>>) -> Ending {
    match outcome {
        None => Ending::Pending,
        Some(Ok(ApplyStatus::Cloned(commit))) => Ending::Cloned(commit@),
        Some(Ok(ApplyStatus::CheckedOut(commit))) => Ending::CheckedOut(commit@),
        Some(Ok(ApplyStatus::AlreadyAt(commit))) => Ending::AlreadyAt(commit@),
        Some(Ok(ApplyStatus::SkippedDirty { desired })) => Ending::SkippedDirty(desired@),
        Some(Err(RepoError::EscapedTarget(target))) => Ending::Escaped(target@),
        Some(Err(RepoError::Occupied(path))) => Ending::Occupied(path@),
        Some(Err(RepoError::Git { what, stderr })) => Ending::Git(what@, stderr@),
        Some(Err(RepoError::Resolve(message))) => Ending::Unresolved(message@),
        Some(Err(RepoError::Io(message))) => Ending::Io(message@),
        Some(Err(_)) => Ending::Foreign,
    }
}

/// Where a run stands.
pub struct RunState {
    /// The workspace root.
    pub root: Seq<u8>,
    /// The entry.
    pub entry: RepoEntry,
    /// Whether revisions are resolved anew.
    pub refresh: bool,
    /// Whether network calls show their progress.
    pub progress: bool,
    /// How far it has come.
    pub stage: Stage,
    /// Whether the repository was there before.
    pub existed: bool,
    /// What was found at the target where there was no repository.
    pub ground: Ground,
    /// The commit it is to be at, once that is known.
    pub desired: Option<Seq<char>>,
    /// How it ended.
    pub ending: Ending,
}

/// The views of an argument list.
pub enum LookupView {
    /// See [`Lookup::Object`].
    Object(Seq<char>),
    /// See [`Lookup::References`].
    References(Seq<Seq<char>>),
}

/// What a run asks for, by value.
pub enum AskView {
    /// See [`RepoAsk::Probe`].
    Probe(Seq<u8>),
    /// See [`RepoAsk::Inspect`].
    Inspect(Seq<u8>),
    /// See [`RepoAsk::MakeDirs`].
    MakeDirs(Seq<u8>),
    /// See [`RepoAsk::Git`].
    Git {
        /// The step.
        what: Seq<char>,
        /// The directory.
        dir: Seq<u8>,
        /// The arguments.
        args: Seq<Seq<char>>,
        /// The progress label.
        label: Option<Seq<char>>,
    },
    /// See [`RepoAsk::Resolve`].
    Resolve {
        /// The repository.
        target: Seq<u8>,
        /// How to look.
        lookup: LookupView,
    },
    /// See [`RepoAsk::Head`].
    Head(Seq<u8>),
}

/// A [`Lookup`] by value.
pub open spec fn lookup_view(lookup: Lookup) -> LookupView {
    match lookup {
        Lookup::Object(id) => LookupView::Object(id@),
        Lookup::References(names) => LookupView::References(text::views(names@)),
    }
}

/// An optional text by value.
pub open spec fn maybe(text: Option<String>) -> Option<Seq<char>> {
    match text {
        Some(text) => Some(text@),
        None => None,
    }
}

/// A [`RepoAsk`] by value.
pub open spec fn ask_view(ask: RepoAsk) -> AskView {
    match ask {
        RepoAsk::Probe(path) => AskView::Probe(path@),
        RepoAsk::Inspect(path) => AskView::Inspect(path@),
        RepoAsk::MakeDirs(path) => AskView::MakeDirs(path@),
        RepoAsk::Git(call) => AskView::Git {
            what: call.what@,
            dir: call.dir@,
            args: text::views(call.args@),
            label: maybe(call.label),
        },
        RepoAsk::Resolve { target, lookup } => AskView::Resolve {
            target: target@,
            lookup: lookup_view(lookup),
        },
        RepoAsk::Head(path) => AskView::Head(path@),
    }
}

/// A full object id: the hexadecimal digits of a SHA-1 or SHA-256 hash.
pub open spec fn full_id(rev: Seq<char>) -> bool {
    let bytes = encode_utf8(rev);
    (bytes.len() == 40 || bytes.len() == 64) && forall|i: int|
        0 <= i < bytes.len() ==> hex_digit(#[trigger] bytes[i])
}

/// A hexadecimal digit, in either case.
pub open spec fn hex_digit(byte: u8) -> bool {
    48 <= byte <= 57 || 65 <= byte <= 70 || 97 <= byte <= 102
}

/// `gix::ObjectId::from_hex` accepts exactly the full object ids: as many
/// hexadecimal digits, in either case, as a SHA-1 or a SHA-256 hash has.
#[verifier::external_body]
fn parses_as_object_id(bytes: &[u8]) -> (yes: bool)
    ensures
        yes == ((bytes@.len() == 40 || bytes@.len() == 64) && forall|i: int|
            0 <= i < bytes@.len() ==> hex_digit(#[trigger] bytes@[i])),
{
    gix::ObjectId::from_hex(bytes).is_ok()
}

/// Whether `rev` is a full commit id.
pub fn is_object_id(rev: &str) -> (yes: bool)
    ensures
        yes == full_id(rev@),
{
    parses_as_object_id(rev.as_bytes())
}

/// Where a revision is looked for: a full id directly, anything else as a
/// remote branch and after that as a tag; no revision is the remote's default
/// branch.
pub open spec fn places(rev: Option<String>) -> LookupView {
    match rev {
        Some(rev) => if full_id(rev@) {
            LookupView::Object(rev@)
        } else {
            LookupView::References(seq!["refs/remotes/origin/"@ + rev@, "refs/tags/"@ + rev@])
        },
        None => LookupView::References(seq!["refs/remotes/origin/HEAD"@]),
    }
}

/// Where a revision is looked for, without the network: full commit id,
/// remote branch, tag, or the floating `origin/HEAD`.
pub fn resolve_local(rev: &Option<String>) -> (lookup: Lookup)
    ensures
        lookup_view(lookup) == places(*rev),
{
    let mut names: Vec<String> = Vec::new();
    match rev {
        Some(rev) => {
            if is_object_id(rev.as_str()) {
                return Lookup::Object(rev.clone());
            }
            names.push("refs/remotes/origin/".to_owned().concat(rev.as_str()));
            names.push("refs/tags/".to_owned().concat(rev.as_str()));
            assert(text::views(names@) =~= seq![
                "refs/remotes/origin/"@ + rev@,
                "refs/tags/"@ + rev@,
            ]);
        },
        None => {
            names.push("refs/remotes/origin/HEAD".to_owned());
            assert(text::views(names@) =~= seq!["refs/remotes/origin/HEAD"@]);
        },
    }
    Lookup::References(names)
}

/// The first commit that was found.
pub open spec fn first_found(list: Seq<Option<String>>) -> Option<Seq<char>>
    decreases list.len(),
{
    if list.len() == 0 {
        None
    } else {
        match list[0] {
            Some(commit) => Some(commit@),
            None => first_found(list.skip(1)),
        }
    }
}

fn first_commit(list: &Vec<Option<String>>) -> (commit: Option<String>)
    ensures
        maybe(commit) == first_found(list@),
{
    let mut i: usize = 0;
    assert(list@.skip(0) =~= list@);
    while i < list.len()
        invariant
            i <= list.len(),
            first_found(list@) == first_found(list@.skip(i as int)),
        decreases list.len() - i,
    {
        if let Some(commit) = &list[i] {
            return Some(commit.clone());
        }
        assert(list@.skip(i as int).skip(1) =~= list@.skip(i + 1));
        i = i + 1;
    }
    None
}

/// The lines of a text, each without its line end.
pub open spec fn lines(text: Seq<char>) -> Seq<Seq<char>>
    decreases text.len(),
{
    let at = text::find(text, '\n');
    if text.len() == 0 {
        Seq::empty()
    } else if 0 <= at < text.len() {
        seq![without_return(text.take(at))] + lines(text.skip(at + 1))
    } else {
        seq![text]
    }
}

/// A line without a carriage return at its end.
pub open spec fn without_return(line: Seq<char>) -> Seq<char> {
    if line.len() > 0 && line.last() == '\r' {
        line.drop_last()
    } else {
        line
    }
}

/// A line of `git status --porcelain` that reports a change in the working
/// tree: its second column is not blank.
pub open spec fn reports_change(line: Seq<char>) -> bool {
    encode_utf8(line).len() > 1 && encode_utf8(line)[1] != 32
}

/// Whether a status report has a line that reports a change in the working
/// tree. Changes that are only staged do not count.
pub open spec fn dirty_report(output: Seq<u8>) -> bool {
    exists|i: int|
        0 <= i < lines(text::lossy_text(output)).len() && reports_change(
            #[trigger] lines(text::lossy_text(output))[i],
        )
}

fn change_in(line: &str) -> (yes: bool)
    ensures
        yes == reports_change(line@),
{
    let bytes = line.as_bytes();
    bytes.len() > 1 && bytes[1] != 32
}

/// Whether a line with a second byte that is not a space begins at a place in a
/// text: the second byte of a character that takes several is never one.
spec fn change_at(text: Seq<char>, p: int) -> bool {
    &&& 0 <= p < text.len()
    &&& p == 0 || text[p - 1] == '\n'
    &&& text[p] != '\n'
    &&& text[p] as u32 >= 128 || {
        &&& p + 1 < text.len()
        &&& text[p + 1] != '\n'
        &&& text[p + 1] != ' '
        &&& !(text[p + 1] == '\r' && p + 2 < text.len() && text[p + 2] == '\n')
    }
}

/// The bytes of a character: itself, or several that are no ASCII.
proof fn lemma_scalar_bytes(c: char)
    ensures
        (c as u32) < 128 ==> encode_scalar(c as u32).len() == 1 && encode_scalar(c as u32)[0] == c as u32,
        c as u32 >= 128 ==> encode_scalar(c as u32).len() >= 2 && encode_scalar(c as u32)[0] >= 128
            && encode_scalar(c as u32)[1] >= 128,
{
    let n = c as u32;
    assert(forall|x: u8| #[trigger] (0x80u8 | x) >= 0x80) by (bit_vector);
    assert(forall|x: u8| #[trigger] (0xC0u8 | x) >= 0x80) by (bit_vector);
    assert(forall|x: u8| #[trigger] (0xE0u8 | x) >= 0x80) by (bit_vector);
    assert(forall|x: u8| #[trigger] (0xF0u8 | x) >= 0x80) by (bit_vector);
    if n < 128 {
        assert(n & 0x7F == n) by (bit_vector)
            requires
                n < 128,
        ;
        assert(encode_scalar(n) =~= seq![n as u8]);
    }
}

proof fn lemma_blank(c: char)
    ensures
        c as u32 == 32 <==> c == ' ',
{
}

/// When a line reports a change, by its characters.
proof fn lemma_change_by_chars(line: Seq<char>)
    ensures
        reports_change(line) <==> line.len() > 0 && (line[0] as u32 >= 128 || line.len() > 1
            && line[1] != ' '),
{
    if line.len() > 0 {
        let first = encode_scalar(line[0] as u32);
        let rest = line.drop_first();
        lemma_scalar_bytes(line[0]);
        assert(encode_utf8(line) == first + encode_utf8(rest));
        if line[0] as u32 >= 128 {
            assert(encode_utf8(line)[1] == first[1]);
        } else if line.len() > 1 {
            let second = encode_scalar(rest[0] as u32);
            lemma_scalar_bytes(rest[0]);
            assert(encode_utf8(rest) == second + encode_utf8(rest.drop_first()));
            assert(encode_utf8(line)[1] == second[0]);
            assert(rest[0] == line[1]);
            lemma_blank(line[1]);
        } else {
            assert(rest.len() == 0);
            assert(encode_utf8(line).len() == 1);
        }
    } else {
        assert(encode_utf8(line).len() == 0);
    }
}

/// A text has a line that reports a change exactly where one begins in it.
proof fn lemma_change_in_lines(text: Seq<char>)
    ensures
        (exists|i: int| 0 <= i < lines(text).len() && reports_change(#[trigger] lines(text)[i]))
            <==> (exists|p: int| #[trigger] change_at(text, p)),
    decreases text.len(),
{
    let at = text::find(text, '\n');
    text::lemma_find(text, '\n');
    let all = lines(text);
    if text.len() == 0 {
    } else if 0 <= at < text.len() {
        let cut = text.take(at);
        let line = without_return(cut);
        let rest = text.skip(at + 1);
        lemma_change_in_lines(rest);
        lemma_change_by_chars(line);
        assert(all == seq![line] + lines(rest));
        assert(reports_change(line) <==> change_at(text, 0)) by {
            if at > 0 {
                assert(cut[0] == text[0]);
                if at > 1 {
                    assert(cut[1] == text[1]);
                }
            }
        }
        if exists|i: int| 0 <= i < all.len() && reports_change(#[trigger] all[i]) {
            let i = choose|i: int| 0 <= i < all.len() && reports_change(#[trigger] all[i]);
            if i == 0 {
                assert(change_at(text, 0));
            } else {
                assert(lines(rest)[i - 1] == all[i]);
                let p = choose|p: int| #[trigger] change_at(rest, p);
                assert(change_at(text, p + at + 1));
            }
        }
        if exists|p: int| #[trigger] change_at(text, p) {
            let p = choose|p: int| #[trigger] change_at(text, p);
            if p == 0 {
                assert(reports_change(all[0]));
            } else {
                if p <= at {
                    assert(text[p - 1] != '\n');
                }
                assert(change_at(rest, p - at - 1)) by {
                    if p - at - 1 > 0 {
                        assert(rest[p - at - 2] == text[p - 1]);
                    }
                }
                let i = choose|i: int|
                    0 <= i < lines(rest).len() && reports_change(#[trigger] lines(rest)[i]);
                assert(all[i + 1] == lines(rest)[i]);
            }
        }
    } else {
        lemma_change_by_chars(text);
        assert(all == seq![text]);
        assert(reports_change(text) <==> change_at(text, 0));
        if reports_change(text) {
            assert(reports_change(all[0]));
        }
        if exists|p: int| #[trigger] change_at(text, p) {
            let p = choose|p: int| #[trigger] change_at(text, p);
            if p > 0 {
                assert(text[p - 1] != '\n');
            }
        }
    }
}

/// **A working copy is dirty exactly where some line of the status report has a
/// second byte, and that byte is not a space**, whatever letter it is. A line
/// begins with the text or behind a line feed and ends before the next one, and
/// before a carriage return in front of that.
pub proof fn dirty_means_a_mark_in_the_second_column(output: Seq<u8>)
    ensures
        dirty_report(output) <==> exists|p: int|
            {
                &&& 0 <= p < text::lossy_text(output).len()
                &&& p == 0 || text::lossy_text(output)[p - 1] == '\n'
                &&& #[trigger] text::lossy_text(output)[p] != '\n'
                &&& text::lossy_text(output)[p] as u32 >= 128 || {
                    &&& p + 1 < text::lossy_text(output).len()
                    &&& text::lossy_text(output)[p + 1] != '\n'
                    &&& text::lossy_text(output)[p + 1] != ' '
                    &&& !(text::lossy_text(output)[p + 1] == '\r' && p + 2 < text::lossy_text(output).len() && text::lossy_text(output)[p + 2] == '\n')
                }
            },
{
    let text = text::lossy_text(output);
    lemma_change_in_lines(text);
    if exists|p: int| #[trigger] change_at(text, p) {
        let p = choose|p: int| #[trigger] change_at(text, p);
        assert(text[p] != '\n');
    }
    if exists|p: int|
            {
                &&& 0 <= p < text.len()
                &&& p == 0 || text[p - 1] == '\n'
                &&& #[trigger] text[p] != '\n'
                &&& text[p] as u32 >= 128 || {
                    &&& p + 1 < text.len()
                    &&& text[p + 1] != '\n'
                    &&& text[p + 1] != ' '
                    &&& !(text[p + 1] == '\r' && p + 2 < text.len() && text[p + 2] == '\n')
                }
            } {
        let p = choose|p: int|
            {
                &&& 0 <= p < text.len()
                &&& p == 0 || text[p - 1] == '\n'
                &&& #[trigger] text[p] != '\n'
                &&& text[p] as u32 >= 128 || {
                    &&& p + 1 < text.len()
                    &&& text[p + 1] != '\n'
                    &&& text[p + 1] != ' '
                    &&& !(text[p + 1] == '\r' && p + 2 < text.len() && text[p + 2] == '\n')
                }
            };
        assert(change_at(text, p));
    }
}

/// Whether the working tree has worktree-side changes (modifications,
/// untracked files), going by the output of `git status --porcelain`.
/// Staged-only deletions are ignored so an interrupted first materialization
/// (`clone --no-checkout`) can still complete.
pub fn is_dirty(output: &Vec<u8>) -> (dirty: bool)
    ensures
        dirty == dirty_report(output@),
        dirty <==> exists|p: int|
            {
                &&& 0 <= p < text::lossy_text(output@).len()
                &&& p == 0 || text::lossy_text(output@)[p - 1] == '\n'
                &&& #[trigger] text::lossy_text(output@)[p] != '\n'
                &&& text::lossy_text(output@)[p] as u32 >= 128 || {
                    &&& p + 1 < text::lossy_text(output@).len()
                    &&& text::lossy_text(output@)[p + 1] != '\n'
                    &&& text::lossy_text(output@)[p + 1] != ' '
                    &&& !(text::lossy_text(output@)[p + 1] == '\r' && p + 2 < text::lossy_text(output@).len() && text::lossy_text(output@)[p + 2] == '\n')
                }
            },
{
    proof {
        dirty_means_a_mark_in_the_second_column(output@);
    }
    has_change(output)
}

fn has_change(output: &Vec<u8>) -> (dirty: bool)
    ensures
        dirty == dirty_report(output@),
{
    let report = text::from_utf8_lossy(output.as_slice());
    let chars = text::chars_of(report.as_str());
    let ghost all = lines(report@);
    let ghost mut before: int = 0;
    let mut start: usize = 0;
    assert(chars@.skip(0) =~= report@);
    assert(all.skip(0) =~= all);
    while start < chars.len()
        invariant
            start <= chars.len(),
            chars@ == report@,
            report@ == text::lossy_text(output@),
            all == lines(report@),
            0 <= before <= all.len(),
            lines(chars@.skip(start as int)) == all.skip(before),
            forall|i: int| 0 <= i < before ==> !reports_change(#[trigger] all[i]),
        decreases chars.len() - start,
    {
        let ghost left = chars@.skip(start as int);
        assert(chars@.subrange(start as int, chars@.len() as int) =~= left);
        let at = text::seek(&chars, start, chars.len(), '\n');
        proof {
            text::lemma_find(left, '\n');
            assert(lines(left).len() > 0);
            assert(all.skip(before).len() == all.len() - before);
            assert(all.skip(before)[0] == all[before]);
        }
        let mut end: usize = at;
        if at < chars.len() && start < at && chars[at - 1] == '\r' {
            end = at - 1;
        }
        let line = text::cut(&chars, start, end);
        proof {
            if at < chars.len() {
                assert(left.take(at - start) =~= chars@.subrange(start as int, at as int));
                assert(line@ =~= without_return(left.take(at - start)));
            } else {
                assert(line@ =~= left);
            }
            assert(line@ == all[before]);
        }
        if change_in(line.as_str()) {
            assert(reports_change(lines(text::lossy_text(output@))[before]));
            return true;
        }
        proof {
            let rest = all.skip(before);
            if at < chars.len() {
                assert(left.skip(at - start + 1) =~= chars@.skip(at + 1));
                assert(lines(left.skip(at - start + 1)) =~= rest.skip(1));
            } else {
                assert(rest.len() == 1);
            }
            assert(rest.skip(1) =~= all.skip(before + 1));
            before = before + 1;
        }
        if at < chars.len() {
            start = at + 1;
        } else {
            assert(chars@.skip(chars@.len() as int) =~= Seq::<char>::empty());
            start = chars.len();
        }
    }
    assert(chars@.skip(start as int) =~= Seq::<char>::empty());
    assert(all.skip(before).len() == 0);
    false
}

/// What is said of a revision that is not there even after fetching.
pub open spec fn unresolved_text(entry: RepoEntry) -> Seq<char> {
    match entry.rev {
        Some(rev) => "revision "@ + text::debug_text(rev@) + " of "@ + entry.url@
            + " not found after fetch; expected a branch, tag, or full commit id"@,
        None => "no default branch found for "@ + entry.url@,
    }
}

fn unresolved(entry: &RepoEntry) -> (message: String)
    ensures
        message@ == unresolved_text(*entry),
{
    match &entry.rev {
        Some(rev) => "revision ".to_owned().concat(text::quote(rev.as_str()).as_str()).concat(
            " of ",
        ).concat(entry.url.as_str()).concat(
            " not found after fetch; expected a branch, tag, or full commit id",
        ),
        None => "no default branch found for ".to_owned().concat(entry.url.as_str()),
    }
}

/// Where the entry materializes.
pub open spec fn target_path(s: RunState) -> Seq<u8> {
    path::child(s.root, target_of(s.entry))
}

/// The arguments that fetch everything.
pub open spec fn fetch_all_args() -> Seq<Seq<char>> {
    seq!["fetch"@, "--prune"@, "--tags"@, "origin"@]
}

/// The arguments that fetch one revision.
pub open spec fn fetch_one_args(rev: Seq<char>) -> Seq<Seq<char>> {
    seq!["fetch"@, "--no-tags"@, "origin"@, rev]
}

/// The arguments that follow the remote's default branch.
pub open spec fn set_head_args() -> Seq<Seq<char>> {
    seq!["remote"@, "set-head"@, "origin"@, "--auto"@]
}

/// The arguments that check a commit out.
pub open spec fn checkout_args(commit: Seq<char>) -> Seq<Seq<char>> {
    seq!["checkout"@, "--detach"@, "--quiet"@, commit]
}

/// The label of a call, when progress is shown.
pub open spec fn label_if(progress: bool, label: Seq<char>) -> Option<Seq<char>> {
    if progress {
        Some(label)
    } else {
        None
    }
}

/// The commit a run is after; meant for stages that have one.
pub open spec fn goal(s: RunState) -> Seq<char> {
    match s.desired {
        Some(commit) => commit,
        None => Seq::empty(),
    }
}

/// A call of `git` in the repository.
pub open spec fn in_target(
    s: RunState,
    what: Seq<char>,
    args: Seq<Seq<char>>,
    label: Option<Seq<char>>,
) -> Option<AskView> {
    Some(AskView::Git { what, dir: target_path(s), args, label })
}

/// What is asked next.
pub open spec fn asks(s: RunState) -> Option<AskView> {
    let target = target_path(s);
    match s.stage {
        Stage::Probing => Some(AskView::Probe(path::child(target, ".git"@))),
        Stage::Inspecting => Some(AskView::Inspect(target)),
        Stage::MakingParent => Some(
            AskView::MakeDirs(
                match path::parent_of(target) {
                    Some(above) => above,
                    None => target,
                },
            ),
        ),
        Stage::Cloning => Some(
            AskView::Git {
                what: "clone"@,
                dir: s.root,
                args: seq!["clone"@, "--no-checkout"@, s.entry.url@, target_of(s.entry)],
                label: label_if(s.progress, name_of(s.entry)),
            },
        ),
        Stage::Fetching => in_target(
            s,
            "fetch"@,
            fetch_all_args(),
            label_if(s.progress, name_of(s.entry)),
        ),
        Stage::SettingHead => in_target(s, "set-head"@, set_head_args(), None),
        Stage::Resolving => Some(AskView::Resolve { target, lookup: places(s.entry.rev) }),
        Stage::FetchingRev => in_target(
            s,
            "fetch-rev"@,
            fetch_one_args(
                match s.entry.rev {
                    Some(rev) => rev@,
                    None => "HEAD"@,
                },
            ),
            label_if(s.progress, "fetch"@),
        ),
        Stage::FetchingAll => in_target(
            s,
            "fetch"@,
            fetch_all_args(),
            label_if(s.progress, "fetch"@),
        ),
        Stage::SettingHeadAgain => in_target(s, "set-head"@, set_head_args(), None),
        Stage::ResolvingAgain => Some(AskView::Resolve { target, lookup: places(s.entry.rev) }),
        Stage::ReadingHead => Some(AskView::Head(target)),
        Stage::ReadingStatus => in_target(s, "status"@, seq!["status"@, "--porcelain"@], None),
        Stage::CheckingOut => in_target(s, "checkout"@, checkout_args(goal(s)), None),
        Stage::FetchingCommit => in_target(
            s,
            "fetch-sha"@,
            fetch_one_args(goal(s)),
            label_if(s.progress, "fetch"@),
        ),
        Stage::FetchingForCommit => in_target(
            s,
            "fetch"@,
            fetch_all_args(),
            label_if(s.progress, "fetch"@),
        ),
        Stage::CheckingOutAgain => in_target(s, "checkout"@, checkout_args(goal(s)), None),
        Stage::Done => None,
    }
}

/// The run at another stage.
pub open spec fn at(s: RunState, stage: Stage) -> RunState {
    RunState { stage, ..s }
}

/// The run with its ending.
pub open spec fn ended(s: RunState, ending: Ending) -> RunState {
    RunState { stage: Stage::Done, ending, ..s }
}

/// The run once the target was found free.
pub open spec fn on_ground(s: RunState, ground: Ground) -> RunState {
    RunState {
        ground,
        stage: if path::parent_of(target_path(s)) is Some {
            Stage::MakingParent
        } else {
            Stage::Cloning
        },
        ..s
    }
}

/// The run once the commit is known.
pub open spec fn settled(s: RunState, commit: Seq<char>) -> RunState {
    RunState {
        desired: Some(commit),
        stage: if s.existed {
            Stage::ReadingHead
        } else {
            Stage::CheckingOut
        },
        ..s
    }
}

/// The run once the repository is there, and fetched if it was to be: the
/// locked commit is authoritative, unless a refresh was asked for.
pub open spec fn with_objects(s: RunState, locked: Option<Seq<char>>) -> RunState {
    if s.refresh {
        at(s, Stage::Resolving)
    } else {
        match locked {
            Some(commit) => settled(s, commit),
            None => at(s, Stage::Resolving),
        }
    }
}

/// The run once the repository is there.
pub open spec fn with_repository(s: RunState, locked: Option<Seq<char>>) -> RunState {
    if s.refresh {
        at(s, Stage::Fetching)
    } else {
        with_objects(s, locked)
    }
}

/// The run once the commit is checked out.
pub open spec fn checked_out(s: RunState) -> RunState {
    if s.existed {
        ended(s, Ending::CheckedOut(goal(s)))
    } else {
        ended(s, Ending::Cloned(goal(s)))
    }
}

/// The run after a call of `git` that has to succeed.
pub open spec fn after_git(
    s: RunState,
    what: Seq<char>,
    ran: Result<Vec<u8>, String>,
    next: RunState,
) -> RunState {
    match ran {
        Ok(_) => next,
        Err(stderr) => ended(s, Ending::Git(what, stderr@)),
    }
}

/// Where a run stands after a reply, when the lock has `locked` for its entry.
/// A reply to something else leaves it where it was.
pub open spec fn step(s: RunState, reply: RepoReply, locked: Option<Seq<char>>) -> RunState {
    match (s.stage, reply) {
        (Stage::Probing, RepoReply::Present(there)) => {
            let seen = RunState { existed: there, ..s };
            if there {
                with_repository(seen, locked)
            } else {
                at(seen, Stage::Inspecting)
            }
        },
        (Stage::Inspecting, RepoReply::Spot(spot)) => match spot {
            Spot::Absent => on_ground(s, Ground::Free),
            Spot::EmptyDirectory => on_ground(s, Ground::Empty),
            Spot::UsedDirectory | Spot::Other => ended(s, Ending::Occupied(target_path(s))),
            Spot::Unreadable(message) => ended(s, Ending::Io(message@)),
        },
        (Stage::MakingParent, RepoReply::Made(failure)) => match failure {
            Some(message) => ended(s, Ending::Io(message@)),
            None => at(s, Stage::Cloning),
        },
        (Stage::Cloning, RepoReply::Ran(ran)) => after_git(
            s,
            "clone"@,
            ran,
            with_repository(s, locked),
        ),
        (Stage::Fetching, RepoReply::Ran(ran)) => after_git(
            s,
            "fetch"@,
            ran,
            at(s, Stage::SettingHead),
        ),
        (Stage::SettingHead, RepoReply::Ran(_)) => with_objects(s, locked),
        (Stage::Resolving, RepoReply::Found(list)) => match first_found(list@) {
            Some(commit) => settled(s, commit),
            None => at(s, Stage::FetchingRev),
        },
        (Stage::FetchingRev, RepoReply::Ran(_)) => at(s, Stage::FetchingAll),
        (Stage::FetchingAll, RepoReply::Ran(ran)) => after_git(
            s,
            "fetch"@,
            ran,
            at(s, Stage::SettingHeadAgain),
        ),
        (Stage::SettingHeadAgain, RepoReply::Ran(_)) => at(s, Stage::ResolvingAgain),
        (Stage::ResolvingAgain, RepoReply::Found(list)) => match first_found(list@) {
            Some(commit) => settled(s, commit),
            None => ended(s, Ending::Unresolved(unresolved_text(s.entry))),
        },
        (Stage::ReadingHead, RepoReply::At(head)) => if maybe(head) == Some(goal(s)) {
            ended(s, Ending::AlreadyAt(goal(s)))
        } else {
            at(s, Stage::ReadingStatus)
        },
        (Stage::ReadingStatus, RepoReply::Ran(ran)) => match ran {
            Ok(output) => if dirty_report(output@) {
                ended(s, Ending::SkippedDirty(goal(s)))
            } else {
                at(s, Stage::CheckingOut)
            },
            Err(stderr) => ended(s, Ending::Git("status"@, stderr@)),
        },
        (Stage::CheckingOut, RepoReply::Ran(ran)) => match ran {
            Ok(_) => checked_out(s),
            Err(_) => at(s, Stage::FetchingCommit),
        },
        (Stage::FetchingCommit, RepoReply::Ran(_)) => at(s, Stage::FetchingForCommit),
        (Stage::FetchingForCommit, RepoReply::Ran(ran)) => after_git(
            s,
            "fetch"@,
            ran,
            at(s, Stage::CheckingOutAgain),
        ),
        (Stage::CheckingOutAgain, RepoReply::Ran(ran)) => after_git(
            s,
            "checkout"@,
            ran,
            checked_out(s),
        ),
        _ => s,
    }
}

/// What takes back what a run put at its target.
pub open spec fn undoing(s: RunState) -> Seq<(StepView, bool)> {
    match s.ground {
        Ground::Unseen => Seq::empty(),
        Ground::Free => seq![(StepView::RemoveTree(target_path(s)), false)],
        Ground::Empty => seq![
            (StepView::RemoveTree(target_path(s)), false),
            (StepView::MakeDirs(target_path(s)), false),
        ],
    }
}

/// A run at its start.
pub open spec fn started(
    root: Seq<u8>,
    entry: RepoEntry,
    refresh: bool,
    progress: bool,
) -> RunState {
    let escapes = !path::within_root(encode_utf8(target_of(entry)));
    RunState {
        root,
        entry,
        refresh,
        progress,
        stage: if escapes {
            Stage::Done
        } else {
            Stage::Probing
        },
        existed: false,
        ground: Ground::Unseen,
        desired: None,
        ending: if escapes {
            Ending::Escaped(target_of(entry))
        } else {
            Ending::Pending
        },
    }
}

/// What a step does to the lock: nothing, unless it settles the commit, which
/// is recorded.
pub open spec fn lock_follows(
    before: RunState,
    after: RunState,
    old_lock: RepoLock,
    new_lock: RepoLock,
) -> bool {
    let name = name_of(before.entry);
    match (before.desired, after.desired) {
        (None, Some(commit)) => {
            &&& lock::recorded(new_lock.entries(), name) == Some(commit)
            &&& lock::recorded(old_lock.entries(), name) == Some(commit) ==> new_lock == old_lock
            &&& lock::recorded(old_lock.entries(), name) != Some(commit) ==> new_lock.entries()
                == lock::with_commit(old_lock.entries(), name, commit) && new_lock.dirty()
            &&& new_lock.unwritten() == old_lock.unwritten()
            &&& new_lock.file() == old_lock.file()
            &&& old_lock.legible() ==> new_lock.legible()
        },
        _ => new_lock == old_lock,
    }
}

/// Whether a run is in a state that it can get to.
pub open spec fn sound(s: RunState) -> bool {
    &&& s.stage == Stage::Done <==> !(s.ending is Pending)
    &&& match s.stage {
        Stage::ReadingHead | Stage::ReadingStatus => s.existed && s.desired is Some,
        Stage::CheckingOut | Stage::FetchingCommit | Stage::FetchingForCommit
        | Stage::CheckingOutAgain => s.desired is Some,
        Stage::Done => true,
        Stage::Inspecting | Stage::MakingParent | Stage::Cloning => !s.existed && s.desired is None,
        _ => s.desired is None,
    }
    &&& s.existed ==> s.ground == Ground::Unseen
    &&& s.stage == Stage::Probing || s.stage == Stage::Inspecting ==> s.ground == Ground::Unseen
    &&& match s.ending {
        Ending::Cloned(commit) => !s.existed && s.desired == Some(commit),
        Ending::CheckedOut(commit) | Ending::AlreadyAt(commit) | Ending::SkippedDirty(commit) =>
            s.existed && s.desired == Some(commit),
        Ending::Foreign => false,
        _ => true,
    }
}

// ---------------------------------------------------------------------------
// The run
// ---------------------------------------------------------------------------

/// A run that materializes one entry.
#[derive(Debug)]
pub struct Materialize {
    root: FsPath,
    entry: RepoEntry,
    refresh: bool,
    progress: bool,
    stage: Stage,
    existed: bool,
    ground: Ground,
    desired: Option<String>,
    outcome: Option<Result<ApplyStatus, RepoError>>,
}

impl View for Materialize {
    type V = RunState;

    closed spec fn view(&self) -> RunState {
        RunState {
            root: self.root@,
            entry: self.entry,
            refresh: self.refresh,
            progress: self.progress,
            stage: self.stage,
            existed: self.existed,
            ground: self.ground,
            desired: maybe(self.desired),
            ending: ending_of(self.outcome),
        }
    }
}

/// Materializes one entry.
///
/// With `refresh`, revisions are re-resolved from the remote (fetch first);
/// without, the locked commit is authoritative and the network is touched
/// only when objects are missing locally. With `progress`, network calls show
/// how far they are.
pub fn apply_one(root: &FsPath, entry: &RepoEntry, refresh: bool, progress: bool) -> (run:
    Materialize)
    ensures
        run@ == started(root@, *entry, refresh, progress),
        sound(run@),
{
    let target = entry.effective_target();
    let within = path::target_within_root(target.as_str());
    Materialize {
        root: root.clone(),
        entry: entry.clone(),
        refresh,
        progress,
        stage: if within {
            Stage::Probing
        } else {
            Stage::Done
        },
        existed: false,
        ground: Ground::Unseen,
        desired: None,
        outcome: if within {
            None
        } else {
            Some(Err(RepoError::EscapedTarget(target)))
        },
    }
}

fn call(
    what: &'static str,
    dir: &FsPath,
    first: &str,
    second: &str,
    third: &str,
    fourth: &str,
    label: Option<String>,
) -> (ask: Option<RepoAsk>)
    ensures
        ask is Some,
        ask_view(ask->0) == (AskView::Git {
            what: what@,
            dir: dir@,
            args: seq![first@, second@, third@, fourth@],
            label: maybe(label),
        }),
{
    let mut args: Vec<String> = Vec::new();
    args.push(first.to_owned());
    args.push(second.to_owned());
    args.push(third.to_owned());
    args.push(fourth.to_owned());
    assert(text::views(args@) =~= seq![first@, second@, third@, fourth@]);
    Some(RepoAsk::Git(GitCall { what, dir: dir.clone(), args, label }))
}

fn shown(progress: bool, label: &str) -> (shown: Option<String>)
    ensures
        maybe(shown) == label_if(progress, label@),
{
    if progress {
        Some(label.to_owned())
    } else {
        None
    }
}

impl Materialize {
    fn target(&self) -> (target: FsPath)
        ensures
            target@ == target_path(self@),
    {
        self.root.join(self.entry.effective_target().as_str())
    }

    fn commit(&self) -> (commit: String)
        ensures
            commit@ == goal(self@),
    {
        match &self.desired {
            Some(commit) => commit.clone(),
            None => {
                let none = String::new();
                assert(none@ =~= Seq::<char>::empty());
                none
            },
        }
    }

    /// What to do next; `None` once the run has ended.
    pub fn ask(&self) -> (ask: Option<RepoAsk>)
        ensures
            ask is Some == asks(self@) is Some,
            ask is Some ==> ask_view(ask->0) == asks(self@)->0,
    {
        let target = self.target();
        match self.stage {
            Stage::Probing => Some(RepoAsk::Probe(target.join(".git"))),
            Stage::Inspecting => Some(RepoAsk::Inspect(target)),
            Stage::MakingParent => match target.parent() {
                Some(above) => Some(RepoAsk::MakeDirs(above)),
                None => Some(RepoAsk::MakeDirs(target)),
            },
            Stage::Cloning => call(
                "clone",
                &self.root,
                "clone",
                "--no-checkout",
                self.entry.url.as_str(),
                self.entry.effective_target().as_str(),
                shown(self.progress, self.entry.effective_name().as_str()),
            ),
            Stage::Fetching => call(
                "fetch",
                &target,
                "fetch",
                "--prune",
                "--tags",
                "origin",
                shown(self.progress, self.entry.effective_name().as_str()),
            ),
            Stage::SettingHead | Stage::SettingHeadAgain => call(
                "set-head",
                &target,
                "remote",
                "set-head",
                "origin",
                "--auto",
                None,
            ),
            Stage::Resolving | Stage::ResolvingAgain => Some(
                RepoAsk::Resolve { target, lookup: resolve_local(&self.entry.rev) },
            ),
            Stage::FetchingRev => {
                let rev = match &self.entry.rev {
                    Some(rev) => rev.clone(),
                    None => "HEAD".to_owned(),
                };
                call(
                    "fetch-rev",
                    &target,
                    "fetch",
                    "--no-tags",
                    "origin",
                    rev.as_str(),
                    shown(self.progress, "fetch"),
                )
            },
            Stage::FetchingAll | Stage::FetchingForCommit => call(
                "fetch",
                &target,
                "fetch",
                "--prune",
                "--tags",
                "origin",
                shown(self.progress, "fetch"),
            ),
            Stage::ReadingHead => Some(RepoAsk::Head(target)),
            Stage::ReadingStatus => {
                let mut args: Vec<String> = Vec::new();
                args.push("status".to_owned());
                args.push("--porcelain".to_owned());
                assert(text::views(args@) =~= seq!["status"@, "--porcelain"@]);
                Some(RepoAsk::Git(GitCall { what: "status", dir: target, args, label: None }))
            },
            Stage::CheckingOut | Stage::CheckingOutAgain => call(
                "checkout",
                &target,
                "checkout",
                "--detach",
                "--quiet",
                self.commit().as_str(),
                None,
            ),
            Stage::FetchingCommit => call(
                "fetch-sha",
                &target,
                "fetch",
                "--no-tags",
                "origin",
                self.commit().as_str(),
                shown(self.progress, "fetch"),
            ),
            Stage::Done => None,
        }
    }

    fn settle(&mut self, commit: String, lock: &mut RepoLock)
        requires
            lock::recordable(old(lock).entries()),
            old(self)@.desired is None,
        ensures
            final(self)@ == settled(old(self)@, commit@),
            lock_follows(old(self)@, final(self)@, *old(lock), *final(lock)),
            lock::recordable(final(lock).entries()),
    {
        lock.set_commit(self.entry.effective_name().as_str(), commit.as_str());
        self.desired = Some(commit);
        self.stage = if self.existed {
            Stage::ReadingHead
        } else {
            Stage::CheckingOut
        };
    }

    fn go_on(&mut self, fetched: bool, lock: &mut RepoLock)
        requires
            lock::recordable(old(lock).entries()),
            old(self)@.desired is None,
        ensures
            final(self)@ == (if fetched {
                with_objects(
                    old(self)@,
                    lock::recorded(old(lock).entries(), name_of(old(self)@.entry)),
                )
            } else {
                with_repository(
                    old(self)@,
                    lock::recorded(old(lock).entries(), name_of(old(self)@.entry)),
                )
            }),
            lock_follows(old(self)@, final(self)@, *old(lock), *final(lock)),
            lock::recordable(final(lock).entries()),
    {
        if self.refresh {
            self.stage = if fetched {
                Stage::Resolving
            } else {
                Stage::Fetching
            };
            return;
        }
        let locked: Option<String> = match lock.commit(self.entry.effective_name().as_str()) {
            Some(commit) => Some(commit.to_owned()),
            None => None,
        };
        match locked {
            Some(commit) => self.settle(commit, lock),
            None => {
                self.stage = Stage::Resolving;
            },
        }
    }

    fn end(&mut self, outcome: Result<ApplyStatus, RepoError>)
        ensures
            final(self)@ == ended(old(self)@, ending_of(Some(outcome))),
    {
        self.outcome = Some(outcome);
        self.stage = Stage::Done;
    }

    fn stand_on(&mut self, ground: Ground)
        ensures
            final(self)@ == on_ground(old(self)@, ground),
    {
        self.stage = if self.target().parent().is_some() {
            Stage::MakingParent
        } else {
            Stage::Cloning
        };
        self.ground = ground;
    }

    fn finish_checkout(&mut self)
        ensures
            final(self)@ == checked_out(old(self)@),
    {
        let commit = self.commit();
        if self.existed {
            self.end(Ok(ApplyStatus::CheckedOut(commit)));
        } else {
            self.end(Ok(ApplyStatus::Cloned(commit)));
        }
    }

    fn fail(&mut self, what: &'static str, stderr: String)
        ensures
            final(self)@ == ended(old(self)@, Ending::Git(what@, stderr@)),
    {
        self.end(Err(RepoError::Git { what, stderr }));
    }

    /// Takes the reply to what was asked. The commit that the run settles on
    /// is recorded in the lock.
    pub fn resume(&mut self, reply: RepoReply, lock: &mut RepoLock)
        requires
            sound(old(self)@),
            lock::recordable(old(lock).entries()),
        ensures
            final(self)@ == step(
                old(self)@,
                reply,
                lock::recorded(old(lock).entries(), name_of(old(self)@.entry)),
            ),
            sound(final(self)@),
            lock_follows(old(self)@, final(self)@, *old(lock), *final(lock)),
            lock::recordable(final(lock).entries()),
    {
        let ghost before = self@;
        let ghost locked = lock::recorded(lock.entries(), name_of(self@.entry));
        match (self.stage, reply) {
            (Stage::Probing, RepoReply::Present(there)) => {
                self.existed = there;
                if there {
                    self.go_on(false, lock);
                } else {
                    self.stage = Stage::Inspecting;
                }
            },
            (Stage::Inspecting, RepoReply::Spot(spot)) => match spot {
                Spot::Absent => {
                    self.stand_on(Ground::Free);
                },
                Spot::EmptyDirectory => {
                    self.stand_on(Ground::Empty);
                },
                Spot::UsedDirectory | Spot::Other => {
                    let target = self.target();
                    self.end(Err(RepoError::Occupied(target)));
                },
                Spot::Unreadable(message) => {
                    self.end(Err(RepoError::Io(message)));
                },
            },
            (Stage::MakingParent, RepoReply::Made(failure)) => match failure {
                Some(message) => {
                    self.end(Err(RepoError::Io(message)));
                },
                None => {
                    self.stage = Stage::Cloning;
                },
            },
            (Stage::Cloning, RepoReply::Ran(ran)) => match ran {
                Ok(_) => {
                    self.go_on(false, lock);
                },
                Err(stderr) => {
                    self.fail("clone", stderr);
                },
            },
            (Stage::Fetching, RepoReply::Ran(ran)) => match ran {
                Ok(_) => {
                    self.stage = Stage::SettingHead;
                },
                Err(stderr) => {
                    self.fail("fetch", stderr);
                },
            },
            (Stage::SettingHead, RepoReply::Ran(_)) => {
                self.go_on(true, lock);
            },
            (Stage::Resolving, RepoReply::Found(list)) => match first_commit(&list) {
                Some(commit) => {
                    self.settle(commit, lock);
                },
                None => {
                    self.stage = Stage::FetchingRev;
                },
            },
            (Stage::FetchingRev, RepoReply::Ran(_)) => {
                self.stage = Stage::FetchingAll;
            },
            (Stage::FetchingAll, RepoReply::Ran(ran)) => match ran {
                Ok(_) => {
                    self.stage = Stage::SettingHeadAgain;
                },
                Err(stderr) => {
                    self.fail("fetch", stderr);
                },
            },
            (Stage::SettingHeadAgain, RepoReply::Ran(_)) => {
                self.stage = Stage::ResolvingAgain;
            },
            (Stage::ResolvingAgain, RepoReply::Found(list)) => match first_commit(&list) {
                Some(commit) => {
                    self.settle(commit, lock);
                },
                None => {
                    let message = unresolved(&self.entry);
                    self.end(Err(RepoError::Resolve(message)));
                },
            },
            (Stage::ReadingHead, RepoReply::At(head)) => {
                let commit = self.commit();
                let there = match &head {
                    Some(head) => text::same(head.as_str(), commit.as_str()),
                    None => false,
                };
                if there {
                    self.end(Ok(ApplyStatus::AlreadyAt(commit)));
                } else {
                    self.stage = Stage::ReadingStatus;
                }
            },
            (Stage::ReadingStatus, RepoReply::Ran(ran)) => match ran {
                Ok(output) => {
                    if is_dirty(&output) {
                        let desired = self.commit();
                        self.end(Ok(ApplyStatus::SkippedDirty { desired }));
                    } else {
                        self.stage = Stage::CheckingOut;
                    }
                },
                Err(stderr) => {
                    self.fail("status", stderr);
                },
            },
            (Stage::CheckingOut, RepoReply::Ran(ran)) => match ran {
                Ok(_) => {
                    self.finish_checkout();
                },
                Err(_) => {
                    self.stage = Stage::FetchingCommit;
                },
            },
            (Stage::FetchingCommit, RepoReply::Ran(_)) => {
                self.stage = Stage::FetchingForCommit;
            },
            (Stage::FetchingForCommit, RepoReply::Ran(ran)) => match ran {
                Ok(_) => {
                    self.stage = Stage::CheckingOutAgain;
                },
                Err(stderr) => {
                    self.fail("fetch", stderr);
                },
            },
            (Stage::CheckingOutAgain, RepoReply::Ran(ran)) => match ran {
                Ok(_) => {
                    self.finish_checkout();
                },
                Err(stderr) => {
                    self.fail("checkout", stderr);
                },
            },
            _ => {},
        }
    }

    /// Whether the run has ended.
    pub fn is_done(&self) -> (done: bool)
        ensures
            done == (self@.stage == Stage::Done),
    {
        match self.stage {
            Stage::Done => true,
            _ => false,
        }
    }

    /// Whether the repository was there before the run.
    pub fn had_repository(&self) -> (existed: bool)
        ensures
            existed == self@.existed,
    {
        self.existed
    }

    /// What takes back what the run put at its target: a directory that it
    /// made goes, one that was empty is empty again, and a repository that was
    /// there before is left alone.
    pub fn rollback(&self) -> (deeds: Vec<Deed>)
        ensures
            files::deed_views(deeds@) == undoing(self@),
    {
        let mut deeds: Vec<Deed> = Vec::new();
        match self.ground {
            Ground::Unseen => {},
            Ground::Free => {
                files::then_do(&mut deeds, Step::RemoveTree(self.target()), false);
            },
            Ground::Empty => {
                files::then_do(&mut deeds, Step::RemoveTree(self.target()), false);
                files::then_do(&mut deeds, Step::MakeDirs(self.target()), false);
            },
        }
        assert(files::deed_views(deeds@) =~= undoing(self@));
        deeds
    }

    /// What became of the entry, once the run has ended.
    pub fn outcome(self) -> (outcome: Option<Result<ApplyStatus, RepoError>>)
        ensures
            ending_of(outcome) == self@.ending,
    {
        self.outcome
    }
}

impl GitCall {
    /// The whole argument list of the call; with `relayed`, `git` is told to
    /// report its progress though nobody watches its own terminal.
    pub fn arguments(&self, relayed: bool) -> (list: Vec<Vec<u8>>)
        ensures
            path::rows(list@) == argument_rows(self.dir@, text::views(self.args@), relayed),
    {
        let mut list: Vec<Vec<u8>> = Vec::new();
        list.push("-c".as_bytes_vec());
        list.push("advice.detachedHead=false".as_bytes_vec());
        list.push("-C".as_bytes_vec());
        list.push(self.dir.clone_bytes());
        let ghost head = seq![
            encode_utf8("-c"@),
            encode_utf8("advice.detachedHead=false"@),
            encode_utf8("-C"@),
            self.dir@,
        ];
        assert(path::rows(list@) =~= head);
        let ghost args = text::views(self.args@);
        let mut i: usize = 0;
        assert(encoded_rows(marked(args.take(0), relayed)) =~= Seq::<Seq<u8>>::empty());
        while i < self.args.len()
            invariant
                i <= self.args.len(),
                args == text::views(self.args@),
                path::rows(list@) == head + encoded_rows(marked(args.take(i as int), relayed)),
            decreases self.args.len() - i,
        {
            let ghost held = path::rows(list@);
            let arg = self.args[i].as_str().as_bytes_vec();
            assert(path::rows(list@.push(arg)) =~= held.push(arg@));
            list.push(arg);
            assert(args.take(i + 1) =~= args.take(i as int).push(args[i as int]));
            if relayed && i == 0 {
                let flag = "--progress".as_bytes_vec();
                assert(path::rows(list@.push(flag)) =~= path::rows(list@).push(flag@));
                list.push(flag);
            }
            proof {
                assert(path::rows(list@) =~= head + encoded_rows(
                    marked(args.take(i + 1), relayed),
                ));
            }
            i = i + 1;
        }
        assert(args.take(i as int) =~= args);
        list
    }
}

/// The arguments with `--progress` behind the subcommand.
pub open spec fn marked(args: Seq<Seq<char>>, relayed: bool) -> Seq<Seq<char>> {
    if relayed && args.len() > 0 {
        seq![args[0], "--progress"@] + args.skip(1)
    } else {
        args
    }
}

/// Texts as bytes.
pub open spec fn encoded_rows(list: Seq<Seq<char>>) -> Seq<Seq<u8>> {
    list.map_values(|text: Seq<char>| encode_utf8(text))
}

/// The whole argument list of a call.
pub open spec fn argument_rows(
    dir: Seq<u8>,
    args: Seq<Seq<char>>,
    relayed: bool,
) -> Seq<Seq<u8>> {
    seq![encode_utf8("-c"@), encode_utf8("advice.detachedHead=false"@), encode_utf8("-C"@), dir]
        + encoded_rows(marked(args, relayed))
}

} // verus!
