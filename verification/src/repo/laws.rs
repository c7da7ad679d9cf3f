//! What holds of every run that materializes an entry.

use vstd::prelude::*;
use vstd::utf8::encode_utf8;

use super::entry::apply_status_text;
use super::entry::name_of;
use super::entry::repo_error_text;
use super::entry::summary_of;
use super::entry::target_of;
use super::entry::ApplyStatus;
use super::entry::RepoEntry;
use super::entry::RepoError;
use super::materialize::argument_rows;
use super::materialize::asks;
use super::materialize::dirty_means_a_mark_in_the_second_column;
use super::materialize::dirty_report;
use super::materialize::first_found;
use super::materialize::full_id;
use super::materialize::hex_digit;
use super::materialize::lock_follows;
use super::materialize::sound;
use super::materialize::started;
use super::materialize::step;
use super::materialize::target_path;
use super::materialize::undoing;
use super::materialize::unresolved_text;
use super::materialize::AskView;
use super::materialize::Ending;
use super::materialize::Ground;
use super::materialize::LookupView;
use super::materialize::RepoReply;
use super::materialize::RunState;
use super::materialize::Spot;
use super::materialize::Stage;
use crate::files;
use crate::files::Disk;
use crate::files::StepView;
use crate::lock;
use crate::lock::RepoLock;
use crate::path;
use crate::path::FsPath;
use crate::text;

verus! {

/// How many more replies a run takes at most.
pub open spec fn rank(stage: Stage) -> nat {
    match stage {
        Stage::Probing => 17,
        Stage::Inspecting => 16,
        Stage::MakingParent => 15,
        Stage::Cloning => 14,
        Stage::Fetching => 13,
        Stage::SettingHead => 12,
        Stage::Resolving => 11,
        Stage::FetchingRev => 10,
        Stage::FetchingAll => 9,
        Stage::SettingHeadAgain => 8,
        Stage::ResolvingAgain => 7,
        Stage::ReadingHead => 6,
        Stage::ReadingStatus => 5,
        Stage::CheckingOut => 4,
        Stage::FetchingCommit => 3,
        Stage::FetchingForCommit => 2,
        Stage::CheckingOutAgain => 1,
        Stage::Done => 0,
    }
}

/// Whether a reply is one to what a stage asks.
pub open spec fn answers(stage: Stage, reply: RepoReply) -> bool {
    match stage {
        Stage::Probing => reply is Present,
        Stage::Inspecting => reply is Spot,
        Stage::MakingParent => reply is Made,
        Stage::Resolving | Stage::ResolvingAgain => reply is Found,
        Stage::ReadingHead => reply is At,
        Stage::Done => false,
        _ => reply is Ran,
    }
}

/// Whether a run is about to use the network.
pub open spec fn uses_network(stage: Stage) -> bool {
    match stage {
        Stage::Cloning | Stage::Fetching | Stage::SettingHead | Stage::FetchingRev
        | Stage::FetchingAll | Stage::SettingHeadAgain | Stage::FetchingCommit
        | Stage::FetchingForCommit => true,
        _ => false,
    }
}

/// Whether a run has decided to move the working tree to the commit.
pub open spec fn moves_tree(stage: Stage) -> bool {
    match stage {
        Stage::CheckingOut | Stage::FetchingCommit | Stage::FetchingForCommit
        | Stage::CheckingOutAgain => true,
        _ => false,
    }
}

/// **Every run comes to an end.** Each answer brings it nearer, and a run that
/// asks for nothing has an outcome.
pub proof fn every_run_ends(s: RunState, reply: RepoReply, locked: Option<Seq<char>>)
    ensures
        answers(s.stage, reply) ==> rank(step(s, reply, locked).stage) < rank(s.stage),
        !answers(s.stage, reply) ==> step(s, reply, locked) == s,
        sound(s) && asks(s) is None ==> !(s.ending is Pending),
{
}

/// Where a run stands after a row of replies, while the lock has `locked` for
/// its entry.
pub open spec fn replied(
    s: RunState,
    replies: Seq<RepoReply>,
    locked: Option<Seq<char>>,
) -> RunState
    decreases replies.len(),
{
    if replies.len() == 0 {
        s
    } else {
        step(replied(s, replies.drop_last(), locked), replies.last(), locked)
    }
}

/// **The locked commit is restored, and no other one.** Whatever comes back, a
/// run without a refresh whose entry is locked settles on no other commit than
/// the locked one, and can end well with no other one.
pub proof fn locked_commits_are_restored(
    root: Seq<u8>,
    entry: RepoEntry,
    progress: bool,
    replies: Seq<RepoReply>,
    commit: Seq<char>,
)
    ensures
        ({
            let end = replied(started(root, entry, false, progress), replies, Some(commit));
            &&& !end.refresh
            &&& end.desired is None || end.desired == Some(commit)
            &&& end.desired is None ==> match end.stage {
                Stage::Probing | Stage::Inspecting | Stage::MakingParent | Stage::Cloning
                | Stage::Done => true,
                _ => false,
            }
            &&& match end.ending {
                Ending::Cloned(at) | Ending::CheckedOut(at) | Ending::AlreadyAt(at)
                | Ending::SkippedDirty(at) => at == commit,
                _ => true,
            }
            &&& sound(end)
        }),
    decreases replies.len(),
{
    if replies.len() > 0 {
        locked_commits_are_restored(root, entry, progress, replies.drop_last(), commit);
    }
}

/// **A run takes at most seventeen answers.**
pub proof fn runs_are_short(
    s: RunState,
    replies: Seq<RepoReply>,
    locked: Option<Seq<char>>,
)
    requires
        forall|i: int|
            0 <= i < replies.len() ==> answers(
                (#[trigger] replied(s, replies.take(i), locked)).stage,
                replies[i],
            ),
    ensures
        replies.len() + rank(replied(s, replies, locked).stage) <= rank(s.stage),
        replies.len() <= 17,
    decreases replies.len(),
{
    if replies.len() > 0 {
        let fewer = replies.drop_last();
        let last = replies.len() - 1;
        assert(replies.take(last) =~= fewer);
        assert forall|i: int| 0 <= i < fewer.len() implies answers(
            (#[trigger] replied(s, fewer.take(i), locked)).stage,
            fewer[i],
        ) by {
            assert(fewer.take(i) =~= replies.take(i));
            assert(answers(replied(s, replies.take(i), locked).stage, replies[i]));
        }
        runs_are_short(s, fewer, locked);
        assert(answers(replied(s, replies.take(last), locked).stage, replies[last]));
        every_run_ends(replied(s, fewer, locked), replies.last(), locked);
    }
}

/// **Dirty working copies are never touched.** A run in a repository that was
/// there before only decides to move its working tree when the status report
/// was clean; a dirty report ends it. Clean means that no line of it has a second
/// byte other than a space.
pub proof fn dirty_copies_are_never_touched(
    s: RunState,
    reply: RepoReply,
    locked: Option<Seq<char>>,
)
    requires
        sound(s),
        !moves_tree(s.stage),
    ensures
        moves_tree(step(s, reply, locked).stage) && step(s, reply, locked).existed ==> s.stage
            == Stage::ReadingStatus && (reply matches RepoReply::Ran(Ok(output)) && !dirty_report(
            output@,
        )),
        s.stage == Stage::ReadingStatus && (reply matches RepoReply::Ran(Ok(output))
            && dirty_report(output@)) ==> step(s, reply, locked).ending is SkippedDirty && step(
            s,
            reply,
            locked,
        ).ending == Ending::SkippedDirty(s.desired->0),
        s.stage == Stage::ReadingStatus && (reply matches RepoReply::Ran(Ok(output)) && exists|p: int|
            {
                &&& 0 <= p < text::lossy_text(output@).len()
                &&& p == 0 || text::lossy_text(output@)[p - 1] == '\n'
                &&& #[trigger] text::lossy_text(output@)[p] != '\n'
                &&& text::lossy_text(output@)[p] as u32 >= 128 || {
                    &&& p + 1 < text::lossy_text(output@).len()
                    &&& text::lossy_text(output@)[p + 1] != '\n'
                    &&& text::lossy_text(output@)[p + 1] != ' '
                    &&& !(text::lossy_text(output@)[p + 1] == '\r' && p + 2 < text::lossy_text(output@).len() && text::lossy_text(output@)[p + 2] == '\n')
                }
            }) ==> asks(step(s, reply, locked)) is None && step(s, reply, locked).ending is SkippedDirty,
{
    if let RepoReply::Ran(Ok(output)) = reply {
        dirty_means_a_mark_in_the_second_column(output@);
    }
}

/// **A repository that is there is never cloned over.**
pub proof fn repositories_are_never_cloned_over(s: RunState)
    requires
        sound(s),
        asks(s) matches Some(AskView::Git { what, .. }) && what == "clone"@,
    ensures
        !s.existed,
{
    reveal_strlit("clone");
    reveal_strlit("fetch");
    reveal_strlit("set-head");
    reveal_strlit("fetch-rev");
    reveal_strlit("status");
    reveal_strlit("checkout");
    reveal_strlit("fetch-sha");
    assert("clone"@[0] != "fetch"@[0]);
    assert("clone"@[0] != "set-head"@[0]);
    assert("clone"@[0] != "fetch-rev"@[0]);
    assert("clone"@[0] != "status"@[0]);
    assert("clone"@[1] != "checkout"@[1]);
    assert("clone"@[0] != "fetch-sha"@[0]);
}

/// **Only a free spot is cloned into**: nothing there, or an empty directory.
pub proof fn only_free_spots_are_cloned_into(s: RunState, spot: Spot, locked: Option<Seq<char>>)
    requires
        s.stage == Stage::Inspecting,
        sound(s),
    ensures
        ({
            let next = step(s, RepoReply::Spot(spot), locked);
            (spot is Absent || spot is EmptyDirectory) == (next.stage == Stage::MakingParent
                || next.stage == Stage::Cloning)
        }),
        spot is UsedDirectory || spot is Other ==> step(s, RepoReply::Spot(spot), locked).ending
            is Occupied,
{
}

/// **A locked repo that is there needs no network**: without a refresh, a run
/// reads HEAD, reads the status, and checks out; it only fetches after a
/// checkout has failed.
pub proof fn locked_repos_need_no_network(s: RunState, reply: RepoReply, commit: Seq<char>)
    requires
        sound(s),
        !s.refresh,
        match s.stage {
            Stage::Probing => reply == RepoReply::Present(true),
            Stage::ReadingHead | Stage::ReadingStatus => true,
            Stage::CheckingOut => reply matches RepoReply::Ran(Ok(_)),
            _ => false,
        },
    ensures
        !uses_network(step(s, reply, Some(commit)).stage),
        s.stage == Stage::Probing ==> step(s, reply, Some(commit)).desired == Some(commit),
{
}

/// **The lock agrees with the run**: once a run has settled on a commit, the
/// lock has that commit for the entry, and keeps it until the run ends.
pub proof fn the_lock_agrees_with_the_run(
    before: RunState,
    after: RunState,
    old_lock: RepoLock,
    new_lock: RepoLock,
    reply: RepoReply,
)
    requires
        sound(before),
        after == step(before, reply, lock::recorded(old_lock.entries(), name_of(before.entry))),
        lock_follows(before, after, old_lock, new_lock),
        before.desired is Some ==> lock::recorded(old_lock.entries(), name_of(before.entry))
            == before.desired,
    ensures
        after.desired is Some ==> lock::recorded(new_lock.entries(), name_of(after.entry))
            == after.desired,
        after.ending matches Ending::Cloned(commit) ==> lock::recorded(
            new_lock.entries(),
            name_of(after.entry),
        ) == Some(commit),
        after.ending matches Ending::CheckedOut(commit) ==> lock::recorded(
            new_lock.entries(),
            name_of(after.entry),
        ) == Some(commit),
        after.ending matches Ending::AlreadyAt(commit) ==> lock::recorded(
            new_lock.entries(),
            name_of(after.entry),
        ) == Some(commit),
{
}

/// **The other entries of the lock are left alone.**
pub proof fn other_lock_entries_are_left_alone(
    before: RunState,
    after: RunState,
    old_lock: RepoLock,
    new_lock: RepoLock,
    other: Seq<char>,
)
    requires
        lock_follows(before, after, old_lock, new_lock),
        lock::recordable(old_lock.entries()),
        other != name_of(before.entry),
    ensures
        lock::recorded(new_lock.entries(), other) == lock::recorded(old_lock.entries(), other),
{
    let name = name_of(before.entry);
    if let (None, Some(commit)) = (before.desired, after.desired) {
        lock::recorded_commit_is_read_back(old_lock.entries(), name, commit);
    }
}

/// **Applying again does nothing.** With HEAD at the locked commit, a run
/// looks for the repository, reads HEAD, and ends; nothing is written to the
/// lock.
pub proof fn applying_again_does_nothing(
    root: Seq<u8>,
    entry: RepoEntry,
    progress: bool,
    head: String,
)
    requires
        path::within_root(encode_utf8(target_of(entry))),
    ensures
        ({
            let locked = Some(head@);
            let first = started(root, entry, false, progress);
            let second = step(first, RepoReply::Present(true), locked);
            let third = step(second, RepoReply::At(Some(head)), locked);
            &&& asks(first) matches Some(AskView::Probe(_))
            &&& asks(second) matches Some(AskView::Head(_))
            &&& asks(third) is None
            &&& third.ending == Ending::AlreadyAt(head@)
        }),
{
}

/// **A refresh does not ask the lock**: where it goes is decided by what the
/// remote has.
pub proof fn a_refresh_follows_the_remote(
    s: RunState,
    reply: RepoReply,
    locked: Option<Seq<char>>,
    other: Option<Seq<char>>,
)
    requires
        s.refresh,
    ensures
        step(s, reply, locked) == step(s, reply, other),
{
}

/// **An escaping target is never acted on**: its run has ended before anything
/// is asked.
pub proof fn escaping_targets_are_never_acted_on(
    root: Seq<u8>,
    entry: RepoEntry,
    refresh: bool,
    progress: bool,
)
    requires
        !path::within_root(encode_utf8(target_of(entry))),
    ensures
        asks(started(root, entry, refresh, progress)) is None,
        started(root, entry, refresh, progress).ending == Ending::Escaped(target_of(entry)),
{
}

/// **Taking back removes nothing that was there before.** A run that can be
/// taken back had no repository; it found its target free, or an empty
/// directory; and no other reply makes it so.
pub proof fn only_free_ground_is_cleared(s: RunState, reply: RepoReply, locked: Option<Seq<char>>)
    requires
        sound(s),
    ensures
        undoing(s).len() > 0 ==> !s.existed,
        step(s, reply, locked).ground != s.ground ==> s.stage == Stage::Inspecting && (reply
            matches RepoReply::Spot(spot) && (spot is Absent || spot is EmptyDirectory)),
        step(s, reply, locked).ground == Ground::Free && s.ground != Ground::Free ==> (reply
            matches RepoReply::Spot(spot) && spot is Absent),
        undoing(started(s.root, s.entry, s.refresh, s.progress)).len() == 0,
{
}

/// **Taking back gives back what was there**, and touches nothing outside the
/// target: a free place is free again, an empty directory is a directory again.
pub proof fn taking_back_restores_the_ground(
    s: RunState,
    before: Disk,
    after: Disk,
    place: Seq<Seq<u8>>,
)
    requires
        undoing(s).len() > 0,
        files::carried_out(before, undoing(s), after),
        before.dom().contains(place),
        !files::inside(path::parts(target_path(s)), place),
    ensures
        after.dom().contains(place) && after[place] == before[place],
        s.ground == Ground::Free ==> files::seen(after, target_path(s)) is Absent,
        s.ground == Ground::Empty ==> files::seen(after, target_path(s)) is Directory
            || files::seen(after, target_path(s)) is Link,
{
    let deeds = undoing(s);
    let at = path::parts(target_path(s));
    assert(at.take(at.len() as int) =~= at);
    let middle = files::lemma_last_change(before, deeds, after);
    if s.ground == Ground::Empty {
        let start = files::lemma_last_change(before, deeds.drop_last(), middle);
        assert(start == before);
        assert(middle.dom().contains(place));
        assert(middle[place] == before[place]);
        assert(after.dom().contains(place));
    } else {
        assert(middle == before);
        assert(after.dom().contains(place));
    }
}

// ---------------------------------------------------------------------------
// What is asked for, and what follows from the answers
// ---------------------------------------------------------------------------

/// **Everything is fetched the same way**: a call of `git` in the target, with
/// exactly these arguments.
pub proof fn fetches_update_all_branches_and_tags(s: RunState)
    requires
        s.stage == Stage::Fetching || s.stage == Stage::FetchingAll || s.stage
            == Stage::FetchingForCommit,
    ensures
        asks(s) matches Some(AskView::Git { what, dir, args, label }) && what == "fetch"@ && dir
            == path::child(s.root, target_of(s.entry)) && args.len() == 4 && args[0] == "fetch"@
            && args[1] == "--prune"@ && args[2] == "--tags"@ && args[3] == "origin"@ && (label
            is Some <==> s.progress),
{
}

/// **A single revision or commit is fetched from the remote**, in the target and
/// without tags: the revision of the entry, its HEAD without one, or the commit
/// that is to be checked out.
pub proof fn single_fetches_name_what_is_wanted(s: RunState)
    requires
        sound(s),
        s.stage == Stage::FetchingRev || s.stage == Stage::FetchingCommit,
    ensures
        asks(s) matches Some(AskView::Git { what, dir, args, label }) && dir == path::child(
            s.root,
            target_of(s.entry),
        ) && args.len() == 4 && args[0] == "fetch"@ && args[1] == "--no-tags"@ && args[2]
            == "origin"@ && (s.stage == Stage::FetchingRev ==> what == "fetch-rev"@ && match s.entry.rev {
            Some(rev) => args[3] == rev@,
            None => args[3] == "HEAD"@,
        }) && (s.stage == Stage::FetchingCommit ==> what == "fetch-sha"@ && Some(args[3])
            == s.desired) && (label is Some <==> s.progress),
{
}

/// **Checking out detaches HEAD at the commit that the run is after**, in the
/// target, and at no other one.
pub proof fn checkouts_go_to_the_commit(s: RunState)
    requires
        sound(s),
        s.stage == Stage::CheckingOut || s.stage == Stage::CheckingOutAgain,
    ensures
        asks(s) matches Some(AskView::Git { what, dir, args, label }) && what == "checkout"@ && dir
            == path::child(s.root, target_of(s.entry)) && args.len() == 4 && args[0]
            == "checkout"@ && args[1] == "--detach"@ && args[2] == "--quiet"@ && Some(args[3])
            == s.desired && label is None,
{
}

/// **Cloning brings the repository of the entry to its target**, from the
/// workspace root, and checks nothing out yet.
pub proof fn clones_bring_the_url_to_the_target(s: RunState)
    requires
        s.stage == Stage::Cloning,
    ensures
        asks(s) matches Some(AskView::Git { what, dir, args, label }) && what == "clone"@ && dir
            == s.root && args.len() == 4 && args[0] == "clone"@ && args[1] == "--no-checkout"@
            && args[2] == s.entry.url@ && args[3] == target_of(s.entry) && (label is Some <==>
            s.progress),
{
}

/// **The other questions are about the target too**: whether it has a `.git`,
/// what stands there, where the remote's default branch is, at which commit HEAD
/// is, and what was changed.
pub proof fn questions_are_about_the_target(s: RunState)
    ensures
        ({
            let target = path::child(s.root, target_of(s.entry));
            &&& s.stage == Stage::Probing ==> asks(s) == Some(
                AskView::Probe(path::child(target, ".git"@)),
            )
            &&& s.stage == Stage::Inspecting ==> asks(s) == Some(AskView::Inspect(target))
            &&& s.stage == Stage::ReadingHead ==> asks(s) == Some(AskView::Head(target))
            &&& s.stage == Stage::MakingParent && path::parent_of(target) is Some ==> asks(s)
                == Some(AskView::MakeDirs(path::parent_of(target)->0))
            &&& s.stage == Stage::ReadingStatus ==> (asks(s) matches Some(
                AskView::Git { dir, args, .. },
            ) && dir == target && args.len() == 2 && args[0] == "status"@ && args[1]
                == "--porcelain"@)
            &&& s.stage == Stage::SettingHead || s.stage == Stage::SettingHeadAgain ==> (asks(s)
                matches Some(AskView::Git { dir, args, .. }) && dir == target && args.len() == 4
                && args[0] == "remote"@ && args[1] == "set-head"@ && args[2] == "origin"@ && args[3]
                == "--auto"@)
            &&& s.stage == Stage::Resolving || s.stage == Stage::ResolvingAgain ==> (asks(s)
                matches Some(AskView::Resolve { target: at, .. }) && at == target)
            &&& s.stage == Stage::Done ==> asks(s) is None
        }),
{
}

/// **A revision is looked for as what it is**: as many hexadecimal digits as a
/// hash has are a commit; anything else is a branch of the remote, and a tag where
/// there is no such branch; without a revision it is the remote's default branch.
pub proof fn revisions_are_looked_for_as_what_they_are(s: RunState)
    requires
        s.stage == Stage::Resolving || s.stage == Stage::ResolvingAgain,
    ensures
        asks(s) matches Some(AskView::Resolve { lookup, .. }) && match s.entry.rev {
            None => lookup matches LookupView::References(names) && names.len() == 1 && names[0]
                == "refs/remotes/origin/HEAD"@,
            Some(rev) => {
                let bytes = encode_utf8(rev@);
                if (bytes.len() == 40 || bytes.len() == 64) && forall|i: int|
                    0 <= i < bytes.len() ==> {
                        ||| '0' as u8 <= #[trigger] bytes[i] <= '9' as u8
                        ||| 'a' as u8 <= bytes[i] <= 'f' as u8
                        ||| 'A' as u8 <= bytes[i] <= 'F' as u8
                    } {
                    lookup == LookupView::Object(rev@)
                } else {
                    lookup matches LookupView::References(names) && names.len() == 2 && names[0]
                        == "refs/remotes/origin/"@ + rev@ && names[1] == "refs/tags/"@ + rev@
                }
            },
        },
{
    if let Some(rev) = s.entry.rev {
        let bytes = encode_utf8(rev@);
        if full_id(rev@) {
            assert forall|i: int| 0 <= i < bytes.len() implies {
                ||| '0' as u8 <= #[trigger] bytes[i] <= '9' as u8
                ||| 'a' as u8 <= bytes[i] <= 'f' as u8
                ||| 'A' as u8 <= bytes[i] <= 'F' as u8
            } by {
                assert(hex_digit(bytes[i]));
            }
        }
    }
}

/// **The first place that has a commit decides.**
pub proof fn the_first_place_decides(list: Seq<Option<String>>)
    ensures
        first_found(list) is None <==> forall|i: int|
            0 <= i < list.len() ==> (#[trigger] list[i]) is None,
        first_found(list) matches Some(commit) ==> exists|i: int|
            {
                &&& 0 <= i < list.len()
                &&& (#[trigger] list[i]) matches Some(found) && found@ == commit
                &&& forall|j: int| 0 <= j < i ==> (#[trigger] list[j]) is None
            },
    decreases list.len(),
{
    if list.len() > 0 {
        match list[0] {
            Some(commit) => {
                assert(list[0] matches Some(found) && found@ == commit@);
            },
            None => {
                let rest = list.skip(1);
                the_first_place_decides(rest);
                if first_found(rest) is Some {
                    let commit = first_found(rest)->0;
                    let i = choose|i: int|
                        {
                            &&& 0 <= i < rest.len()
                            &&& (#[trigger] rest[i]) matches Some(found) && found@ == commit
                            &&& forall|j: int| 0 <= j < i ==> (#[trigger] rest[j]) is None
                        };
                    assert(list[i + 1] == rest[i]);
                    assert forall|j: int| 0 <= j < i + 1 implies (#[trigger] list[j]) is None by {
                        if j > 0 {
                            assert(rest[j - 1] is None);
                        }
                    }
                } else {
                    assert forall|i: int| 0 <= i < list.len() implies (#[trigger] list[i]) is None by {
                        if i > 0 {
                            assert(rest[i - 1] is None);
                        }
                    }
                }
            },
        }
    }
}

/// **What was resolved is what the run goes after**: the first commit that was
/// found; where none was, it fetches and looks once more, and after that it ends.
pub proof fn resolved_commits_are_gone_after(
    s: RunState,
    list: Vec<Option<String>>,
    locked: Option<Seq<char>>,
)
    requires
        s.stage == Stage::Resolving || s.stage == Stage::ResolvingAgain,
    ensures
        ({
            let next = step(s, RepoReply::Found(list), locked);
            let none = forall|i: int| 0 <= i < list@.len() ==> (#[trigger] list@[i]) is None;
            &&& !none ==> next.stage == (if s.existed {
                Stage::ReadingHead
            } else {
                Stage::CheckingOut
            }) && exists|i: int|
                {
                    &&& 0 <= i < list@.len()
                    &&& (#[trigger] list@[i]) matches Some(found) && next.desired == Some(found@)
                    &&& forall|j: int| 0 <= j < i ==> (#[trigger] list@[j]) is None
                }
            &&& none && s.stage == Stage::Resolving ==> next == (RunState {
                stage: Stage::FetchingRev,
                ..s
            })
            &&& none && s.stage == Stage::ResolvingAgain ==> next.stage == Stage::Done
                && next.ending is Unresolved && next.desired == s.desired
        }),
{
    the_first_place_decides(list@);
}

/// **A run with a refresh never resolves a revision before it has fetched**: the
/// call that fetches everything was made in the target, and succeeded.
pub proof fn refreshes_fetch_before_they_resolve(
    root: Seq<u8>,
    entry: RepoEntry,
    progress: bool,
    replies: Seq<RepoReply>,
    locked: Option<Seq<char>>,
) -> (k: int)
    requires
        ({
            let end = replied(started(root, entry, true, progress), replies, locked);
            end.stage == Stage::Resolving || end.desired is Some
        }),
    ensures
        0 <= k < replies.len(),
        replies[k] matches RepoReply::Ran(Ok(_)),
        asks(replied(started(root, entry, true, progress), replies.take(k), locked)) matches Some(
            AskView::Git { dir, args, .. },
        ) && dir == path::child(root, target_of(entry)) && args == seq![
            "fetch"@,
            "--prune"@,
            "--tags"@,
            "origin"@,
        ],
{
    let k = lemma_fetched_before(root, entry, progress, replies, locked);
    lemma_kept(root, entry, true, progress, replies.take(k), locked);
    k
}

/// Whether a run with a refresh is past its first fetch.
spec fn past_fetch(stage: Stage) -> bool {
    match stage {
        Stage::Probing | Stage::Inspecting | Stage::MakingParent | Stage::Cloning
        | Stage::Fetching | Stage::Done => false,
        _ => true,
    }
}

proof fn lemma_kept(
    root: Seq<u8>,
    entry: RepoEntry,
    refresh: bool,
    progress: bool,
    replies: Seq<RepoReply>,
    locked: Option<Seq<char>>,
)
    ensures
        ({
            let end = replied(started(root, entry, refresh, progress), replies, locked);
            &&& end.root == root
            &&& end.entry == entry
            &&& end.refresh == refresh
            &&& end.progress == progress
            &&& sound(end)
        }),
    decreases replies.len(),
{
    if replies.len() > 0 {
        lemma_kept(root, entry, refresh, progress, replies.drop_last(), locked);
    }
}

proof fn lemma_past_by_fetching(s: RunState, reply: RepoReply, locked: Option<Seq<char>>)
    requires
        s.refresh,
        !past_fetch(s.stage),
        s.desired is None,
        past_fetch(step(s, reply, locked).stage) || step(s, reply, locked).desired is Some,
    ensures
        s.stage == Stage::Fetching,
        reply matches RepoReply::Ran(Ok(_)),
{
}

proof fn lemma_fetched_before(
    root: Seq<u8>,
    entry: RepoEntry,
    progress: bool,
    replies: Seq<RepoReply>,
    locked: Option<Seq<char>>,
) -> (k: int)
    requires
        ({
            let end = replied(started(root, entry, true, progress), replies, locked);
            past_fetch(end.stage) || end.desired is Some
        }),
    ensures
        0 <= k < replies.len(),
        replies[k] matches RepoReply::Ran(Ok(_)),
        replied(started(root, entry, true, progress), replies.take(k), locked).stage
            == Stage::Fetching,
    decreases replies.len(),
{
    let start = started(root, entry, true, progress);
    if replies.len() == 0 {
        0
    } else {
        let fewer = replies.drop_last();
        let before = replied(start, fewer, locked);
        let last = replies.len() - 1;
        lemma_kept(root, entry, true, progress, fewer, locked);
        if past_fetch(before.stage) || before.desired is Some {
            let k = lemma_fetched_before(root, entry, progress, fewer, locked);
            assert(fewer.take(k) =~= replies.take(k));
            k
        } else {
            assert(replies.take(last) =~= fewer);
            lemma_past_by_fetching(before, replies.last(), locked);
            last
        }
    }
}

/// **Where HEAD is decides whether anything is left to do**: a run in a
/// repository that was there ends at once where HEAD is at its commit, and only
/// there.
pub proof fn only_head_at_the_commit_is_enough(
    s: RunState,
    head: Option<String>,
    locked: Option<Seq<char>>,
)
    requires
        sound(s),
        s.stage == Stage::ReadingHead,
    ensures
        ({
            let next = step(s, RepoReply::At(head), locked);
            let there = head matches Some(at) && s.desired == Some(at@);
            &&& there ==> next.stage == Stage::Done && next.ending == Ending::AlreadyAt(
                s.desired->0,
            )
            &&& !there ==> next == (RunState { stage: Stage::ReadingStatus, ..s })
        }),
{
}

/// **A clean copy is checked out, and a checkout that fails is tried once more**
/// after fetching. A run that comes to its end that way says so, with the commit
/// that it was after; a call that fails for good ends it with what it said.
pub proof fn checkouts_are_tried_twice(
    s: RunState,
    ran: Result<Vec<u8>, String>,
    locked: Option<Seq<char>>,
)
    requires
        sound(s),
        moves_tree(s.stage),
    ensures
        ({
            let next = step(s, RepoReply::Ran(ran), locked);
            let done = if s.existed {
                Ending::CheckedOut(s.desired->0)
            } else {
                Ending::Cloned(s.desired->0)
            };
            &&& s.stage == Stage::CheckingOut && ran is Ok ==> next.ending == done
            &&& s.stage == Stage::CheckingOut && ran is Err ==> next.stage == Stage::FetchingCommit
            &&& s.stage == Stage::FetchingCommit ==> next.stage == Stage::FetchingForCommit
            &&& s.stage == Stage::FetchingForCommit && ran is Ok ==> next.stage
                == Stage::CheckingOutAgain
            &&& s.stage == Stage::CheckingOutAgain && ran is Ok ==> next.ending == done
            &&& ran is Err && (s.stage == Stage::FetchingForCommit || s.stage
                == Stage::CheckingOutAgain) ==> next.stage == Stage::Done && next.ending
                == Ending::Git(
                if s.stage == Stage::FetchingForCommit {
                    "fetch"@
                } else {
                    "checkout"@
                },
                ran->Err_0@,
            )
            &&& next.desired == s.desired
        }),
{
}

/// **Calls that have to succeed end the run where they fail**, with what they
/// said; the others go on, and what was asked for is done in its order.
pub proof fn failures_that_matter_end_the_run(
    s: RunState,
    ran: Result<Vec<u8>, String>,
    locked: Option<Seq<char>>,
)
    requires
        sound(s),
    ensures
        ({
            let next = step(s, RepoReply::Ran(ran), locked);
            &&& ran is Err && (s.stage == Stage::Cloning || s.stage == Stage::Fetching || s.stage
                == Stage::FetchingAll || s.stage == Stage::ReadingStatus) ==> next.stage
                == Stage::Done && next.ending == Ending::Git(
                if s.stage == Stage::Cloning {
                    "clone"@
                } else if s.stage == Stage::ReadingStatus {
                    "status"@
                } else {
                    "fetch"@
                },
                ran->Err_0@,
            )
            &&& ran is Ok && s.stage == Stage::Cloning && s.refresh ==> next.stage
                == Stage::Fetching
            &&& ran is Ok && s.stage == Stage::Cloning && !s.refresh && locked is None
                ==> next.stage == Stage::Resolving
            &&& ran is Ok && s.stage == Stage::Cloning && !s.refresh && locked is Some
                ==> next.stage == Stage::CheckingOut && next.desired == locked
            &&& ran is Ok && s.stage == Stage::Fetching ==> next.stage == Stage::SettingHead
            &&& s.stage == Stage::SettingHead && s.refresh ==> next.stage == Stage::Resolving
            &&& s.stage == Stage::FetchingRev ==> next.stage == Stage::FetchingAll
            &&& ran is Ok && s.stage == Stage::FetchingAll ==> next.stage == Stage::SettingHeadAgain
            &&& s.stage == Stage::SettingHeadAgain ==> next.stage == Stage::ResolvingAgain
        }),
{
}

/// **A repository that is there is used, and fetched from where a refresh was
/// asked for**; where there is none, the target is looked at.
pub proof fn repositories_that_are_there_are_used(
    s: RunState,
    there: bool,
    locked: Option<Seq<char>>,
)
    requires
        sound(s),
        s.stage == Stage::Probing,
    ensures
        ({
            let next = step(s, RepoReply::Present(there), locked);
            &&& next.existed == there
            &&& !there ==> next.stage == Stage::Inspecting
            &&& there && s.refresh ==> next.stage == Stage::Fetching && next.desired is None
            &&& there && !s.refresh && locked is Some ==> next.stage == Stage::ReadingHead
                && next.desired == locked
            &&& there && !s.refresh && locked is None ==> next.stage == Stage::Resolving
        }),
{
}

/// **What stands at a target decides**: a target that is used is reported, one
/// that is free is cloned into once the directory above it is there.
pub proof fn spots_decide(s: RunState, spot: Spot, locked: Option<Seq<char>>)
    requires
        sound(s),
        s.stage == Stage::Inspecting,
    ensures
        ({
            let next = step(s, RepoReply::Spot(spot), locked);
            let target = path::child(s.root, target_of(s.entry));
            &&& spot is UsedDirectory || spot is Other ==> next.ending == Ending::Occupied(target)
            &&& spot matches Spot::Unreadable(message) ==> next.ending == Ending::Io(message@)
            &&& spot is Absent || spot is EmptyDirectory ==> next.stage == (if path::parent_of(
                target,
            ) is Some {
                Stage::MakingParent
            } else {
                Stage::Cloning
            }) && next.ground == (if spot is Absent {
                Ground::Free
            } else {
                Ground::Empty
            })
        }),
{
}

/// **Cloning begins once the directory above the target is there.**
pub proof fn clones_need_the_directory_above(
    s: RunState,
    failure: Option<String>,
    locked: Option<Seq<char>>,
)
    requires
        s.stage == Stage::MakingParent,
    ensures
        ({
            let made = step(s, RepoReply::Made(failure), locked);
            &&& failure is None ==> made == (RunState { stage: Stage::Cloning, ..s })
            &&& failure matches Some(message) ==> made.stage == Stage::Done && made.ending
                == Ending::Io(message@)
        }),
{
}

/// **Taking back clears the target that the run found free, and nothing else**:
/// an empty directory is made anew.
pub proof fn taking_back_clears_the_target(s: RunState)
    ensures
        ({
            let target = path::child(s.root, target_of(s.entry));
            let deeds = undoing(s);
            &&& s.ground == Ground::Unseen ==> deeds.len() == 0
            &&& s.ground == Ground::Free ==> deeds.len() == 1
            &&& s.ground == Ground::Empty ==> deeds.len() == 2 && deeds[1].0 == StepView::MakeDirs(
                target,
            )
            &&& deeds.len() > 0 ==> deeds[0].0 == StepView::RemoveTree(target)
            &&& forall|i: int| 0 <= i < deeds.len() ==> !(#[trigger] deeds[i]).1
        }),
{
}

/// **git is called in the directory, with the arguments as they are**: the two
/// settings in front, and a request for progress right behind the subcommand where
/// its output is relayed.
pub proof fn git_is_called_in_the_directory(
    dir: Seq<u8>,
    args: Seq<Seq<char>>,
    relayed: bool,
    i: int,
)
    requires
        args.len() > 0,
    ensures
        ({
            let rows = argument_rows(dir, args, relayed);
            &&& rows.len() == 4 + args.len() + (if relayed {
                1int
            } else {
                0int
            })
            &&& rows[0] == encode_utf8("-c"@)
            &&& rows[1] == encode_utf8("advice.detachedHead=false"@)
            &&& rows[2] == encode_utf8("-C"@)
            &&& rows[3] == dir
            &&& rows[4] == encode_utf8(args[0])
            &&& relayed ==> rows[5] == encode_utf8("--progress"@)
            &&& relayed && 0 < i < args.len() ==> rows[5 + i] == encode_utf8(args[i])
            &&& !relayed && 0 <= i < args.len() ==> rows[4 + i] == encode_utf8(args[i])
        }),
{
}

/// **A commit id is as many hexadecimal digits as a hash has.**
pub proof fn commit_ids_are_whole_hashes(rev: Seq<char>)
    ensures
        full_id(rev) <==> (encode_utf8(rev).len() == 40 || encode_utf8(rev).len() == 64) && forall|
            i: int,
        |
            0 <= i < encode_utf8(rev).len() ==> {
                ||| 48 <= #[trigger] encode_utf8(rev)[i] <= 57
                ||| 65 <= encode_utf8(rev)[i] <= 70
                ||| 97 <= encode_utf8(rev)[i] <= 102
            },
{
    let bytes = encode_utf8(rev);
    if full_id(rev) {
        assert forall|i: int| 0 <= i < bytes.len() implies {
            ||| 48 <= #[trigger] bytes[i] <= 57
            ||| 65 <= bytes[i] <= 70
            ||| 97 <= bytes[i] <= 102
        } by {
            assert(hex_digit(bytes[i]));
        }
    }
}

/// **A run begins with the entry as it is declared, and asks for nothing where the
/// target would leave the root.**
pub proof fn runs_begin_with_the_entry(
    root: Seq<u8>,
    entry: RepoEntry,
    refresh: bool,
    progress: bool,
)
    ensures
        ({
            let s = started(root, entry, refresh, progress);
            let kept = path::within_root(encode_utf8(target_of(entry)));
            &&& s.root == root && s.entry == entry
            &&& s.refresh == refresh && s.progress == progress
            &&& s.desired is None
            &&& kept ==> s.ending is Pending && asks(s) == Some(
                AskView::Probe(
                    path::child(path::child(root, target_of(entry)), ".git"@),
                ),
            )
            &&& !kept ==> asks(s) is None && s.ending == Ending::Escaped(target_of(entry))
        }),
{
}

/// **What is said of a commit or a path holds all of it**, and what is said of two
/// tells which is which.
pub proof fn messages_hold_what_they_are_about(commit: String, path: FsPath, entry: RepoEntry)
    ensures
        text::ends(apply_status_text(ApplyStatus::Cloned(commit)), commit@),
        text::ends(apply_status_text(ApplyStatus::CheckedOut(commit)), commit@),
        text::ends(apply_status_text(ApplyStatus::AlreadyAt(commit)), commit@),
        text::holds(apply_status_text(ApplyStatus::SkippedDirty { desired: commit }), commit@),
        text::ends(repo_error_text(RepoError::EscapedTarget(commit)), commit@),
        text::holds(repo_error_text(RepoError::Occupied(path)), text::lossy_text(path@)),
        text::holds(summary_of(entry), entry.url@),
        text::holds(summary_of(entry), name_of(entry)),
        text::holds(summary_of(entry), target_of(entry)),
        entry.rev matches Some(rev) ==> text::ends(summary_of(entry), rev@),
        entry.rev is None ==> text::ends(summary_of(entry), "(floating)"@),
        text::holds(unresolved_text(entry), entry.url@),
        entry.rev matches Some(rev) ==> text::holds(
            unresolved_text(entry),
            text::debug_text(rev@),
        ),
{
    lemma_ends("cloned at "@, commit@);
    lemma_ends("checked out "@, commit@);
    lemma_ends("already at "@, commit@);
    lemma_ends("target escapes workspace root: "@, commit@);
    text::lemma_holds_middle("skipped: dirty working copy (wanted "@, commit@, ")"@);
    let occupied = repo_error_text(RepoError::Occupied(path));
    let behind =
        " (target names the repository itself, not its parent; only empty directories are cloned into)"@;
    text::lemma_holds_middle(
        "target exists and is not a git repository: "@,
        text::lossy_text(path@),
        behind,
    );
    let rev = match entry.rev {
        Some(rev) => rev@,
        None => "(floating)"@,
    };
    let whole = summary_of(entry);
    let name = name_of(entry);
    let target = target_of(entry);
    let after_target = " rev="@ + rev;
    let after_url = " target="@ + target + after_target;
    let after_name = "\" url="@ + entry.url@ + after_url;
    text::lemma_holds_middle("\""@, name, after_name);
    assert(whole =~= "\""@ + name + after_name);
    let before_url = "\""@ + name + "\" url="@;
    text::lemma_holds_middle(before_url, entry.url@, after_url);
    assert(whole =~= before_url + entry.url@ + after_url);
    let before_target = before_url + entry.url@ + " target="@;
    text::lemma_holds_middle(before_target, target, after_target);
    assert(whole =~= before_target + target + after_target);
    lemma_ends(before_target + target + " rev="@, rev);
    assert(whole =~= (before_target + target + " rev="@) + rev);
    match entry.rev {
        Some(rev) => {
            let end = " not found after fetch; expected a branch, tag, or full commit id"@;
            let after = " of "@ + entry.url@ + end;
            text::lemma_holds_middle("revision "@, text::debug_text(rev@), after);
            assert(unresolved_text(entry) =~= "revision "@ + text::debug_text(rev@) + after);
            text::lemma_holds_middle(
                "revision "@ + text::debug_text(rev@) + " of "@,
                entry.url@,
                end,
            );
        },
        None => {
            text::lemma_holds_middle("no default branch found for "@, entry.url@, ""@);
            reveal_strlit("");
            assert(unresolved_text(entry) =~= "no default branch found for "@ + entry.url@ + ""@);
        },
    }
}

proof fn lemma_ends(before: Seq<char>, after: Seq<char>)
    ensures
        text::ends(before + after, after),
{
    assert((before + after).skip(before.len() as int) =~= after);
}

} // verus!
