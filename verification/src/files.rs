//! What is seen of the filesystem, and what is asked to be done to it.
//!
//! The library decides; it never touches a disk. A function that depends on
//! the disk takes what was seen there, and hands back [`Deed`]s for its caller
//! to perform in order.

use vstd::prelude::*;

use crate::path;
use crate::path::FsPath;

verus! {

/// A file that was asked for.
#[derive(Debug)]
pub enum FileRead {
    /// There is no such file.
    Absent,
    /// What the file holds.
    Text(String),
    /// The file could not be read; the message says why.
    Unreadable(String),
}

impl Clone for FileRead {
    fn clone(&self) -> (copy: FileRead)
        ensures
            copy == *self,
    {
        match self {
            FileRead::Absent => FileRead::Absent,
            FileRead::Text(content) => FileRead::Text(content.clone()),
            FileRead::Unreadable(message) => FileRead::Unreadable(message.clone()),
        }
    }
}

/// What stands at a path; links are not followed.
#[derive(Debug)]
pub enum Site {
    /// Nothing.
    Absent,
    /// A symbolic link, with what it points at.
    Link(FsPath),
    /// A symbolic link that could not be read; the message says why.
    BadLink(String),
    /// A real directory.
    Directory,
    /// A real file, or anything else that is neither a link nor a directory.
    File,
    /// It could not be looked at; the message says why.
    Unreadable(String),
}

/// One change to the filesystem.
#[derive(Debug)]
pub enum Step {
    /// Removes a file or a link.
    RemoveFile(FsPath),
    /// Removes a directory with everything in it.
    RemoveTree(FsPath),
    /// Makes a directory, with all the directories above it.
    MakeDirs(FsPath),
    /// Makes a symbolic link.
    Symlink {
        /// What it points at.
        source: FsPath,
        /// Where it stands.
        at: FsPath,
    },
    /// Writes a file, replacing what it held.
    Write {
        /// The file.
        path: FsPath,
        /// What it is to hold.
        content: String,
    },
}

/// One change, and whether the ones after it depend on its success.
#[derive(Debug)]
pub struct Deed {
    /// The change.
    pub step: Step,
    /// Whether its failure ends the plan; otherwise a failure is ignored.
    pub required: bool,
}

/// A [`Step`] by value.
pub enum StepView {
    /// See [`Step::RemoveFile`].
    RemoveFile(Seq<u8>),
    /// See [`Step::RemoveTree`].
    RemoveTree(Seq<u8>),
    /// See [`Step::MakeDirs`].
    MakeDirs(Seq<u8>),
    /// See [`Step::Symlink`].
    Symlink(Seq<u8>, Seq<u8>),
    /// See [`Step::Write`].
    Write(Seq<u8>, Seq<char>),
}

/// A [`Step`] by value.
pub open spec fn step_view(step: Step) -> StepView {
    match step {
        Step::RemoveFile(path) => StepView::RemoveFile(path@),
        Step::RemoveTree(path) => StepView::RemoveTree(path@),
        Step::MakeDirs(path) => StepView::MakeDirs(path@),
        Step::Symlink { source, at } => StepView::Symlink(source@, at@),
        Step::Write { path, content } => StepView::Write(path@, content@),
    }
}

/// The changes by value, each with whether it is required.
pub open spec fn deed_views(deeds: Seq<Deed>) -> Seq<(StepView, bool)> {
    deeds.map_values(|d: Deed| (step_view(d.step), d.required))
}

/// A [`Site`] by value.
pub enum SiteView {
    /// See [`Site::Absent`].
    Absent,
    /// See [`Site::Link`].
    Link(Seq<u8>),
    /// See [`Site::BadLink`].
    BadLink(Seq<char>),
    /// See [`Site::Directory`].
    Directory,
    /// See [`Site::File`].
    File,
    /// See [`Site::Unreadable`].
    Unreadable(Seq<char>),
}

impl View for Site {
    type V = SiteView;

    open spec fn view(&self) -> SiteView {
        match *self {
            Site::Absent => SiteView::Absent,
            Site::Link(found) => SiteView::Link(found@),
            Site::BadLink(message) => SiteView::BadLink(message@),
            Site::Directory => SiteView::Directory,
            Site::File => SiteView::File,
            Site::Unreadable(message) => SiteView::Unreadable(message@),
        }
    }
}

/// Making the directories above a path.
pub open spec fn above(at: Seq<u8>, required: bool) -> Seq<(StepView, bool)> {
    match path::parent_of(at) {
        Some(parent) => seq![(StepView::MakeDirs(parent), required)],
        None => Seq::empty(),
    }
}

/// Makes the directories above `at`.
pub(crate) fn make_above(at: &FsPath, required: bool) -> (deeds: Vec<Deed>)
    ensures
        deed_views(deeds@) == above(at@, required),
{
    let mut deeds: Vec<Deed> = Vec::new();
    if let Some(parent) = at.parent() {
        deeds.push(Deed { step: Step::MakeDirs(parent), required });
    }
    assert(deed_views(deeds@) =~= above(at@, required));
    deeds
}

/// Appends a change to a plan.
pub(crate) fn then_do(deeds: &mut Vec<Deed>, step: Step, required: bool)
    ensures
        deed_views(final(deeds)@) == deed_views(old(deeds)@).push((step_view(step), required)),
{
    let ghost before = deeds@;
    deeds.push(Deed { step, required });
    assert(deed_views(deeds@) =~= deed_views(before).push((step_view(step), required)));
}

/// Writes `content` to the file at `path`, making the directories above it.
pub fn save_file(path: &FsPath, content: String) -> (deeds: Vec<Deed>)
    ensures
        deed_views(deeds@) == above(path@, true).push((StepView::Write(path@, content@), true)),
{
    let mut deeds = make_above(path, true);
    then_do(&mut deeds, Step::Write { path: path.clone(), content }, true);
    deeds
}

// ---------------------------------------------------------------------------
// What the changes do
// ---------------------------------------------------------------------------

/// A filesystem, as far as it matters here: what stands at each path. Paths
/// with the same parts are the same place, so places are rows of parts.
pub type Disk = Map<Seq<Seq<u8>>, SiteView>;

/// What is seen at a path.
pub open spec fn seen(disk: Disk, at: Seq<u8>) -> SiteView {
    let place = path::parts(at);
    if disk.dom().contains(place) {
        disk[place]
    } else {
        SiteView::Absent
    }
}

/// Whether a place is a directory or inside it.
pub open spec fn inside(dir: Seq<Seq<u8>>, place: Seq<Seq<u8>>) -> bool {
    dir.len() <= place.len() && place.take(dir.len() as int) == dir
}

/// Whether one disk has all that the other has, and besides nothing but
/// directories on the way to a path.
pub open spec fn more_directories(before: Disk, at: Seq<u8>, after: Disk) -> bool {
    &&& forall|place: Seq<Seq<u8>>|
        #[trigger] before.dom().contains(place) ==> after.dom().contains(place) && after[place]
            == before[place]
    &&& forall|place: Seq<Seq<u8>>| #[trigger]
        after.dom().contains(place) && !before.dom().contains(place) ==> after[place] is Directory
            && inside(place, path::parts(at))
}

/// What a change that succeeds does. Making a directory makes those above it that
/// are not there, and touches nothing that is.
pub open spec fn succeeds(before: Disk, step: StepView, after: Disk) -> bool {
    match step {
        StepView::RemoveFile(at) => {
            &&& seen(before, at) is Link || seen(before, at) is File || seen(before, at) is BadLink
            &&& after == before.remove(path::parts(at))
        },
        StepView::RemoveTree(at) => {
            &&& seen(before, at) is Directory
            &&& forall|place: Seq<Seq<u8>>| #[trigger]
                after.dom().contains(place) <==> before.dom().contains(place) && !inside(
                    path::parts(at),
                    place,
                )
            &&& forall|place: Seq<Seq<u8>>| #[trigger]
                after.dom().contains(place) ==> after[place] == before[place]
        },
        StepView::MakeDirs(at) => {
            &&& seen(after, at) is Directory || seen(after, at) is Link
            &&& more_directories(before, at, after)
        },
        StepView::Symlink(source, at) => {
            &&& seen(before, at) is Absent
            &&& after == before.insert(path::parts(at), SiteView::Link(source))
        },
        StepView::Write(at, content) => {
            &&& !(seen(before, at) is Directory)
            &&& after == (if seen(before, at) is Link {
                before
            } else {
                before.insert(path::parts(at), SiteView::File)
            })
        },
    }
}

/// What a plan does when all its changes succeed.
pub open spec fn carried_out(before: Disk, deeds: Seq<(StepView, bool)>, after: Disk) -> bool
    decreases deeds.len(),
{
    if deeds.len() == 0 {
        after == before
    } else {
        exists|middle: Disk|
            carried_out(before, deeds.drop_last(), middle) && #[trigger] succeeds(
                middle,
                deeds.last().0,
                after,
            )
    }
}

/// A plan comes down to its last change.
pub proof fn lemma_last_change(before: Disk, deeds: Seq<(StepView, bool)>, after: Disk) -> (middle:
    Disk)
    requires
        deeds.len() > 0,
        carried_out(before, deeds, after),
    ensures
        carried_out(before, deeds.drop_last(), middle),
        succeeds(middle, deeds.last().0, after),
{
    choose|middle: Disk|
        carried_out(before, deeds.drop_last(), middle) && #[trigger] succeeds(
            middle,
            deeds.last().0,
            after,
        )
}

/// A plan that ends by making a link leaves the link there.
pub proof fn lemma_link_is_made(
    before: Disk,
    deeds: Seq<(StepView, bool)>,
    source: Seq<u8>,
    at: Seq<u8>,
    after: Disk,
)
    requires
        deeds.len() > 0,
        deeds.last().0 == StepView::Symlink(source, at),
        carried_out(before, deeds, after),
    ensures
        seen(after, at) == SiteView::Link(source),
{
}

// ---------------------------------------------------------------------------
// Plans that may fail
// ---------------------------------------------------------------------------

/// What a change that fails leaves: some of the directories may have been made,
/// something of a tree may be gone, a file may have been written in part.
pub open spec fn fails(before: Disk, step: StepView, after: Disk) -> bool {
    match step {
        StepView::RemoveFile(_) | StepView::Symlink(_, _) => after == before,
        StepView::RemoveTree(at) => {
            &&& forall|place: Seq<Seq<u8>>| #[trigger]
                after.dom().contains(place) ==> before.dom().contains(place) && after[place]
                    == before[place]
            &&& forall|place: Seq<Seq<u8>>|
                #[trigger] before.dom().contains(place) && !inside(path::parts(at), place)
                    ==> after.dom().contains(place)
        },
        StepView::MakeDirs(at) => more_directories(before, at, after),
        StepView::Write(_, _) => after == before || succeeds(before, step, after),
    }
}

/// What carrying out a plan may come to: the changes are made in order, up to
/// the first required one that fails.
pub open spec fn performed(
    before: Disk,
    deeds: Seq<(StepView, bool)>,
    failed: bool,
    after: Disk,
) -> bool
    decreases deeds.len(),
{
    if deeds.len() == 0 {
        !failed && after == before
    } else {
        ||| exists|middle: Disk|
            performed(middle, deeds.skip(1), failed, after) && #[trigger] succeeds(
                before,
                deeds[0].0,
                middle,
            )
        ||| exists|middle: Disk|
            (if deeds[0].1 {
                failed && after == middle
            } else {
                performed(middle, deeds.skip(1), failed, after)
            }) && #[trigger] fails(before, deeds[0].0, middle)
    }
}

/// Whether a plan makes and removes links at one path only; directories aside.
pub open spec fn only_at(deeds: Seq<(StepView, bool)>, at: Seq<u8>) -> bool {
    forall|k: int|
        0 <= k < deeds.len() ==> match (#[trigger] deeds[k]).0 {
            StepView::RemoveFile(path) => path::parts(path) == path::parts(at),
            StepView::Symlink(_, path) => path::parts(path) == path::parts(at),
            StepView::MakeDirs(_) => true,
            _ => false,
        }
}

/// Whether links can stand side by side: none of the paths lies inside another,
/// and where two are the same, they lead to the same.
pub open spec fn side_by_side(links: Seq<(Seq<u8>, Seq<u8>)>) -> bool {
    forall|i: int, j: int|
        #![trigger links[i], links[j]]
        0 <= i < links.len() && 0 <= j < links.len() && inside(
            path::parts(links[i].0),
            path::parts(links[j].0),
        ) ==> path::parts(links[i].0) == path::parts(links[j].0) && path::same_path(
            links[i].1,
            links[j].1,
        )
}

/// What stands elsewhere stays.
pub proof fn lemma_elsewhere_stays(
    before: Disk,
    deeds: Seq<(StepView, bool)>,
    failed: bool,
    after: Disk,
    at: Seq<u8>,
    place: Seq<Seq<u8>>,
)
    requires
        performed(before, deeds, failed, after),
        only_at(deeds, at),
        place != path::parts(at),
        before.dom().contains(place),
    ensures
        after.dom().contains(place),
        after[place] == before[place],
    decreases deeds.len(),
{
    if deeds.len() > 0 {
        let rest = deeds.skip(1);
        assert forall|k: int| 0 <= k < rest.len() implies match (#[trigger] rest[k]).0 {
            StepView::RemoveFile(path) => path::parts(path) == path::parts(at),
            StepView::Symlink(_, path) => path::parts(path) == path::parts(at),
            StepView::MakeDirs(_) => true,
            _ => false,
        } by {
            assert(rest[k] == deeds[k + 1]);
        }
        if exists|middle: Disk|
            performed(middle, rest, failed, after) && #[trigger] succeeds(
                before,
                deeds[0].0,
                middle,
            ) {
            let middle = choose|middle: Disk|
                performed(middle, rest, failed, after) && #[trigger] succeeds(
                    before,
                    deeds[0].0,
                    middle,
                );
            assert(middle.dom().contains(place) && middle[place] == before[place]);
            lemma_elsewhere_stays(middle, rest, failed, after, at, place);
        } else {
            let middle = choose|middle: Disk|
                (if deeds[0].1 {
                    failed && after == middle
                } else {
                    performed(middle, rest, failed, after)
                }) && #[trigger] fails(before, deeds[0].0, middle);
            assert(middle.dom().contains(place) && middle[place] == before[place]);
            if !deeds[0].1 {
                lemma_elsewhere_stays(middle, rest, failed, after, at, place);
            }
        }
    }
}

/// Whether a plan makes and removes links at one path only, and directories on
/// the way to it.
pub open spec fn only_towards(deeds: Seq<(StepView, bool)>, at: Seq<u8>) -> bool {
    forall|k: int|
        0 <= k < deeds.len() ==> match (#[trigger] deeds[k]).0 {
            StepView::RemoveFile(path) => path::parts(path) == path::parts(at),
            StepView::Symlink(_, path) => path::parts(path) == path::parts(at),
            StepView::MakeDirs(path) => inside(path::parts(path), path::parts(at)),
            _ => false,
        }
}

/// What is inside something that is inside a third is inside that too.
proof fn lemma_inside(a: Seq<Seq<u8>>, b: Seq<Seq<u8>>, c: Seq<Seq<u8>>)
    requires
        inside(a, b),
        inside(b, c),
    ensures
        inside(a, c),
{
    assert(c.take(a.len() as int) =~= b.take(a.len() as int));
}

/// Off the way to a path, what stands or does not stand there stays so.
pub proof fn lemma_off_the_way(
    before: Disk,
    deeds: Seq<(StepView, bool)>,
    failed: bool,
    after: Disk,
    at: Seq<u8>,
    other: Seq<u8>,
)
    requires
        performed(before, deeds, failed, after),
        only_towards(deeds, at),
        !inside(path::parts(other), path::parts(at)),
    ensures
        seen(after, other) == seen(before, other),
    decreases deeds.len(),
{
    let place = path::parts(other);
    assert(place != path::parts(at)) by {
        assert(place.take(place.len() as int) =~= place);
    }
    if deeds.len() > 0 {
        let rest = deeds.skip(1);
        assert forall|k: int| 0 <= k < rest.len() implies match (#[trigger] rest[k]).0 {
            StepView::RemoveFile(path) => path::parts(path) == path::parts(at),
            StepView::Symlink(_, path) => path::parts(path) == path::parts(at),
            StepView::MakeDirs(path) => inside(path::parts(path), path::parts(at)),
            _ => false,
        } by {
            assert(rest[k] == deeds[k + 1]);
        }
        if let StepView::MakeDirs(path) = deeds[0].0 {
            if inside(place, path::parts(path)) {
                lemma_inside(place, path::parts(path), path::parts(at));
            }
        }
        if exists|middle: Disk|
            performed(middle, rest, failed, after) && #[trigger] succeeds(
                before,
                deeds[0].0,
                middle,
            ) {
            let middle = choose|middle: Disk|
                performed(middle, rest, failed, after) && #[trigger] succeeds(
                    before,
                    deeds[0].0,
                    middle,
                );
            assert(seen(middle, other) == seen(before, other));
            lemma_off_the_way(middle, rest, failed, after, at, other);
        } else {
            let middle = choose|middle: Disk|
                (if deeds[0].1 {
                    failed && after == middle
                } else {
                    performed(middle, rest, failed, after)
                }) && #[trigger] fails(before, deeds[0].0, middle);
            assert(seen(middle, other) == seen(before, other));
            if !deeds[0].1 {
                lemma_off_the_way(middle, rest, failed, after, at, other);
            }
        }
    }
}

/// A plan that ends by making a link, and does not fail, leaves the link there.
pub proof fn lemma_link_is_performed(
    before: Disk,
    deeds: Seq<(StepView, bool)>,
    after: Disk,
    source: Seq<u8>,
    at: Seq<u8>,
)
    requires
        performed(before, deeds, false, after),
        deeds.len() > 0,
        deeds.last() == (StepView::Symlink(source, at), true),
    ensures
        after.dom().contains(path::parts(at)),
        after[path::parts(at)] == SiteView::Link(source),
    decreases deeds.len(),
{
    let rest = deeds.skip(1);
    if deeds.len() == 1 {
        let middle = choose|middle: Disk|
            performed(middle, rest, false, after) && #[trigger] succeeds(
                before,
                deeds[0].0,
                middle,
            );
        assert(after == middle);
    } else {
        assert(rest.last() == deeds.last());
        if exists|middle: Disk|
            performed(middle, rest, false, after) && #[trigger] succeeds(
                before,
                deeds[0].0,
                middle,
            ) {
            let middle = choose|middle: Disk|
                performed(middle, rest, false, after) && #[trigger] succeeds(
                    before,
                    deeds[0].0,
                    middle,
                );
            lemma_link_is_performed(middle, rest, after, source, at);
        } else {
            let middle = choose|middle: Disk|
                (if deeds[0].1 {
                    false && after == middle
                } else {
                    performed(middle, rest, false, after)
                }) && #[trigger] fails(before, deeds[0].0, middle);
            lemma_link_is_performed(middle, rest, after, source, at);
        }
    }
}

/// Whether what stands at a path is a link that leads to `source`.
pub open spec fn leads_to(disk: Disk, at: Seq<u8>, source: Seq<u8>) -> bool {
    seen(disk, at) matches SiteView::Link(found) && path::same_path(found, source)
}

/// A link that is in place stays while another one is seen to, which goes by what
/// it finds: where that is a link to the right place, it does nothing.
pub proof fn lemma_link_stays(
    links: Seq<(Seq<u8>, Seq<u8>)>,
    i: int,
    k: int,
    before: Disk,
    deeds: Seq<(StepView, bool)>,
    failed: bool,
    after: Disk,
)
    requires
        side_by_side(links),
        0 <= i < links.len(),
        0 <= k < links.len(),
        leads_to(before, links[i].0, links[i].1),
        performed(before, deeds, failed, after),
        only_at(deeds, links[k].0),
        leads_to(before, links[k].0, links[k].1) ==> deeds.len() == 0,
    ensures
        leads_to(after, links[i].0, links[i].1),
        seen(after, links[i].0) == seen(before, links[i].0),
{
    let place = path::parts(links[i].0);
    if place == path::parts(links[k].0) {
        assert(inside(place, path::parts(links[k].0))) by {
            assert(place.take(place.len() as int) =~= place);
        }
    } else {
        lemma_elsewhere_stays(before, deeds, failed, after, links[k].0, place);
    }
}

/// One place below another, and a second one below the same or another.
pub proof fn lemma_below(
    a: Seq<Seq<u8>>,
    below_a: Seq<Seq<u8>>,
    b: Seq<Seq<u8>>,
    below_b: Seq<Seq<u8>>,
)
    requires
        inside(a + below_a, b + below_b),
    ensures
        inside(a, b) || inside(b, a),
        a == b ==> inside(below_a, below_b),
{
    let upper = a + below_a;
    let lower = b + below_b;
    assert forall|i: int| 0 <= i < upper.len() implies upper[i] == #[trigger] lower[i] by {
        assert(lower.take(upper.len() as int)[i] == lower[i]);
    }
    if a.len() <= b.len() {
        assert forall|i: int| 0 <= i < a.len() implies b.take(a.len() as int)[i] == a[i] by {
            assert(upper[i] == lower[i]);
        }
        assert(b.take(a.len() as int) =~= a);
    } else {
        assert forall|i: int| 0 <= i < b.len() implies a.take(b.len() as int)[i] == b[i] by {
            assert(upper[i] == lower[i]);
        }
        assert(a.take(b.len() as int) =~= b);
    }
    if a == b {
        assert forall|i: int| 0 <= i < below_a.len() implies below_b.take(
            below_a.len() as int,
        )[i] == below_a[i] by {
            assert(upper[a.len() + i] == lower[a.len() + i]);
        }
        assert(below_b.take(below_a.len() as int) =~= below_a);
    }
}

} // verus!
