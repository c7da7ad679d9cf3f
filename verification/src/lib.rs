//! jjunction — tools for the Jujutsu (jj) version control system.
//!
//! The library decides what is to be done to a workspace; its caller looks at
//! the disk, runs `git` and `direnv`, and reports back what it saw. Every
//! function states what it decides, and the statements are proved.

pub mod cli;
pub mod config;
pub mod files;
pub mod hooks;
pub mod link;
pub mod lock;
pub mod order;
pub mod path;
pub mod repo;
pub mod text;
pub mod toml;
pub mod workspace;

use vstd::prelude::*;

use path::FsPath;

verus! {

/// `start` and the paths above it, from the bottom up.
pub open spec fn upward(start: Seq<u8>) -> Seq<Seq<u8>>
    decreases start.len(),
{
    match path::parent_of(start) {
        Some(above) => if above.len() < start.len() {
            seq![start] + upward(above)
        } else {
            seq![start]
        },
        None => seq![start],
    }
}

/// `start` and the paths above it, from the bottom up.
pub fn ancestors(start: &FsPath) -> (list: Vec<FsPath>)
    ensures
        path::views(list@) == upward(start@),
{
    let mut list: Vec<FsPath> = Vec::new();
    let mut current = start.clone();
    assert(path::views(list@) + upward(current@) =~= upward(start@));
    loop
        invariant_except_break
            path::views(list@) + upward(current@) == upward(start@),
        ensures
            path::views(list@) == upward(start@),
        decreases current@.len(),
    {
        let above = current.parent();
        let ghost before = path::views(list@);
        let ghost at = current@;
        list.push(current);
        assert(path::views(list@) =~= before.push(at));
        match above {
            Some(above) => {
                proof {
                    path::lemma_parent_is_shorter(at);
                    assert(before + (seq![at] + upward(above@)) =~= before.push(at) + upward(
                        above@,
                    ));
                }
                current = above;
            },
            None => {
                assert(before + seq![at] =~= before.push(at));
                break;
            },
        }
    }
    list
}

/// What stands at a path; links are followed.
#[derive(Debug, Clone, Copy, PartialEq, Eq, Structural)]
pub enum Standing {
    /// Nothing.
    Nothing,
    /// A directory.
    Directory,
    /// Anything else.
    Other,
}

/// What was seen in a directory on the way up.
#[derive(Debug, Clone, Copy, PartialEq, Eq, Structural)]
pub struct MarkSight {
    /// What stands at `.jj`.
    pub jj: Standing,
    /// What stands at `.jjunction`.
    pub jjunction: Standing,
}

/// Whether a directory is marked as a workspace root: only a directory marks it.
pub open spec fn marked(sight: MarkSight) -> bool {
    sight.jj == Standing::Directory || sight.jjunction == Standing::Directory
}

/// The index of the first marked directory, or the number of directories.
pub open spec fn first_marked(sights: Seq<MarkSight>) -> int
    decreases sights.len(),
{
    if sights.len() == 0 || marked(sights[0]) {
        0
    } else {
        1 + first_marked(sights.skip(1))
    }
}

/// The workspace root that a path belongs to: the nearest marked directory at
/// or above it.
pub open spec fn workspace_root(start: Seq<u8>, sights: Seq<MarkSight>) -> Option<Seq<u8>> {
    let i = first_marked(sights);
    if 0 <= i < sights.len() && i < upward(start).len() {
        Some(upward(start)[i])
    } else {
        None
    }
}

/// **The nearest marked directory is found**: the directories below it are not
/// marked.
pub proof fn the_nearest_root_is_found(sights: Seq<MarkSight>)
    ensures
        0 <= first_marked(sights) <= sights.len(),
        first_marked(sights) < sights.len() ==> marked(sights[first_marked(sights)]),
        forall|i: int| 0 <= i < first_marked(sights) ==> !marked(#[trigger] sights[i]),
    decreases sights.len(),
{
    if sights.len() > 0 && !marked(sights[0]) {
        let rest = sights.skip(1);
        the_nearest_root_is_found(rest);
        assert forall|i: int| 0 <= i < first_marked(sights) implies !marked(#[trigger] sights[i]) by {
            if i > 0 {
                assert(sights[i] == rest[i - 1]);
            }
        }
    }
}

/// Searches upwards from `start` for a workspace root: the first ancestor
/// containing a `.jj` or `.jjunction` directory, going by what was seen in each
/// of the [`ancestors`].
pub fn find_workspace_root(start: &FsPath, sights: &[MarkSight]) -> (root: Option<FsPath>)
    requires
        sights@.len() == upward(start@).len(),
    ensures
        match root {
            Some(root) => workspace_root(start@, sights@) == Some(root@),
            None => workspace_root(start@, sights@) is None,
        },
{
    let list = ancestors(start);
    let mut i: usize = 0;
    assert(sights@.skip(0) =~= sights@);
    while i < sights.len()
        invariant
            i <= sights@.len() == list@.len(),
            path::views(list@) == upward(start@),
            first_marked(sights@) == i + first_marked(sights@.skip(i as int)),
        decreases sights@.len() - i,
    {
        assert(sights@.skip(i as int)[0] == sights@[i as int]);
        if sights[i].jj == Standing::Directory || sights[i].jjunction == Standing::Directory {
            assert(marked(sights@[i as int]));
            assert(path::views(list@)[i as int] == list@[i as int]@);
            return Some(list[i].clone());
        }
        assert(sights@.skip(i as int).skip(1) =~= sights@.skip(i + 1));
        i = i + 1;
    }
    None
}

/// **The places that are looked at begin at the start and go up**, each the one
/// above the one before, until nothing is above.
pub proof fn ancestors_go_up(start: Seq<u8>, i: int)
    requires
        0 <= i < upward(start).len(),
    ensures
        upward(start)[0] == start,
        i + 1 < upward(start).len() ==> path::parent_of(upward(start)[i]) == Some(
            upward(start)[i + 1],
        ),
        i + 1 == upward(start).len() ==> path::parent_of(upward(start)[i]) is None,
    decreases start.len(),
{
    if let Some(above) = path::parent_of(start) {
        path::lemma_parent_is_shorter(start);
        let rest = upward(above);
        assert(upward(start) == seq![start] + rest);
        if i > 0 {
            ancestors_go_up(above, i - 1);
            assert(upward(start)[i] == rest[i - 1]);
            assert(i + 1 < upward(start).len() ==> upward(start)[i + 1] == rest[i]);
        } else {
            assert(rest.len() > 0) by {
                assert(upward(above).len() > 0);
            }
            ancestors_go_up(above, 0);
            assert(upward(start)[1] == rest[0]);
        }
    }
}

/// **The root is the nearest place with a `.jj` or a `.jjunction` directory**; what
/// is no directory is no mark, and without a mark there is no root.
pub proof fn the_root_has_the_nearest_mark(start: Seq<u8>, sights: Seq<MarkSight>, i: int)
    requires
        sights.len() == upward(start).len(),
        0 <= i < sights.len(),
    ensures
        sights[i].jj == Standing::Directory || sights[i].jjunction == Standing::Directory ==> {
            &&& workspace_root(start, sights) is Some
            &&& (forall|j: int|
                0 <= j < i ==> (#[trigger] sights[j]).jj != Standing::Directory && sights[j].jjunction
                    != Standing::Directory) ==> workspace_root(start, sights) == Some(
                upward(start)[i],
            )
        },
        (forall|j: int|
            0 <= j < sights.len() ==> (#[trigger] sights[j]).jj != Standing::Directory
                && sights[j].jjunction != Standing::Directory) ==> workspace_root(start, sights) is None,
{
    the_nearest_root_is_found(sights);
    let found = first_marked(sights);
    if found > i {
        assert(!marked(sights[i]));
    }
    if found < sights.len() {
        assert(marked(sights[found]));
    }
}

} // verus!
