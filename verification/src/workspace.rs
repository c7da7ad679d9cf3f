//! Workspace enumeration and cross-workspace sync.
//!
//! [`list`] decides what the workspaces of a repo are from what was seen of
//! it. [`sync_workspaces`] mirrors files from the default workspace into the
//! others and applies the `direnv allow` policy — so secondary workspaces get
//! a working devenv/direnv setup without anyone manually running
//! `direnv allow` there.

use vstd::prelude::*;
use vstd::utf8::encode_utf8;

use crate::config::files_of;
use crate::config::AllowPolicy;
use crate::config::WorkspaceConfig;
use crate::files;
use crate::files::Deed;
use crate::files::Disk;
use crate::files::Site;
use crate::files::SiteView;
use crate::files::Step;
use crate::files::StepView;
use crate::order;
use crate::path;
use crate::path::FsPath;
use crate::text;

verus! {

/// Files mirrored into every non-default workspace when `[workspace].sync`
/// is not configured.
pub const DEFAULT_SYNC_FILES: [&'static str; 4] = [
    ".envrc",
    "devenv.nix",
    "devenv.yaml",
    "devenv.lock",
];

/// One workspace of the current jj repo.
#[derive(Debug, PartialEq, Eq)]
pub struct WorkspaceInfo {
    /// Workspace name as recorded by jj.
    pub name: String,
    /// Absolute workspace root directory.
    pub root: FsPath,
    /// True for the default workspace holding the repo itself (its `.jj/repo`
    /// is a directory; other workspaces carry a pointer file instead).
    pub is_default: bool,
}

impl Clone for WorkspaceInfo {
    fn clone(&self) -> (copy: WorkspaceInfo)
        ensures
            copy.name == self.name,
            copy.root@ == self.root@,
            copy.is_default == self.is_default,
    {
        WorkspaceInfo {
            name: self.name.clone(),
            root: self.root.clone(),
            is_default: self.is_default,
        }
    }
}

/// Errors while enumerating workspaces.
#[derive(Debug, PartialEq, Eq)]
pub enum WorkspaceError {
    /// No `.jj` directory at or below the given path.
    NoRepo(FsPath),
    /// The repo could not be loaded (wrong jj version, corrupted repo, …).
    Load(String),
}

/// A [`WorkspaceError`] by value.
pub enum WorkspaceErrorView {
    /// See [`WorkspaceError::NoRepo`].
    NoRepo(Seq<u8>),
    /// See [`WorkspaceError::Load`].
    Load(Seq<char>),
}

impl View for WorkspaceError {
    type V = WorkspaceErrorView;

    open spec fn view(&self) -> WorkspaceErrorView {
        match *self {
            WorkspaceError::NoRepo(path) => WorkspaceErrorView::NoRepo(path@),
            WorkspaceError::Load(message) => WorkspaceErrorView::Load(message@),
        }
    }
}

/// How an error describes itself.
pub open spec fn workspace_error_text(err: WorkspaceErrorView) -> Seq<char> {
    match err {
        WorkspaceErrorView::NoRepo(path) => "no jj repo at "@ + text::lossy_text(path),
        WorkspaceErrorView::Load(message) => "could not load repo: "@ + message,
    }
}

impl WorkspaceError {
    /// The error as text.
    pub fn message(&self) -> (message: String)
        ensures
            message@ == workspace_error_text(self@),
    {
        match self {
            WorkspaceError::NoRepo(path) => "no jj repo at ".to_owned().concat(
                path.display().as_str(),
            ),
            WorkspaceError::Load(message) => "could not load repo: ".to_owned().concat(
                message.as_str(),
            ),
        }
    }
}

// ---------------------------------------------------------------------------
// Listing
// ---------------------------------------------------------------------------

/// What stands at `.jj/repo`: a directory in the default workspace; in other
/// workspaces a file with a relative path to the real repo dir.
#[derive(Debug)]
pub enum RepoPointer {
    /// A directory.
    Directory,
    /// A file, with what it holds.
    File(Vec<u8>),
    /// A file that could not be read; the message says why.
    Unreadable(String),
    /// Neither.
    Missing,
}

/// Where a pointer file points, taken from the `.jj` directory.
pub open spec fn pointed_at(jj_dir: Seq<u8>, content: Seq<u8>) -> Seq<u8> {
    path::child(jj_dir, text::trim(text::lossy_text(content)))
}

/// Where a pointer file points, taken from the `.jj` directory.
pub fn follow_pointer(jj_dir: &FsPath, content: &Vec<u8>) -> (target: FsPath)
    ensures
        target@ == pointed_at(jj_dir@, content@),
{
    let pointer = text::from_utf8_lossy(content.as_slice());
    jj_dir.join(text::trimmed(pointer.as_str()).as_str())
}

/// The repo directory: `.jj/repo` itself, or what it points at (canonicalized
/// by the caller as far as possible) if that is a directory.
pub open spec fn repo_dir_of(
    jj_dir: Seq<u8>,
    pointer: RepoPointer,
    resolved: Seq<u8>,
    resolved_is_dir: bool,
) -> Result<Seq<u8>, WorkspaceErrorView> {
    match pointer {
        RepoPointer::Directory => Ok(path::child(jj_dir, "repo"@)),
        RepoPointer::File(_) => if resolved_is_dir {
            Ok(resolved)
        } else {
            Err(
                WorkspaceErrorView::Load(
                    "repo dir pointer is dangling: "@ + text::lossy_text(resolved),
                ),
            )
        },
        RepoPointer::Unreadable(message) => Err(
            WorkspaceErrorView::Load("reading .jj/repo: "@ + message@),
        ),
        RepoPointer::Missing => Err(WorkspaceErrorView::Load("no .jj/repo"@)),
    }
}

/// Finds the repo directory of a workspace from what stands at `.jj/repo`;
/// `resolved` is where [`follow_pointer`] leads, and matters only for a pointer
/// file.
pub fn resolve_repo_dir(
    jj_dir: &FsPath,
    pointer: &RepoPointer,
    resolved: &FsPath,
    resolved_is_dir: bool,
) -> (dir: Result<FsPath, WorkspaceError>)
    ensures
        match dir {
            Ok(dir) => repo_dir_of(jj_dir@, *pointer, resolved@, resolved_is_dir) == Ok::<
                Seq<u8>,
                WorkspaceErrorView,
            >(dir@),
            Err(err) => repo_dir_of(jj_dir@, *pointer, resolved@, resolved_is_dir) == Err::<
                Seq<u8>,
                WorkspaceErrorView,
            >(err@),
        },
{
    match pointer {
        RepoPointer::Directory => Ok(jj_dir.join("repo")),
        RepoPointer::File(_) => {
            if resolved_is_dir {
                Ok(resolved.clone())
            } else {
                Err(
                    WorkspaceError::Load(
                        "repo dir pointer is dangling: ".to_owned().concat(
                            resolved.display().as_str(),
                        ),
                    ),
                )
            }
        },
        RepoPointer::Unreadable(message) => Err(
            WorkspaceError::Load("reading .jj/repo: ".to_owned().concat(message.as_str())),
        ),
        RepoPointer::Missing => Err(WorkspaceError::Load("no .jj/repo".to_owned())),
    }
}

/// Where a stored workspace path leads: the store may keep paths relative to
/// the repo directory.
pub fn stored_root(repo_dir: &FsPath, stored: &FsPath) -> (root: FsPath)
    ensures
        root@ == path::joined(repo_dir@, stored@),
{
    repo_dir.join_path(stored)
}

/// What was seen of one recorded workspace.
#[derive(Debug)]
pub struct WorkspaceSight {
    /// Its name.
    pub name: String,
    /// Its root, canonicalized as far as possible.
    pub root: FsPath,
    /// Whether the root is a directory.
    pub is_dir: bool,
    /// Whether its `.jj/repo` is a directory.
    pub owns_repo: bool,
}

/// A workspace by value: name, root, and whether it is the default one.
pub type InfoView = (Seq<char>, Seq<u8>, bool);

/// The workspaces by value.
pub open spec fn info_views(list: Seq<WorkspaceInfo>) -> Seq<InfoView> {
    list.map_values(|w: WorkspaceInfo| (w.name@, w.root@, w.is_default))
}

/// The names of workspaces.
pub open spec fn info_names(list: Seq<InfoView>) -> Seq<Seq<char>> {
    list.map_values(|w: InfoView| w.0)
}

/// The workspaces that are still there, sorted by name; those of one name keep
/// their order.
pub open spec fn present(sights: Seq<WorkspaceSight>) -> Seq<InfoView>
    decreases sights.len(),
{
    if sights.len() == 0 {
        Seq::empty()
    } else {
        let before = present(sights.drop_last());
        let sight = sights.last();
        if sight.is_dir {
            before.insert(
                order::place(info_names(before), sight.name@),
                (sight.name@, sight.root@, sight.owns_repo),
            )
        } else {
            before
        }
    }
}

/// Lists the workspaces of the repo that `workspace_root` belongs to, from what
/// was seen of it: whether there is a `.jj` directory, the repo directory, and
/// what the repo records (the message of what went wrong otherwise). Stale
/// entries (deleted on disk) are left out. The default workspace is marked with
/// `is_default`.
pub fn list(
    workspace_root: &FsPath,
    has_jj: bool,
    repo_dir: Result<FsPath, WorkspaceError>,
    recorded: Result<Vec<WorkspaceSight>, String>,
) -> (list: Result<Vec<WorkspaceInfo>, WorkspaceError>)
    ensures
        !has_jj ==> (list matches Err(err) && err@ == WorkspaceErrorView::NoRepo(workspace_root@)),
        has_jj && repo_dir is Err ==> list == Err::<Vec<WorkspaceInfo>, WorkspaceError>(
            repo_dir->Err_0,
        ),
        has_jj && repo_dir is Ok && recorded is Err ==> list == Err::<
            Vec<WorkspaceInfo>,
            WorkspaceError,
        >(WorkspaceError::Load(recorded->Err_0)),
        has_jj && repo_dir is Ok && recorded is Ok ==> (list matches Ok(list) && info_views(list@)
            == present(recorded->Ok_0@)),
{
    if !has_jj {
        return Err(WorkspaceError::NoRepo(workspace_root.clone()));
    }
    if let Err(err) = repo_dir {
        return Err(err);
    }
    let sights = match recorded {
        Ok(sights) => sights,
        Err(message) => return Err(WorkspaceError::Load(message)),
    };
    let mut list: Vec<WorkspaceInfo> = Vec::new();
    let mut i: usize = 0;
    assert(info_views(list@) =~= present(sights@.take(0)));
    while i < sights.len()
        invariant
            i <= sights.len(),
            info_views(list@) == present(sights@.take(i as int)),
        decreases sights.len() - i,
    {
        assert(sights@.take(i + 1).drop_last() =~= sights@.take(i as int));
        let ghost before = info_views(list@);
        let ghost names = info_names(before);
        if sights[i].is_dir {
            let mut at: usize = list.len();
            assert(names.take(at as int) =~= names);
            while at > 0 && !order::at_or_before(list[at - 1].name.as_str(), sights[i].name.as_str())
                invariant
                    at <= list.len(),
                    i < sights.len(),
                    before == info_views(list@),
                    names == info_names(before),
                    order::place(names, sights@[i as int].name@) == order::place(
                        names.take(at as int),
                        sights@[i as int].name@,
                    ),
                decreases at,
            {
                assert(names.take(at as int).drop_last() =~= names.take(at - 1));
                assert(names.take(at as int).last() == list@[at - 1].name@);
                at = at - 1;
            }
            proof {
                if at > 0 {
                    assert(names.take(at as int).last() == list@[at - 1].name@);
                }
            }
            let info = WorkspaceInfo {
                name: sights[i].name.clone(),
                root: sights[i].root.clone(),
                is_default: sights[i].owns_repo,
            };
            list.insert(at, info);
            assert(info_views(list@) =~= before.insert(
                at as int,
                (
                    sights@[i as int].name@,
                    sights@[i as int].root@,
                    sights@[i as int].owns_repo,
                ),
            ));
        }
        i = i + 1;
    }
    assert(sights@.take(i as int) =~= sights@);
    Ok(list)
}

/// **The list is sorted by name, and holds exactly the workspaces that are
/// still there.**
pub proof fn the_list_is_sorted(sights: Seq<WorkspaceSight>)
    ensures
        order::in_order(info_names(present(sights))),
        forall|w: InfoView| #[trigger]
            present(sights).contains(w) <==> exists|i: int|
                0 <= i < sights.len() && (#[trigger] sights[i]).is_dir && w == (
                    sights[i].name@,
                    sights[i].root@,
                    sights[i].owns_repo,
                ),
    decreases sights.len(),
{
    if sights.len() > 0 {
        let less = sights.drop_last();
        the_list_is_sorted(less);
        let before = present(less);
        let sight = sights.last();
        let new = (sight.name@, sight.root@, sight.owns_repo);
        let names = info_names(before);
        let at = order::place(names, sight.name@);
        let after = present(sights);
        order::lemma_place(names, sight.name@);
        order::lemma_placed_in_order(names, sight.name@);
        if sight.is_dir {
            assert(info_names(after) =~= order::placed(names, sight.name@));
        }
        assert forall|w: InfoView| #[trigger] after.contains(w) <==> exists|i: int|
            0 <= i < sights.len() && (#[trigger] sights[i]).is_dir && w == (
                sights[i].name@,
                sights[i].root@,
                sights[i].owns_repo,
            ) by {
            if after.contains(w) {
                let k = choose|k: int| 0 <= k < after.len() && after[k] == w;
                if sight.is_dir && k == at {
                    assert(sights[sights.len() - 1].is_dir);
                } else {
                    if sight.is_dir {
                        let j = if k < at {
                            k
                        } else {
                            k - 1
                        };
                        assert(before[j] == w);
                    }
                    assert(before.contains(w));
                    let i = choose|i: int|
                        0 <= i < less.len() && (#[trigger] less[i]).is_dir && w == (
                            less[i].name@,
                            less[i].root@,
                            less[i].owns_repo,
                        );
                    assert(sights[i] == less[i]);
                }
            }
            if exists|i: int|
                0 <= i < sights.len() && (#[trigger] sights[i]).is_dir && w == (
                    sights[i].name@,
                    sights[i].root@,
                    sights[i].owns_repo,
                ) {
                let i = choose|i: int|
                    0 <= i < sights.len() && (#[trigger] sights[i]).is_dir && w == (
                        sights[i].name@,
                        sights[i].root@,
                        sights[i].owns_repo,
                    );
                if i == sights.len() - 1 {
                    assert(after[at] == w);
                } else {
                    assert(less[i] == sights[i]);
                    assert(before.contains(w));
                    let k = choose|k: int| 0 <= k < before.len() && before[k] == w;
                    if sight.is_dir {
                        let j = if k < at {
                            k
                        } else {
                            k + 1
                        };
                        assert(after[j] == w);
                    } else {
                        assert(after[k] == w);
                    }
                }
            }
        }
    }
}

// ---------------------------------------------------------------------------
// Mirroring one file
// ---------------------------------------------------------------------------

/// What happened to one synced file.
#[derive(Debug, PartialEq, Eq)]
pub enum FileStatus {
    /// Link created pointing at the default workspace.
    Linked,
    /// Correct link already existed.
    AlreadyLinked,
    /// A real (tracked) file occupies the path; left untouched.
    TrackedFile,
    /// The link points elsewhere; needs `--force` to fix.
    WrongTarget {
        /// Expected (default workspace) path.
        expected: FsPath,
        /// Current link target.
        found: FsPath,
    },
    /// The source file does not exist in the default workspace.
    SourceMissing,
    /// A filesystem error occurred; the message describes it.
    Failed(String),
}

/// A [`FileStatus`] by value.
pub enum FileView {
    /// See [`FileStatus::Linked`].
    Linked,
    /// See [`FileStatus::AlreadyLinked`].
    AlreadyLinked,
    /// See [`FileStatus::TrackedFile`].
    TrackedFile,
    /// See [`FileStatus::WrongTarget`].
    WrongTarget(Seq<u8>, Seq<u8>),
    /// See [`FileStatus::SourceMissing`].
    SourceMissing,
    /// See [`FileStatus::Failed`].
    Failed(Seq<char>),
}

impl View for FileStatus {
    type V = FileView;

    open spec fn view(&self) -> FileView {
        match *self {
            FileStatus::Linked => FileView::Linked,
            FileStatus::AlreadyLinked => FileView::AlreadyLinked,
            FileStatus::TrackedFile => FileView::TrackedFile,
            FileStatus::WrongTarget { expected, found } => FileView::WrongTarget(
                expected@,
                found@,
            ),
            FileStatus::SourceMissing => FileView::SourceMissing,
            FileStatus::Failed(message) => FileView::Failed(message@),
        }
    }
}

/// How a status describes itself.
pub open spec fn file_text(status: FileView) -> Seq<char> {
    match status {
        FileView::Linked => "linked"@,
        FileView::AlreadyLinked => "already linked"@,
        FileView::TrackedFile => "tracked, skipped"@,
        FileView::WrongTarget(expected, found) => "points to "@ + text::lossy_text(found)
            + " instead of "@ + text::lossy_text(expected),
        FileView::SourceMissing => "source missing"@,
        FileView::Failed(message) => message,
    }
}

impl FileStatus {
    /// The status as text.
    pub fn message(&self) -> (message: String)
        ensures
            message@ == file_text(self@),
    {
        match self {
            FileStatus::Linked => "linked".to_owned(),
            FileStatus::AlreadyLinked => "already linked".to_owned(),
            FileStatus::TrackedFile => "tracked, skipped".to_owned(),
            FileStatus::WrongTarget { expected, found } => "points to ".to_owned().concat(
                found.display().as_str(),
            ).concat(" instead of ").concat(expected.display().as_str()),
            FileStatus::SourceMissing => "source missing".to_owned(),
            FileStatus::Failed(message) => message.clone(),
        }
    }
}

impl Clone for FileStatus {
    fn clone(&self) -> (copy: FileStatus)
        ensures
            copy@ == self@,
    {
        match self {
            FileStatus::Linked => FileStatus::Linked,
            FileStatus::AlreadyLinked => FileStatus::AlreadyLinked,
            FileStatus::TrackedFile => FileStatus::TrackedFile,
            FileStatus::WrongTarget { expected, found } => FileStatus::WrongTarget {
                expected: expected.clone(),
                found: found.clone(),
            },
            FileStatus::SourceMissing => FileStatus::SourceMissing,
            FileStatus::Failed(message) => FileStatus::Failed(message.clone()),
        }
    }
}

/// What was seen of one file to mirror.
#[derive(Debug)]
pub struct FileSight {
    /// Whether the file exists in the default workspace.
    pub source: bool,
    /// What stands in the other workspace.
    pub site: Site,
}

/// What is to be done for one file.
#[derive(Debug)]
pub struct FilePlan {
    /// The changes to make.
    pub deeds: Vec<Deed>,
    /// The status once they are made; a required one that fails makes it
    /// [`FileStatus::Failed`].
    pub status: FileStatus,
}

/// A [`FilePlan`] by value.
pub type FilePlanView = (Seq<(StepView, bool)>, FileView);

impl View for FilePlan {
    type V = FilePlanView;

    open spec fn view(&self) -> FilePlanView {
        (files::deed_views(self.deeds@), self.status@)
    }
}

/// What mirroring a file comes to: a link to the default workspace's file,
/// where nothing stands yet and the file exists; a link to somewhere else is
/// replaced with `force`; anything real is left alone.
pub open spec fn file_plan(
    source: Seq<u8>,
    destination: Seq<u8>,
    force: bool,
    source_exists: bool,
    site: SiteView,
) -> FilePlanView {
    match site {
        SiteView::Link(found) => if path::same_path(found, source) {
            (Seq::empty(), FileView::AlreadyLinked)
        } else if force {
            (
                seq![
                    (StepView::RemoveFile(destination), true),
                    (StepView::Symlink(source, destination), true),
                ],
                FileView::Linked,
            )
        } else {
            (Seq::empty(), FileView::WrongTarget(source, found))
        },
        SiteView::BadLink(message) | SiteView::Unreadable(message) => (
            Seq::empty(),
            FileView::Failed(message),
        ),
        SiteView::Directory | SiteView::File => (Seq::empty(), FileView::TrackedFile),
        SiteView::Absent => if source_exists {
            (
                files::above(destination, false).push(
                    (StepView::Symlink(source, destination), true),
                ),
                FileView::Linked,
            )
        } else {
            (Seq::empty(), FileView::SourceMissing)
        },
    }
}

fn no_deeds(status: FileStatus) -> (plan: FilePlan)
    ensures
        plan@ == (Seq::<(StepView, bool)>::empty(), status@),
{
    let deeds: Vec<Deed> = Vec::new();
    assert(files::deed_views(deeds@) =~= Seq::<(StepView, bool)>::empty());
    FilePlan { deeds, status }
}

/// Mirrors one file, going by what was seen.
pub fn sync_file(
    default_root: &FsPath,
    root: &FsPath,
    name: &str,
    force: bool,
    sight: &FileSight,
) -> (plan: FilePlan)
    ensures
        plan@ == file_plan(
            path::child(default_root@, name@),
            path::child(root@, name@),
            force,
            sight.source,
            sight.site@,
        ),
{
    let source = default_root.join(name);
    let destination = root.join(name);
    match &sight.site {
        Site::Link(found) => {
            if found.same_as(&source) {
                no_deeds(FileStatus::AlreadyLinked)
            } else if force {
                let mut deeds: Vec<Deed> = Vec::new();
                files::then_do(&mut deeds, Step::RemoveFile(destination.clone()), true);
                files::then_do(&mut deeds, Step::Symlink { source, at: destination }, true);
                assert(files::deed_views(deeds@) =~= seq![
                    (StepView::RemoveFile(destination@), true),
                    (StepView::Symlink(source@, destination@), true),
                ]);
                FilePlan { deeds, status: FileStatus::Linked }
            } else {
                no_deeds(FileStatus::WrongTarget { expected: source, found: found.clone() })
            }
        },
        Site::BadLink(message) | Site::Unreadable(message) => no_deeds(
            FileStatus::Failed(message.clone()),
        ),
        Site::Directory | Site::File => no_deeds(FileStatus::TrackedFile),
        Site::Absent => {
            if !sight.source {
                return no_deeds(FileStatus::SourceMissing);
            }
            let mut deeds = files::make_above(&destination, false);
            files::then_do(&mut deeds, Step::Symlink { source, at: destination }, true);
            FilePlan { deeds, status: FileStatus::Linked }
        },
    }
}

/// **Tracked files are never touched**, forced or not; without force no link is
/// either.
pub proof fn tracked_files_are_never_touched(
    source: Seq<u8>,
    destination: Seq<u8>,
    force: bool,
    source_exists: bool,
    site: SiteView,
)
    ensures
        site is File || site is Directory ==> file_plan(
            source,
            destination,
            force,
            source_exists,
            site,
        ) == (Seq::<(StepView, bool)>::empty(), FileView::TrackedFile),
        site is Link && !force ==> file_plan(source, destination, force, source_exists, site).0.len()
            == 0,
{
}

// ---------------------------------------------------------------------------
// Allowing
// ---------------------------------------------------------------------------

/// What happened to the `direnv allow` step for one workspace.
#[derive(Debug, Clone, Copy, PartialEq, Eq, Structural)]
pub enum AllowStatus {
    /// `direnv allow` executed for this workspace.
    Allowed,
    /// Policy is `hint`; the command was printed instead of run.
    Hinted,
    /// `.envrc` differs from the default workspace; not auto-allowed.
    EnvrcMismatch,
    /// Policy is `never`.
    Disabled,
    /// `direnv` is not available in `PATH`.
    DirenvMissing,
    /// `direnv allow` ran for this workspace and failed.
    DirenvFailed,
    /// No `.envrc` to allow.
    NotApplicable,
}

/// How a status describes itself.
pub open spec fn allow_text(status: AllowStatus) -> Seq<char> {
    match status {
        AllowStatus::Allowed => "allowed"@,
        AllowStatus::Hinted => "hint: run direnv allow <workspace>"@,
        AllowStatus::EnvrcMismatch => ".envrc differs from default workspace, not allowed"@,
        AllowStatus::Disabled => "allow disabled"@,
        AllowStatus::DirenvMissing => "direnv not found in PATH"@,
        AllowStatus::DirenvFailed => "direnv allow failed"@,
        AllowStatus::NotApplicable => "no .envrc"@,
    }
}

impl AllowStatus {
    /// The status as text.
    pub fn message(&self) -> (message: String)
        ensures
            message@ == allow_text(*self),
    {
        match self {
            AllowStatus::Allowed => "allowed".to_owned(),
            AllowStatus::Hinted => "hint: run direnv allow <workspace>".to_owned(),
            AllowStatus::EnvrcMismatch => ".envrc differs from default workspace, not allowed".to_owned(),
            AllowStatus::Disabled => "allow disabled".to_owned(),
            AllowStatus::DirenvMissing => "direnv not found in PATH".to_owned(),
            AllowStatus::DirenvFailed => "direnv allow failed".to_owned(),
            AllowStatus::NotApplicable => "no .envrc".to_owned(),
        }
    }
}

/// What was seen of the two `.envrc` files.
#[derive(Debug)]
pub struct EnvrcSight {
    /// Whether the default workspace's one is a file.
    pub default_is_file: bool,
    /// Whether the other workspace's one exists.
    pub other_exists: bool,
    /// What the default workspace's one holds, if it could be read.
    pub default_content: Option<Vec<u8>>,
    /// What the other workspace's one holds, if it could be read.
    pub other_content: Option<Vec<u8>>,
}

/// How `direnv allow` went.
#[derive(Debug, Clone, Copy, PartialEq, Eq, Structural)]
pub enum DirenvResult {
    /// It ran and succeeded.
    Succeeded,
    /// It ran and failed.
    Failed,
    /// It could not be run.
    NotRun,
}

/// Byte-for-byte file equality: both files could be read and hold the same.
pub open spec fn equal_contents(a: Option<Vec<u8>>, b: Option<Vec<u8>>) -> bool {
    match (a, b) {
        (Some(a), Some(b)) => a@ == b@,
        _ => false,
    }
}

/// Byte-for-byte file equality — stronger and simpler than any hash for
/// local, small files.
pub fn reads_equal(a: &Option<Vec<u8>>, b: &Option<Vec<u8>>) -> (equal: bool)
    ensures
        equal == equal_contents(*a, *b),
        equal <==> *a is Some && *b is Some && a->0@ == b->0@,
{
    match (a, b) {
        (Some(a), Some(b)) => path::same_bytes(a, b),
        _ => false,
    }
}

/// What the allow step comes to before `direnv` is run: its status, or `None`
/// when `direnv` is to be run.
pub open spec fn allow_decision(policy: AllowPolicy, sight: EnvrcSight) -> Option<AllowStatus> {
    if !sight.default_is_file || !sight.other_exists {
        Some(AllowStatus::NotApplicable)
    } else {
        match policy {
            AllowPolicy::Never => Some(AllowStatus::Disabled),
            AllowPolicy::Hint => Some(AllowStatus::Hinted),
            AllowPolicy::Auto => if equal_contents(sight.default_content, sight.other_content) {
                None
            } else {
                Some(AllowStatus::EnvrcMismatch)
            },
        }
    }
}

/// Decides the allow step, gated on `.envrc` being identical to the default
/// workspace's copy: allowing an unmodified copy of already trusted content is
/// safe, allowing arbitrary repo content is not. `None` asks for
/// `direnv allow <root>`.
pub fn apply_allow(policy: AllowPolicy, sight: &EnvrcSight) -> (status: Option<AllowStatus>)
    ensures
        status == allow_decision(policy, *sight),
        status is None ==> sight.default_content is Some && sight.other_content is Some
            && sight.default_content->0@ == sight.other_content->0@,
{
    if !sight.default_is_file || !sight.other_exists {
        return Some(AllowStatus::NotApplicable);
    }
    match policy {
        AllowPolicy::Never => Some(AllowStatus::Disabled),
        AllowPolicy::Hint => Some(AllowStatus::Hinted),
        AllowPolicy::Auto => {
            if reads_equal(&sight.default_content, &sight.other_content) {
                None
            } else {
                Some(AllowStatus::EnvrcMismatch)
            }
        },
    }
}

/// What the allow step comes to once `direnv` was run.
pub open spec fn allow_outcome(result: DirenvResult) -> AllowStatus {
    match result {
        DirenvResult::Succeeded => AllowStatus::Allowed,
        DirenvResult::Failed => AllowStatus::DirenvFailed,
        DirenvResult::NotRun => AllowStatus::DirenvMissing,
    }
}

fn after_direnv(result: DirenvResult) -> (status: AllowStatus)
    ensures
        status == allow_outcome(result),
{
    match result {
        DirenvResult::Succeeded => AllowStatus::Allowed,
        DirenvResult::Failed => AllowStatus::DirenvFailed,
        DirenvResult::NotRun => AllowStatus::DirenvMissing,
    }
}

/// **Only an identical `.envrc` is ever allowed**, and only under the `auto`
/// policy; one is said to differ only if it does.
pub proof fn only_identical_files_are_allowed(
    policy: AllowPolicy,
    sight: EnvrcSight,
    result: DirenvResult,
)
    ensures
        allow_decision(policy, sight) == Some(AllowStatus::EnvrcMismatch) ==> !equal_contents(
            sight.default_content,
            sight.other_content,
        ),
        allow_outcome(result) != AllowStatus::EnvrcMismatch,
        allow_decision(policy, sight) is None ==> policy == AllowPolicy::Auto && equal_contents(
            sight.default_content,
            sight.other_content,
        ),
        allow_decision(policy, sight) != Some(AllowStatus::Allowed),
{
}

// ---------------------------------------------------------------------------
// Syncing all workspaces
// ---------------------------------------------------------------------------

/// Per-workspace sync report.
#[derive(Debug)]
pub struct WorkspaceReport {
    /// Workspace root that was synced.
    pub root: FsPath,
    /// Outcome per synced file.
    pub files: Vec<(String, FileStatus)>,
    /// Outcome of the allow step.
    pub allow: AllowStatus,
}

/// The outcomes of files by value.
pub open spec fn status_views(list: Seq<(String, FileStatus)>) -> Seq<(Seq<char>, FileView)> {
    list.map_values(|line: (String, FileStatus)| (line.0@, line.1@))
}

/// A [`WorkspaceReport`] by value.
pub struct ReportView {
    /// The workspace root.
    pub root: Seq<u8>,
    /// The outcome per file.
    pub files: Seq<(Seq<char>, FileView)>,
    /// The outcome of the allow step.
    pub allow: AllowStatus,
}

impl View for WorkspaceReport {
    type V = ReportView;

    open spec fn view(&self) -> ReportView {
        ReportView { root: self.root@, files: status_views(self.files@), allow: self.allow }
    }
}

/// The reports by value.
pub open spec fn report_views(list: Seq<WorkspaceReport>) -> Seq<ReportView> {
    list.map_values(|r: WorkspaceReport| r@)
}

/// Where a sync stands.
pub struct SyncState {
    /// The default workspace.
    pub default_root: Seq<u8>,
    /// The other workspaces.
    pub others: Seq<Seq<u8>>,
    /// The files to mirror.
    pub files: Seq<Seq<char>>,
    /// The allow policy.
    pub policy: AllowPolicy,
    /// Whether links to somewhere else are replaced.
    pub force: bool,
    /// The workspaces that are done.
    pub reports: Seq<ReportView>,
    /// What became of the files of the current workspace so far.
    pub statuses: Seq<(Seq<char>, FileView)>,
    /// Whether `direnv` is being run for the current workspace.
    pub allowing: bool,
}

/// A sync at its start.
pub open spec fn sync_started(
    default_root: Seq<u8>,
    others: Seq<Seq<u8>>,
    config: WorkspaceConfig,
    force: bool,
) -> SyncState {
    SyncState {
        default_root,
        others,
        files: files_of(config),
        policy: config.allow,
        force,
        reports: Seq::empty(),
        statuses: Seq::empty(),
        allowing: false,
    }
}

/// Whether a sync has come to its end.
pub open spec fn sync_done(s: SyncState) -> bool {
    s.reports.len() >= s.others.len()
}

/// What a sync asks for, by value.
pub enum SyncAskView {
    /// See [`SyncAsk::Look`].
    Look(Seq<u8>, Seq<u8>),
    /// See [`SyncAsk::Envrc`].
    Envrc(Seq<u8>, Seq<u8>),
    /// See [`SyncAsk::Direnv`].
    Direnv(Seq<u8>),
}

/// What a sync asks for next: each file of each workspace in turn, and the
/// allow step behind the files of a workspace.
pub open spec fn sync_asks(s: SyncState) -> Option<SyncAskView> {
    if sync_done(s) {
        None
    } else {
        let root = s.others[s.reports.len() as int];
        if s.statuses.len() < s.files.len() {
            let name = s.files[s.statuses.len() as int];
            Some(SyncAskView::Look(path::child(s.default_root, name), path::child(root, name)))
        } else if !s.allowing {
            Some(
                SyncAskView::Envrc(
                    path::child(s.default_root, ".envrc"@),
                    path::child(root, ".envrc"@),
                ),
            )
        } else {
            Some(SyncAskView::Direnv(root))
        }
    }
}

/// The sync once a file is dealt with.
pub open spec fn with_file(s: SyncState, status: FileView) -> SyncState {
    SyncState { statuses: s.statuses.push((s.files[s.statuses.len() as int], status)), ..s }
}

/// The sync once a workspace is dealt with.
pub open spec fn with_report(s: SyncState, allow: AllowStatus) -> SyncState {
    SyncState {
        reports: s.reports.push(
            ReportView { root: s.others[s.reports.len() as int], files: s.statuses, allow },
        ),
        statuses: Seq::empty(),
        allowing: false,
        ..s
    }
}

/// Whether the reports are what they should be: one per workspace, in order,
/// each with one status per file, in order.
pub open spec fn sync_sound(s: SyncState) -> bool {
    &&& s.reports.len() <= s.others.len()
    &&& s.statuses.len() <= s.files.len()
    &&& forall|i: int|
        0 <= i < s.statuses.len() ==> (#[trigger] s.statuses[i]).0 == s.files[i]
    &&& forall|i: int|
        #![trigger s.reports[i]]
        0 <= i < s.reports.len() ==> s.reports[i].root == s.others[i] && s.reports[i].files.len()
            == s.files.len() && forall|j: int|
            0 <= j < s.files.len() ==> (#[trigger] s.reports[i].files[j]).0 == s.files[j]
    &&& s.allowing ==> !sync_done(s) && s.statuses.len() == s.files.len()
}

/// What a sync asks for.
#[derive(Debug)]
pub enum SyncAsk {
    /// Whether the first path exists, and what stands at the second.
    Look {
        /// The file in the default workspace.
        source: FsPath,
        /// The file in the other workspace.
        destination: FsPath,
    },
    /// The two `.envrc` files.
    Envrc {
        /// The default workspace's one.
        default: FsPath,
        /// The other workspace's one.
        other: FsPath,
    },
    /// `direnv allow` for a workspace.
    Direnv(FsPath),
}

/// A [`SyncAsk`] by value.
pub open spec fn sync_ask_view(ask: SyncAsk) -> SyncAskView {
    match ask {
        SyncAsk::Look { source, destination } => SyncAskView::Look(source@, destination@),
        SyncAsk::Envrc { default, other } => SyncAskView::Envrc(default@, other@),
        SyncAsk::Direnv(root) => SyncAskView::Direnv(root@),
    }
}

/// A sync of all workspaces, one file after the other.
#[derive(Debug)]
pub struct SyncRun {
    default_root: FsPath,
    others: Vec<FsPath>,
    files: Vec<String>,
    policy: AllowPolicy,
    force: bool,
    reports: Vec<WorkspaceReport>,
    statuses: Vec<(String, FileStatus)>,
    allowing: bool,
}

impl View for SyncRun {
    type V = SyncState;

    closed spec fn view(&self) -> SyncState {
        SyncState {
            default_root: self.default_root@,
            others: path::views(self.others@),
            files: text::views(self.files@),
            policy: self.policy,
            force: self.force,
            reports: report_views(self.reports@),
            statuses: status_views(self.statuses@),
            allowing: self.allowing,
        }
    }
}

/// Mirrors `config` files from the default workspace root into every other
/// workspace root and applies the allow policy. See [`DEFAULT_SYNC_FILES`].
pub fn sync_workspaces(
    default_root: &FsPath,
    other_roots: &Vec<FsPath>,
    config: &WorkspaceConfig,
    force: bool,
) -> (run: SyncRun)
    ensures
        run@ == sync_started(default_root@, path::views(other_roots@), *config, force),
        sync_sound(run@),
{
    let run = SyncRun {
        default_root: default_root.clone(),
        others: path::copied_paths(other_roots),
        files: config.files(),
        policy: config.allow,
        force,
        reports: Vec::new(),
        statuses: Vec::new(),
        allowing: false,
    };
    assert(report_views(run.reports@) =~= Seq::<ReportView>::empty());
    assert(status_views(run.statuses@) =~= Seq::<(Seq<char>, FileView)>::empty());
    run
}

impl SyncRun {
    /// What to do next; `None` once every workspace is dealt with.
    pub fn ask(&self) -> (ask: Option<SyncAsk>)
        ensures
            ask is Some == sync_asks(self@) is Some,
            ask is Some ==> sync_ask_view(ask->0) == sync_asks(self@)->0,
    {
        let i: usize = self.reports.len();
        if i >= self.others.len() {
            return None;
        }
        let j: usize = self.statuses.len();
        if j < self.files.len() {
            let name = self.files[j].as_str();
            Some(
                SyncAsk::Look {
                    source: self.default_root.join(name),
                    destination: self.others[i].join(name),
                },
            )
        } else if !self.allowing {
            Some(
                SyncAsk::Envrc {
                    default: self.default_root.join(".envrc"),
                    other: self.others[i].join(".envrc"),
                },
            )
        } else {
            Some(SyncAsk::Direnv(self.others[i].clone()))
        }
    }

    /// What is to be done for the current file, going by what was seen of it.
    pub fn plan(&self, sight: &FileSight) -> (plan: FilePlan)
        requires
            sync_asks(self@) is Some,
            sync_asks(self@)->0 is Look,
        ensures
            plan@ == file_plan(
                sync_asks(self@)->0->Look_0,
                sync_asks(self@)->0->Look_1,
                self@.force,
                sight.source,
                sight.site@,
            ),
    {
        let i: usize = self.reports.len();
        let j: usize = self.statuses.len();
        sync_file(&self.default_root, &self.others[i], self.files[j].as_str(), self.force, sight)
    }

    /// Notes what became of the current file: the plan's status, unless a
    /// required change failed with a message.
    pub fn file_done(&mut self, plan: FilePlan, failure: Option<String>)
        requires
            sync_sound(old(self)@),
            sync_asks(old(self)@) is Some,
            sync_asks(old(self)@)->0 is Look,
        ensures
            final(self)@ == with_file(
                old(self)@,
                match failure {
                    Some(message) => FileView::Failed(message@),
                    None => plan@.1,
                },
            ),
            sync_sound(final(self)@),
    {
        let j: usize = self.statuses.len();
        let status = match failure {
            Some(message) => FileStatus::Failed(message),
            None => plan.status,
        };
        let ghost before = status_views(self.statuses@);
        let name = self.files[j].clone();
        self.statuses.push((name, status));
        assert(status_views(self.statuses@) =~= before.push((name@, status@)));
    }

    fn close(&mut self, allow: AllowStatus)
        requires
            sync_sound(old(self)@),
            !sync_done(old(self)@),
            old(self)@.statuses.len() == old(self)@.files.len(),
        ensures
            final(self)@ == with_report(old(self)@, allow),
            sync_sound(final(self)@),
    {
        let i: usize = self.reports.len();
        let ghost start = self@;
        let mut files: Vec<(String, FileStatus)> = Vec::new();
        std::mem::swap(&mut files, &mut self.statuses);
        let ghost before = report_views(self.reports@);
        let report = WorkspaceReport { root: self.others[i].clone(), files, allow };
        self.reports.push(report);
        self.allowing = false;
        assert(report_views(self.reports@) =~= before.push(report@));
        assert(status_views(self.statuses@) =~= Seq::<(Seq<char>, FileView)>::empty());
        proof {
            let end = self@;
            assert(end == with_report(start, allow));
            assert forall|k: int|
                #![trigger end.reports[k]]
                0 <= k < end.reports.len() implies end.reports[k].root == end.others[k]
                && end.reports[k].files.len() == end.files.len() && forall|j: int|
                0 <= j < end.files.len() ==> (#[trigger] end.reports[k].files[j]).0
                    == end.files[j] by {
                if k < start.reports.len() {
                    assert(end.reports[k] == start.reports[k]);
                } else {
                    assert(end.reports[k].files == start.statuses);
                }
            }
        }
    }

    /// Decides the allow step of the current workspace, going by what was seen
    /// of the `.envrc` files; may ask for `direnv`.
    pub fn envrc_seen(&mut self, sight: &EnvrcSight)
        requires
            sync_sound(old(self)@),
            sync_asks(old(self)@) is Some,
            sync_asks(old(self)@)->0 is Envrc,
        ensures
            final(self)@ == (match allow_decision(old(self)@.policy, *sight) {
                Some(status) => with_report(old(self)@, status),
                None => SyncState { allowing: true, ..old(self)@ },
            }),
            sync_sound(final(self)@),
    {
        match apply_allow(self.policy, sight) {
            Some(status) => {
                self.close(status);
            },
            None => {
                self.allowing = true;
            },
        }
    }

    /// Notes how `direnv allow` went for the current workspace.
    pub fn direnv_done(&mut self, result: DirenvResult)
        requires
            sync_sound(old(self)@),
            sync_asks(old(self)@) is Some,
            sync_asks(old(self)@)->0 is Direnv,
        ensures
            final(self)@ == with_report(old(self)@, allow_outcome(result)),
            sync_sound(final(self)@),
    {
        self.close(after_direnv(result));
    }

    /// The reports of the workspaces, in their order.
    pub fn reports(self) -> (reports: Vec<WorkspaceReport>)
        ensures
            report_views(reports@) == self@.reports,
    {
        self.reports
    }
}

/// **A finished sync reports on every workspace and every file**, in order.
pub proof fn finished_syncs_report_everything(s: SyncState, i: int, j: int)
    requires
        sync_sound(s),
        sync_asks(s) is None,
        0 <= i < s.others.len(),
        0 <= j < s.files.len(),
    ensures
        s.reports.len() == s.others.len(),
        s.reports[i].root == s.others[i],
        s.reports[i].files[j].0 == s.files[j],
{
    assert(s.reports[i].files[j].0 == s.files[j]);
}

/// Where the links of a sync stand and what they lead to: the files of the first
/// workspace, of the second and so on.
pub open spec fn sync_links(s: SyncState) -> Seq<(Seq<u8>, Seq<u8>)> {
    Seq::new(s.others.len() * s.files.len(), |k: int| (sync_place(s, k), sync_source(s, k)))
}

/// Where the `k`-th link of a sync stands.
pub open spec fn sync_place(s: SyncState, k: int) -> Seq<u8> {
    let width = s.files.len() as int;
    path::child(s.others[k / width], s.files[k % width])
}

/// What the `k`-th link of a sync should lead to.
pub open spec fn sync_source(s: SyncState, k: int) -> Seq<u8> {
    path::child(s.default_root, s.files[k % s.files.len() as int])
}

/// What was reported of the `k`-th link of a sync.
pub open spec fn sync_reported(s: SyncState, k: int) -> FileView {
    let width = s.files.len() as int;
    s.reports[k / width].files[k % width].1
}

/// The plan for the `k`-th link of a sync, going by what stands on the disk.
pub open spec fn run_plan(s: SyncState, source_exists: bool, disk: Disk, k: int) -> FilePlanView {
    file_plan(
        sync_source(s, k),
        sync_place(s, k),
        s.force,
        source_exists,
        files::seen(disk, sync_place(s, k)),
    )
}

/// The course of a finished sync: for each link whether its source exists, the
/// disk before and behind its plan, and why that failed, where it did. Running
/// `direnv` between the workspaces leaves the links alone.
pub open spec fn course(
    s: SyncState,
    sources: Seq<bool>,
    failures: Seq<Option<Seq<char>>>,
    disks: Seq<Disk>,
) -> bool {
    let count = sync_links(s).len();
    &&& sync_sound(s)
    &&& sync_done(s)
    &&& sources.len() == count
    &&& failures.len() == count
    &&& disks.len() == count + 1
    &&& forall|k: int|
        0 <= k < count ==> {
            let plan = run_plan(s, #[trigger] sources[k], disks[k], k);
            &&& files::performed(disks[k], plan.0, failures[k] is Some, disks[k + 1])
            &&& sync_reported(s, k) == match failures[k] {
                Some(message) => FileView::Failed(message),
                None => plan.1,
            }
        }
}

/// Whether the `k`-th link leads to the default workspace's file.
pub open spec fn leads_home(s: SyncState, disk: Disk, k: int) -> bool {
    files::leads_to(disk, sync_place(s, k), sync_source(s, k))
}

/// What stands right at some point of a sync is left alone from there on.
proof fn lemma_home_stays(
    s: SyncState,
    sources: Seq<bool>,
    failures: Seq<Option<Seq<char>>>,
    disks: Seq<Disk>,
    i: int,
    from: int,
    to: int,
)
    requires
        course(s, sources, failures, disks),
        files::side_by_side(sync_links(s)),
        0 <= i < sync_links(s).len(),
        0 <= from <= to <= sync_links(s).len(),
        leads_home(s, disks[from], i),
    ensures
        leads_home(s, disks[to], i),
        files::seen(disks[to], sync_place(s, i)) == files::seen(disks[from], sync_place(s, i)),
    decreases to - from,
{
    if from < to {
        let k = to - 1;
        lemma_home_stays(s, sources, failures, disks, i, from, k);
        let links = sync_links(s);
        let plan = run_plan(s, sources[k], disks[k], k);
        assert(files::performed(disks[k], plan.0, failures[k] is Some, disks[k + 1]));
        assert(links[i].0 == sync_place(s, i));
        assert(links[k].0 == sync_place(s, k));
        files::lemma_link_stays(links, i, k, disks[k], plan.0, failures[k] is Some, disks[to]);
    }
}

/// The place of a workspace's file in the row of all.
proof fn lemma_slot(s: SyncState, i: int, j: int) -> (k: int)
    requires
        0 <= i < s.others.len(),
        0 <= j < s.files.len(),
    ensures
        k == i * s.files.len() + j,
        0 <= k < sync_links(s).len(),
        sync_place(s, k) == path::child(s.others[i], s.files[j]),
        sync_source(s, k) == path::child(s.default_root, s.files[j]),
        sync_reported(s, k) == s.reports[i].files[j].1,
{
    let width = s.files.len() as int;
    let count = s.others.len() as int;
    let k = i * width + j;
    assert(0 <= k < count * width) by (nonlinear_arith)
        requires
            0 <= i < count,
            0 <= j < width,
            k == i * width + j,
    ;
    assert(i * width == width * i) by (nonlinear_arith);
    vstd::arithmetic::div_mod::lemma_fundamental_div_mod_converse(k, width, i, j);
    k
}

/// **Files that do not lie inside each other, in workspaces that do not either,
/// stand side by side.**
pub proof fn distinct_files_stand_side_by_side(s: SyncState)
    requires
        forall|i: int| 0 <= i < s.others.len() ==> (#[trigger] s.others[i]).len() > 0,
        forall|i: int, j: int|
            #![trigger s.others[i], s.others[j]]
            0 <= i < s.others.len() && 0 <= j < s.others.len() && files::inside(
                path::parts(s.others[i]),
                path::parts(s.others[j]),
            ) ==> path::same_path(s.others[i], s.others[j]),
        forall|i: int| 0 <= i < s.files.len() ==> path::relative(#[trigger] s.files[i]),
        forall|i: int, j: int|
            #![trigger s.files[i], s.files[j]]
            0 <= i < s.files.len() && 0 <= j < s.files.len() && i != j ==> !files::inside(
                path::names_in(s.files[i]),
                path::names_in(s.files[j]),
            ),
    ensures
        files::side_by_side(sync_links(s)),
{
    let links = sync_links(s);
    let width = s.files.len() as int;
    let count = s.others.len() as int;
    assert forall|k: int, l: int|
        #![trigger links[k], links[l]]
        0 <= k < links.len() && 0 <= l < links.len() && files::inside(
            path::parts(links[k].0),
            path::parts(links[l].0),
        ) implies path::parts(links[k].0) == path::parts(links[l].0) && path::same_path(
        links[k].1,
        links[l].1,
    ) by {
        lemma_slot_bounds(k, count, width);
        lemma_slot_bounds(l, count, width);
        let (a, b) = (s.others[k / width], s.others[l / width]);
        let (x, y) = (s.files[k % width], s.files[l % width]);
        path::lemma_joined_parts(a, encode_utf8(x));
        path::lemma_joined_parts(b, encode_utf8(y));
        files::lemma_below(path::parts(a), path::names_in(x), path::parts(b), path::names_in(y));
        assert(path::same_path(a, b));
    }
}

proof fn lemma_slot_bounds(k: int, count: int, width: int)
    requires
        0 <= k < count * width,
        0 <= width,
    ensures
        0 <= k / width < count,
        0 <= k % width < width,
{
    assert(width > 0) by (nonlinear_arith)
        requires
            0 <= k < count * width,
            0 <= width,
    ;
    vstd::arithmetic::div_mod::lemma_fundamental_div_mod(k, width);
    vstd::arithmetic::div_mod::lemma_mod_bound(k, width);
    let i = k / width;
    let j = k % width;
    assert(0 <= i < count) by (nonlinear_arith)
        requires
            k == width * i + j,
            0 <= j < width,
            0 <= k < count * width,
    ;
}

/// **A file that was reported as linked is linked when the sync is over**,
/// whatever became of the files and workspaces before and behind it.
pub proof fn reported_files_lead_home(
    s: SyncState,
    sources: Seq<bool>,
    failures: Seq<Option<Seq<char>>>,
    disks: Seq<Disk>,
    i: int,
    j: int,
)
    requires
        course(s, sources, failures, disks),
        files::side_by_side(sync_links(s)),
        0 <= i < s.others.len(),
        0 <= j < s.files.len(),
        s.reports[i].files[j].1 is Linked || s.reports[i].files[j].1 is AlreadyLinked,
    ensures
        files::leads_to(
            disks.last(),
            path::child(s.others[i], s.files[j]),
            path::child(s.default_root, s.files[j]),
        ),
        leads_home(s, disks.last(), i * s.files.len() + j),
{
    let k = lemma_slot(s, i, j);
    let plan = run_plan(s, sources[k], disks[k], k);
    assert(files::performed(disks[k], plan.0, failures[k] is Some, disks[k + 1]));
    if plan.0.len() > 0 {
        files::lemma_link_is_performed(
            disks[k],
            plan.0,
            disks[k + 1],
            sync_source(s, k),
            sync_place(s, k),
        );
    }
    lemma_home_stays(s, sources, failures, disks, k, k + 1, sync_links(s).len() as int);
}

/// **Syncing again does nothing.** A second sync of the same files, forced or
/// not, reports every link that the first one reported as in place, and changes
/// nothing for it.
pub proof fn syncing_again_does_nothing(
    s: SyncState,
    sources: Seq<bool>,
    failures: Seq<Option<Seq<char>>>,
    disks: Seq<Disk>,
    again: SyncState,
    later_sources: Seq<bool>,
    later_failures: Seq<Option<Seq<char>>>,
    later: Seq<Disk>,
    i: int,
    j: int,
)
    requires
        course(s, sources, failures, disks),
        course(again, later_sources, later_failures, later),
        again.default_root == s.default_root,
        again.others == s.others,
        again.files == s.files,
        later[0] == disks.last(),
        files::side_by_side(sync_links(s)),
        0 <= i < s.others.len(),
        0 <= j < s.files.len(),
        s.reports[i].files[j].1 is Linked || s.reports[i].files[j].1 is AlreadyLinked,
    ensures
        again.reports[i].files[j] == (s.files[j], FileView::AlreadyLinked),
        later[i * s.files.len() + j + 1] == later[i * s.files.len() + j],
        leads_home(again, later.last(), i * s.files.len() + j),
{
    reported_files_lead_home(s, sources, failures, disks, i, j);
    let k = lemma_slot(again, i, j);
    let count = sync_links(again).len() as int;
    assert(sync_links(again) =~= sync_links(s));
    assert(leads_home(again, later[0], k));
    lemma_home_stays(again, later_sources, later_failures, later, k, 0, k);
    lemma_home_stays(again, later_sources, later_failures, later, k, 0, count);
    let plan = run_plan(again, later_sources[k], later[k], k);
    assert(files::performed(later[k], plan.0, later_failures[k] is Some, later[k + 1]));
    finished_syncs_report_everything(again, i, j);
}

/// **Only a byte-identical `.envrc` is allowed.** `direnv` is asked for exactly
/// where the policy is to do so, both files are there, both were read, and they
/// have the same bytes; files that differ are reported as such.
pub proof fn direnv_needs_the_same_bytes(policy: AllowPolicy, sight: EnvrcSight)
    ensures
        allow_decision(policy, sight) is None <==> {
            &&& policy == AllowPolicy::Auto
            &&& sight.default_is_file
            &&& sight.other_exists
            &&& sight.default_content is Some
            &&& sight.other_content is Some
            &&& sight.default_content->0@.len() == sight.other_content->0@.len()
            &&& forall|i: int|
                0 <= i < sight.default_content->0@.len() ==> #[trigger] sight.default_content->0@[i]
                    == sight.other_content->0@[i]
        },
        allow_decision(policy, sight) == Some(AllowStatus::EnvrcMismatch) <==> {
            &&& policy == AllowPolicy::Auto
            &&& sight.default_is_file
            &&& sight.other_exists
            &&& !(sight.default_content is Some && sight.other_content is Some
                && sight.default_content->0@ == sight.other_content->0@)
        },
        allow_decision(policy, sight) == Some(AllowStatus::NotApplicable) <==> !(
        sight.default_is_file && sight.other_exists),
        allow_decision(policy, sight) == Some(AllowStatus::Disabled) <==> sight.default_is_file
            && sight.other_exists && policy == AllowPolicy::Never,
        allow_decision(policy, sight) == Some(AllowStatus::Hinted) <==> sight.default_is_file
            && sight.other_exists && policy == AllowPolicy::Hint,
{
    if sight.default_content is Some && sight.other_content is Some {
        let a = sight.default_content->0@;
        let b = sight.other_content->0@;
        if a.len() == b.len() && forall|i: int| 0 <= i < a.len() ==> #[trigger] a[i] == b[i] {
            assert(a =~= b);
        }
    }
}

/// **Contents are equal exactly where both were read and have the same bytes.**
pub proof fn equal_means_the_same_bytes(a: Option<Vec<u8>>, b: Option<Vec<u8>>)
    ensures
        equal_contents(a, b) <==> a is Some && b is Some && a->0@.len() == b->0@.len() && forall|
            i: int,
        |
            0 <= i < a->0@.len() ==> #[trigger] a->0@[i] == b->0@[i],
{
    if a is Some && b is Some && a->0@.len() == b->0@.len() {
        if forall|i: int| 0 <= i < a->0@.len() ==> #[trigger] a->0@[i] == b->0@[i] {
            assert(a->0@ =~= b->0@);
        }
    }
}

/// **What `direnv` reports is what is reported of it.**
pub proof fn direnv_results_are_told_apart(result: DirenvResult)
    ensures
        allow_outcome(result) == AllowStatus::Allowed <==> result is Succeeded,
        allow_outcome(result) == AllowStatus::DirenvFailed <==> result is Failed,
        allow_outcome(result) == AllowStatus::DirenvMissing <==> result is NotRun,
{
}

/// **What mirroring a file comes to.** A free place gets a link to the default
/// workspace's file, where that exists; a link to it is left alone; a link to
/// somewhere else is replaced with force, and reported without; what is tracked is
/// never touched.
pub proof fn mirroring_links_to_the_default_file(
    default_root: Seq<u8>,
    root: Seq<u8>,
    name: Seq<char>,
    force: bool,
    sight: FileSight,
)
    ensures
        ({
            let source = path::child(default_root, name);
            let place = path::child(root, name);
            let (deeds, status) = file_plan(source, place, force, sight.source, sight.site@);
            let right = sight.site matches Site::Link(found) && path::parts(found@) == path::parts(
                source,
            );
            let made = sight.site is Absent && sight.source;
            let replaced = force && sight.site is Link && !right;
            &&& status is Linked <==> made || replaced
            &&& status is AlreadyLinked <==> right
            &&& status is TrackedFile <==> sight.site is File || sight.site is Directory
            &&& status is SourceMissing <==> sight.site is Absent && !sight.source
            &&& !force && sight.site is Link && !right <==> status is WrongTarget
            &&& status is WrongTarget ==> status == FileView::WrongTarget(
                source,
                sight.site->Link_0@,
            )
            &&& sight.site matches Site::BadLink(message) ==> status == FileView::Failed(message@)
            &&& sight.site matches Site::Unreadable(message) ==> status == FileView::Failed(message@)
            &&& !(made || replaced) <==> deeds.len() == 0
            &&& made || replaced ==> deeds.last() == (StepView::Symlink(source, place), true)
            &&& replaced ==> deeds.len() == 2 && deeds[0] == (StepView::RemoveFile(place), true)
            &&& made ==> deeds.len() <= 2 && (deeds.len() == 2 <==> path::parent_of(place) is Some)
                && (path::parent_of(place) matches Some(above) ==> deeds[0] == (
                StepView::MakeDirs(above),
                false,
            ))
        }),
{
}

/// **A sync asks for every file of every workspace, for each in the default one
/// and in the other one**, then for the two `.envrc`, and for `direnv` where it is
/// to be run.
pub proof fn syncs_ask_for_the_files(s: SyncState)
    requires
        sync_sound(s),
    ensures
        sync_asks(s) is None <==> s.reports.len() == s.others.len(),
        s.reports.len() < s.others.len() ==> {
            let other = s.others[s.reports.len() as int];
            &&& s.statuses.len() < s.files.len() ==> sync_asks(s) == Some(
                SyncAskView::Look(
                    path::child(s.default_root, s.files[s.statuses.len() as int]),
                    path::child(other, s.files[s.statuses.len() as int]),
                ),
            )
            &&& s.statuses.len() == s.files.len() && !s.allowing ==> sync_asks(s) == Some(
                SyncAskView::Envrc(
                    path::child(s.default_root, ".envrc"@),
                    path::child(other, ".envrc"@),
                ),
            )
            &&& s.statuses.len() == s.files.len() && s.allowing ==> sync_asks(s) == Some(
                SyncAskView::Direnv(other),
            )
        },
{
}

/// **Where the repository of a workspace is**: in its own `.jj`, or where the
/// pointer there leads, if there is a directory.
pub proof fn repositories_are_where_pointers_lead(
    jj_dir: Seq<u8>,
    pointer: RepoPointer,
    resolved: Seq<u8>,
    is_dir: bool,
)
    ensures
        ({
            let found = repo_dir_of(jj_dir, pointer, resolved, is_dir);
            &&& found is Ok <==> pointer is Directory || pointer is File && is_dir
            &&& pointer is Directory ==> found == Ok::<Seq<u8>, WorkspaceErrorView>(
                path::child(jj_dir, "repo"@),
            )
            &&& pointer is File && is_dir ==> found == Ok::<Seq<u8>, WorkspaceErrorView>(resolved)
            &&& found is Err ==> found->Err_0 is Load
        }),
{
}

/// **Every workspace that is there is listed once**, and none that is not.
pub proof fn workspaces_are_listed_once(sights: Seq<WorkspaceSight>, next: WorkspaceSight)
    ensures
        present(Seq::empty()).len() == 0,
        present(sights.push(next)).len() == present(sights).len() + (if next.is_dir {
            1int
        } else {
            0int
        }),
        !next.is_dir ==> present(sights.push(next)) == present(sights),
{
    assert(sights.push(next).drop_last() =~= sights);
    let before = present(sights);
    order::lemma_place(info_names(before), next.name@);
}

/// **A pointer leads to what it says, without the white space around it**, taken
/// from the directory it is in.
pub proof fn pointers_are_read_without_white_space(jj_dir: Seq<u8>, content: Seq<u8>) -> (ends: (
    int,
    int,
))
    ensures
        ({
            let said = text::lossy_text(content);
            &&& 0 <= ends.0 <= ends.1 <= said.len()
            &&& pointed_at(jj_dir, content) == path::joined(
                jj_dir,
                encode_utf8(said.subrange(ends.0, ends.1)),
            )
            &&& forall|i: int|
                0 <= i < ends.0 || ends.1 <= i < said.len() ==> text::white(#[trigger] said[i])
            &&& ends.0 < ends.1 ==> !text::white(said[ends.0]) && !text::white(said[ends.1 - 1])
        }),
{
    text::trimming_takes_white_space_off(text::lossy_text(content))
}

/// **A sync goes on file by file and workspace by workspace**: what is reported of a
/// file stands under its name, and what was reported stays as it was.
pub proof fn syncs_go_on_file_by_file(s: SyncState, status: FileView, allow: AllowStatus)
    requires
        sync_sound(s),
        s.reports.len() < s.others.len(),
    ensures
        s.statuses.len() < s.files.len() ==> {
            let next = with_file(s, status);
            &&& next.statuses == s.statuses.push((s.files[s.statuses.len() as int], status))
            &&& next.reports == s.reports && next.allowing == s.allowing
            &&& next.default_root == s.default_root && next.others == s.others
            &&& next.files == s.files && next.policy == s.policy && next.force == s.force
        },
        ({
            let next = with_report(s, allow);
            &&& next.reports.len() == s.reports.len() + 1
            &&& next.reports.last().root == s.others[s.reports.len() as int]
            &&& next.reports.last().files == s.statuses
            &&& next.reports.last().allow == allow
            &&& next.reports.drop_last() == s.reports
            &&& next.statuses.len() == 0 && !next.allowing
            &&& next.default_root == s.default_root && next.others == s.others
            &&& next.files == s.files && next.policy == s.policy && next.force == s.force
        }),
{
    assert(with_report(s, allow).reports.drop_last() =~= s.reports);
}

/// **A sync begins with the files and the policy of the configuration, and with
/// nothing done.**
pub proof fn syncs_begin_with_the_configuration(
    default_root: Seq<u8>,
    others: Seq<Seq<u8>>,
    config: WorkspaceConfig,
    force: bool,
)
    ensures
        ({
            let s = sync_started(default_root, others, config, force);
            &&& s.default_root == default_root && s.others == others && s.force == force
            &&& s.policy == config.allow
            &&& config.sync matches Some(files) ==> s.files == text::views(files@)
            &&& config.sync is None ==> s.files == seq![
                ".envrc"@,
                "devenv.nix"@,
                "devenv.yaml"@,
                "devenv.lock"@,
            ]
            &&& s.reports.len() == 0 && s.statuses.len() == 0 && !s.allowing
        }),
{
}

/// **What is said of a wrong link tells where it leads and where it should.**
pub proof fn wrong_links_are_told_apart(expected: Seq<u8>, found: Seq<u8>, message: Seq<char>)
    ensures
        file_text(FileView::WrongTarget(expected, found)) == "points to "@ + text::lossy_text(found)
            + " instead of "@ + text::lossy_text(expected),
        file_text(FileView::Failed(message)) == message,
        workspace_error_text(WorkspaceErrorView::NoRepo(found)) == "no jj repo at "@
            + text::lossy_text(found),
        workspace_error_text(WorkspaceErrorView::Load(message)) == "could not load repo: "@
            + message,
{
}

/// **What came of the allow step is said in as many words.**
pub proof fn allow_steps_are_told_apart(status: AllowStatus)
    ensures
        status == AllowStatus::Allowed ==> allow_text(status) == "allowed"@,
        status == AllowStatus::Hinted ==> allow_text(status)
            == "hint: run direnv allow <workspace>"@,
        status == AllowStatus::EnvrcMismatch ==> allow_text(status)
            == ".envrc differs from default workspace, not allowed"@,
        status == AllowStatus::Disabled ==> allow_text(status) == "allow disabled"@,
        status == AllowStatus::DirenvMissing ==> allow_text(status) == "direnv not found in PATH"@,
        status == AllowStatus::DirenvFailed ==> allow_text(status) == "direnv allow failed"@,
        status == AllowStatus::NotApplicable ==> allow_text(status) == "no .envrc"@,
{
}

} // verus!
