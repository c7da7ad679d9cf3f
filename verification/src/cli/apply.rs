//! `jjn apply`: repos, links, workspaces — in this order, because links may
//! point into materialized repos.

use jj_lib::config::StackedConfig;
use vstd::prelude::*;

use super::complained;
use super::end_with;
use super::error;
use super::error_line;
use super::line_views;
use super::no_lines;
use super::put_line;
use super::said;
use super::Ending;
use super::Line;
use super::LineView;
use crate::config::get_error_text;
use crate::config::load_repos_config;
use crate::config::repos_config_of;
use crate::config::stack::stack_layers;
use crate::config::stack::stacked;
use crate::config::trust::TrustedRoot;
use crate::config::ConfigGetError;
use crate::config::SecondaryMode;
use crate::config::WorkspaceConfig;
use crate::link;
use crate::link::LinkEntry;
use crate::lock::lock_error_text;
use crate::lock::LockError;
use crate::path;
use crate::path::FsPath;
use crate::repo;
use crate::repo::entry::apart;
use crate::repo::entry::apply_status_text;
use crate::repo::entry::clashes;
use crate::repo::entry::duplicate_of;
use crate::repo::entry::first_clash;
use crate::repo::entry::name_of;
use crate::repo::entry::name_taken;
use crate::repo::entry::repo_error_text;
use crate::repo::entry::target_of;
use crate::repo::entry::target_taken;
use crate::repo::RepoEntry;
use crate::repo::RepoError;
use crate::text;
use crate::toml::Entries;
use crate::workspace;
use crate::workspace::info_views;
use crate::workspace::InfoView;
use crate::workspace::WorkspaceError;
use crate::workspace::WorkspaceInfo;
use crate::workspace::WorkspaceReport;

verus! {

// ---------------------------------------------------------------------------
// What is declared
// ---------------------------------------------------------------------------

/// What the local configuration declares.
#[derive(Debug)]
pub struct Declared {
    /// The `[[repo]]` entries.
    pub repos: Vec<RepoEntry>,
    /// The `[[link]]` entries.
    pub links: Vec<LinkEntry>,
    /// How secondary workspaces see sub-repos.
    pub secondary: SecondaryMode,
}

/// Whether these are the declared `[[repo]]` entries.
pub open spec fn declares_repos(layers: Seq<(nat, Entries)>, repos: Seq<RepoEntry>) -> bool {
    match stacked(layers, "repo"@) {
        None => repos.len() == 0,
        Some(node) => repo::load::entries_of(node) == Some(repo::load::entry_views(repos)),
    }
}

/// Whether the `[[repo]]` section can be read.
pub open spec fn repos_readable(layers: Seq<(nat, Entries)>) -> bool {
    match stacked(layers, "repo"@) {
        None => true,
        Some(node) => repo::load::entries_of(node) is Some,
    }
}

/// Whether these are the declared `[[link]]` entries.
pub open spec fn declares_links(layers: Seq<(nat, Entries)>, links: Seq<LinkEntry>) -> bool {
    match stacked(layers, "link"@) {
        None => links.len() == 0,
        Some(node) => link::entries_of(node) == Some(link::entry_views(links)),
    }
}

/// Whether the `[[link]]` section can be read.
pub open spec fn links_readable(layers: Seq<(nat, Entries)>) -> bool {
    match stacked(layers, "link"@) {
        None => true,
        Some(node) => link::entries_of(node) is Some,
    }
}

/// The declared way in which secondary workspaces see sub-repos.
pub open spec fn secondary_of(layers: Seq<(nat, Entries)>) -> Option<SecondaryMode> {
    match stacked(layers, "repos"@) {
        None => Some(SecondaryMode::Link),
        Some(node) => match repos_config_of(node) {
            Some(config) => Some(config.secondary),
            None => None,
        },
    }
}

/// What is said of `[[repo]]` entries that clash.
pub open spec fn clash_line(repos: Seq<RepoEntry>) -> LineView {
    let clash = duplicate_of(repos)->0;
    error_line("duplicate repo "@ + clash.0 + ": "@ + clash.1)
}

/// Reads the `[[repo]]` entries.
pub fn read_repos(local: &StackedConfig) -> (repos: Result<Vec<RepoEntry>, Line>)
    ensures
        match repos {
            Ok(repos) => declares_repos(stack_layers(*local), repos@),
            Err(line) => !repos_readable(stack_layers(*local)) && line@ == error_line(
                "local config [[repo]]: "@ + get_error_text("repo"@),
            ),
        },
{
    match repo::load_entries(local) {
        Ok(repos) => {
            assert(repos@.len() == 0 ==> repo::load::entry_views(repos@) =~= Seq::empty());
            Ok(repos)
        },
        Err(err) => Err(
            error("local config [[repo]]: ".to_owned().concat(err.message().as_str()).as_str()),
        ),
    }
}

/// Reads the `[[link]]` entries.
pub fn read_links(local: &StackedConfig) -> (links: Result<Vec<LinkEntry>, Line>)
    ensures
        match links {
            Ok(links) => declares_links(stack_layers(*local), links@),
            Err(line) => !links_readable(stack_layers(*local)) && line@ == error_line(
                "local config [[link]]: "@ + get_error_text("link"@),
            ),
        },
{
    match link::load_entries(local) {
        Ok(links) => Ok(links),
        Err(err) => Err(
            error("local config [[link]]: ".to_owned().concat(err.message().as_str()).as_str()),
        ),
    }
}

/// Reads the way in which secondary workspaces see sub-repos.
pub fn read_secondary(local: &StackedConfig) -> (mode: Result<SecondaryMode, Line>)
    ensures
        match mode {
            Ok(mode) => secondary_of(stack_layers(*local)) == Some(mode),
            Err(line) => secondary_of(stack_layers(*local)) is None && line@ == error_line(
                "local config [repos]: "@ + get_error_text("repos"@),
            ),
        },
{
    match load_repos_config(local) {
        Ok(config) => Ok(config.secondary),
        Err(err) => Err(
            error("local config [repos]: ".to_owned().concat(err.message().as_str()).as_str()),
        ),
    }
}

/// Why what is declared is refused, if so, where these are the `[[repo]]`
/// entries.
pub open spec fn refusal(layers: Seq<(nat, Entries)>, repos: Seq<RepoEntry>) -> Option<LineView> {
    if !apart(repos) {
        Some(clash_line(repos))
    } else if !links_readable(layers) {
        Some(error_line("local config [[link]]: "@ + get_error_text("link"@)))
    } else if secondary_of(layers) is None {
        Some(error_line("local config [repos]: "@ + get_error_text("repos"@)))
    } else {
        None
    }
}

/// Reads what the local configuration declares. Entries that clash, and
/// sections that cannot be read, are errors.
pub fn read_declared(local: &StackedConfig) -> (declared: Result<Declared, Line>)
    ensures
        ({
            let layers = stack_layers(*local);
            match declared {
                Ok(declared) => {
                    &&& declares_repos(layers, declared.repos@)
                    &&& declares_links(layers, declared.links@)
                    &&& secondary_of(layers) == Some(declared.secondary)
                    &&& refusal(layers, declared.repos@) is None
                },
                Err(line) => {
                    if repos_readable(layers) {
                        exists|repos: Seq<RepoEntry>| #[trigger]
                            declares_repos(layers, repos) && refusal(layers, repos) == Some(line@)
                    } else {
                        line@ == error_line("local config [[repo]]: "@ + get_error_text("repo"@))
                    }
                },
            }
        }),
{
    let repos = match read_repos(local) {
        Ok(repos) => repos,
        Err(line) => return Err(line),
    };
    assert(declares_repos(stack_layers(*local), repos@));
    if let Err(err) = repo::validate(repos.as_slice()) {
        return Err(error(err.message().as_str()));
    }
    let links = match read_links(local) {
        Ok(links) => links,
        Err(line) => return Err(line),
    };
    let secondary = match read_secondary(local) {
        Ok(secondary) => secondary,
        Err(line) => return Err(line),
    };
    Ok(Declared { repos, links, secondary })
}

/// What is said in a workspace that is not trusted.
pub open spec fn untrusted_text(root: Seq<u8>) -> Seq<char> {
    "repo "@ + text::lossy_text(root)
        + " is not trusted; run `jjn trust` to apply [[repo]] and [[link]] entries"@
}

/// Ends `apply` in a workspace that is not trusted: nothing is done, and a hint
/// is given where there was something to do.
pub fn untrusted_ending(root: &FsPath, declared: &Declared, quiet: bool) -> (ending: Ending)
    ensures
        ending@ == (
            if (declared.repos@.len() > 0 || declared.links@.len() > 0) && !quiet {
                seq![(false, untrusted_text(root@))]
            } else {
                Seq::empty()
            },
            false,
        ),
{
    if (declared.repos.len() > 0 || declared.links.len() > 0) && !quiet {
        let hint = "repo ".to_owned().concat(root.display().as_str()).concat(
            " is not trusted; run `jjn trust` to apply [[repo]] and [[link]] entries",
        );
        return end_with(said(hint), false);
    }
    Ending { lines: no_lines(), failed: false }
}

// ---------------------------------------------------------------------------
// What is done, in order
// ---------------------------------------------------------------------------

/// One thing to do.
#[derive(Debug)]
pub enum Task {
    /// Loads the lock; if that fails, the command fails at once.
    LoadLock,
    /// Materializes a `[[repo]]` entry below a workspace root.
    Materialize {
        /// The workspace root.
        root: FsPath,
        /// The index of the entry.
        index: usize,
        /// Whether the remote is fetched from and the revision resolved anew;
        /// otherwise a locked entry is brought to the lock.
        refresh: bool,
    },
    /// Drops what the lock has of entries that are no longer declared.
    CollectGarbage,
    /// Writes the lock, if it was changed.
    SaveLock,
    /// Links the sub-repos of a secondary workspace to the default one.
    LinkSecondary {
        /// The default workspace.
        default_root: FsPath,
        /// The secondary workspace.
        secondary_root: FsPath,
        /// Whether links to somewhere else are replaced.
        force: bool,
    },
    /// Applies a `[[link]]` entry.
    ApplyLink {
        /// The index of the entry.
        index: usize,
        /// Whether what stands in the way is replaced.
        force: bool,
    },
    /// Mirrors files into the other workspaces.
    Sync {
        /// The default workspace.
        default_root: FsPath,
        /// The other workspaces.
        others: Vec<FsPath>,
        /// Whether links to somewhere else are replaced.
        force: bool,
    },
    /// Prints a line; one for the normal output is left out when quiet.
    Say(Line),
}

/// A [`Task`] by value.
pub enum TaskView {
    /// See [`Task::LoadLock`].
    LoadLock,
    /// See [`Task::Materialize`].
    Materialize(Seq<u8>, int, bool),
    /// See [`Task::CollectGarbage`].
    CollectGarbage,
    /// See [`Task::SaveLock`].
    SaveLock,
    /// See [`Task::LinkSecondary`].
    LinkSecondary(Seq<u8>, Seq<u8>, bool),
    /// See [`Task::ApplyLink`].
    ApplyLink(int, bool),
    /// See [`Task::Sync`].
    Sync(Seq<u8>, Seq<Seq<u8>>, bool),
    /// See [`Task::Say`].
    Say(LineView),
}

impl View for Task {
    type V = TaskView;

    open spec fn view(&self) -> TaskView {
        match *self {
            Task::LoadLock => TaskView::LoadLock,
            Task::Materialize { root, index, refresh } => TaskView::Materialize(
                root@,
                index as int,
                refresh,
            ),
            Task::CollectGarbage => TaskView::CollectGarbage,
            Task::SaveLock => TaskView::SaveLock,
            Task::LinkSecondary { default_root, secondary_root, force } => TaskView::LinkSecondary(
                default_root@,
                secondary_root@,
                force,
            ),
            Task::ApplyLink { index, force } => TaskView::ApplyLink(index as int, force),
            Task::Sync { default_root, others, force } => TaskView::Sync(
                default_root@,
                path::views(others@),
                force,
            ),
            Task::Say(line) => TaskView::Say(line@),
        }
    }
}

/// Tasks by value.
pub open spec fn task_views(tasks: Seq<Task>) -> Seq<TaskView> {
    tasks.map_values(|task: Task| task@)
}

pub(crate) fn put_task(tasks: &mut Vec<Task>, task: Task)
    ensures
        task_views(final(tasks)@) == task_views(old(tasks)@).push(task@),
{
    let ghost before = task_views(tasks@);
    tasks.push(task);
    assert(task_views(tasks@) =~= before.push(task@));
}

/// The root of the default workspace.
pub open spec fn default_in(list: Seq<InfoView>) -> Option<Seq<u8>>
    decreases list.len(),
{
    if list.len() == 0 {
        None
    } else if list[0].2 {
        Some(list[0].1)
    } else {
        default_in(list.skip(1))
    }
}

/// The roots of the other workspaces.
pub open spec fn others_in(list: Seq<InfoView>) -> Seq<Seq<u8>>
    decreases list.len(),
{
    if list.len() == 0 {
        Seq::empty()
    } else if list.last().2 {
        others_in(list.drop_last())
    } else {
        others_in(list.drop_last()).push(list.last().1)
    }
}

/// The root of the default workspace.
pub fn default_root(list: &Vec<WorkspaceInfo>) -> (root: Option<FsPath>)
    ensures
        match root {
            Some(root) => default_in(info_views(list@)) == Some(root@),
            None => default_in(info_views(list@)) is None,
        },
{
    let ghost all = info_views(list@);
    let mut i: usize = 0;
    assert(all.skip(0) =~= all);
    while i < list.len()
        invariant
            i <= list.len(),
            all == info_views(list@),
            default_in(all) == default_in(all.skip(i as int)),
        decreases list.len() - i,
    {
        assert(all.skip(i as int)[0] == all[i as int]);
        if list[i].is_default {
            return Some(list[i].root.clone());
        }
        assert(all.skip(i as int).skip(1) =~= all.skip(i + 1));
        i = i + 1;
    }
    None
}

/// The roots of the other workspaces.
pub fn other_roots(list: &Vec<WorkspaceInfo>) -> (roots: Vec<FsPath>)
    ensures
        path::views(roots@) == others_in(info_views(list@)),
{
    let ghost all = info_views(list@);
    let mut roots: Vec<FsPath> = Vec::new();
    let mut i: usize = 0;
    assert(path::views(roots@) =~= others_in(all.take(0)));
    while i < list.len()
        invariant
            i <= list.len(),
            all == info_views(list@),
            path::views(roots@) == others_in(all.take(i as int)),
        decreases list.len() - i,
    {
        assert(all.take(i + 1).drop_last() =~= all.take(i as int));
        assert(all.take(i + 1).last() == all[i as int]);
        if !list[i].is_default {
            let ghost before = path::views(roots@);
            let root = list[i].root.clone();
            roots.push(root);
            assert(path::views(roots@) =~= before.push(root@));
        }
        i = i + 1;
    }
    assert(all.take(i as int) =~= all);
    roots
}

/// The workspaces by value, or why they are not known.
pub type TopologyView = Result<Seq<InfoView>, Seq<char>>;

/// The workspaces by value, or why they are not known.
pub open spec fn topology_view(
    workspaces: Result<Vec<WorkspaceInfo>, WorkspaceError>,
) -> TopologyView {
    match workspaces {
        Ok(list) => Ok(info_views(list@)),
        Err(err) => Err(workspace::workspace_error_text(err@)),
    }
}

/// The default workspace, where it is known.
pub open spec fn known_default(topology: TopologyView) -> Option<Seq<u8>> {
    match topology {
        Ok(list) => default_in(list),
        Err(_) => None,
    }
}

/// Where sub-repos are materialized: in the default workspace, which holds the
/// canonical checkout; in the invoking one where that clones for itself, or
/// where no default workspace is known.
pub open spec fn repo_root_of(
    root: Seq<u8>,
    mode: SecondaryMode,
    topology: TopologyView,
) -> Seq<u8> {
    match (mode, known_default(topology)) {
        (SecondaryMode::Clone, _) => root,
        (_, Some(default)) => default,
        (_, None) => root,
    }
}

/// Where sub-repos are materialized.
pub fn repo_root(
    root: &FsPath,
    mode: SecondaryMode,
    workspaces: &Result<Vec<WorkspaceInfo>, WorkspaceError>,
) -> (at: FsPath)
    ensures
        at@ == repo_root_of(root@, mode, topology_view(*workspaces)),
{
    match mode {
        SecondaryMode::Clone => root.clone(),
        _ => match workspaces {
            Ok(list) => match default_root(list) {
                Some(default) => default,
                None => root.clone(),
            },
            Err(_) => root.clone(),
        },
    }
}

/// Materializing the entries in order, anew or as the lock has them.
pub open spec fn materializing(root: Seq<u8>, count: nat, refresh: bool) -> Seq<TaskView> {
    Seq::new(count, |i: int| TaskView::Materialize(root, i, refresh))
}

/// Linking the secondary workspaces in order.
pub open spec fn linking(default: Seq<u8>, others: Seq<Seq<u8>>, force: bool) -> Seq<TaskView> {
    others.map_values(|other: Seq<u8>| TaskView::LinkSecondary(default, other, force))
}

/// Bringing sub-repos to the lock, or, with `refresh`, sub-repos and lock to the
/// remotes: the lock is loaded, the sub-repos are materialized in order, and the
/// lock is written.
pub open spec fn converging(root: Seq<u8>, count: nat, refresh: bool, garbage: bool) -> Seq<
    TaskView,
> {
    seq![TaskView::LoadLock] + materializing(root, count, refresh) + (if garbage {
        seq![TaskView::CollectGarbage, TaskView::SaveLock]
    } else {
        seq![TaskView::SaveLock]
    })
}

pub(crate) fn put_converging(
    tasks: &mut Vec<Task>,
    root: &FsPath,
    count: usize,
    refresh: bool,
    garbage: bool,
)
    ensures
        task_views(final(tasks)@) == task_views(old(tasks)@) + converging(
            root@,
            count as nat,
            refresh,
            garbage,
        ),
{
    let ghost before = task_views(tasks@);
    put_task(tasks, Task::LoadLock);
    let ghost head = before + seq![TaskView::LoadLock];
    assert(task_views(tasks@) =~= head + materializing(root@, 0, refresh));
    let mut i: usize = 0;
    while i < count
        invariant
            i <= count,
            task_views(tasks@) == head + materializing(root@, i as nat, refresh),
        decreases count - i,
    {
        put_task(tasks, Task::Materialize { root: root.clone(), index: i, refresh });
        assert(materializing(root@, (i + 1) as nat, refresh) =~= materializing(root@, i as nat, refresh).push(
            TaskView::Materialize(root@, i as int, refresh),
        ));
        assert(task_views(tasks@) =~= head + materializing(root@, (i + 1) as nat, refresh));
        i = i + 1;
    }
    if garbage {
        put_task(tasks, Task::CollectGarbage);
    }
    put_task(tasks, Task::SaveLock);
    assert(task_views(tasks@) =~= before + converging(root@, count as nat, refresh, garbage));
}

/// What is done for the sub-repos: all of them are brought to the lock, the
/// lock is written, and the secondary workspaces are linked where they are to
/// be.
pub open spec fn repo_tasks(
    root: Seq<u8>,
    count: nat,
    mode: SecondaryMode,
    topology: TopologyView,
    force: bool,
) -> Seq<TaskView> {
    if count == 0 {
        Seq::empty()
    } else {
        converging(repo_root_of(root, mode, topology), count, false, false) + (match (mode, known_default(topology)) {
            (SecondaryMode::Link, Some(default)) => linking(
                default,
                others_in(topology->Ok_0),
                force,
            ),
            _ => Seq::empty(),
        })
    }
}

/// What is done for the links.
pub open spec fn link_tasks(count: nat, force: bool) -> Seq<TaskView> {
    if count == 0 {
        seq![TaskView::Say((false, "no [[link]] entries"@))]
    } else {
        Seq::new(count, |i: int| TaskView::ApplyLink(i, force))
    }
}

/// A warning that workspaces are not synced.
pub open spec fn not_synced(why: Seq<char>) -> Seq<TaskView> {
    seq![TaskView::Say((true, "warning: workspace sync skipped: "@ + why))]
}

/// What is done for the workspaces: with more than one, files are mirrored
/// from the default one.
pub open spec fn sync_tasks(
    topology: TopologyView,
    config: Result<(), Seq<char>>,
    force: bool,
) -> Seq<TaskView> {
    match topology {
        Err(why) => not_synced(why),
        Ok(list) => if list.len() <= 1 {
            Seq::empty()
        } else {
            match default_in(list) {
                None => not_synced("no default workspace found"@),
                Some(default) => match config {
                    Err(why) => not_synced(why),
                    Ok(_) => seq![TaskView::Sync(default, others_in(list), force)],
                },
            }
        },
    }
}

/// Everything that `apply` does, in order.
pub open spec fn apply_tasks_of(
    root: Seq<u8>,
    repos: nat,
    links: nat,
    mode: SecondaryMode,
    topology: TopologyView,
    config: Result<(), Seq<char>>,
    force: bool,
) -> Seq<TaskView> {
    repo_tasks(root, repos, mode, topology, force) + link_tasks(links, force) + sync_tasks(
        topology,
        config,
        force,
    )
}

/// Whether the `[workspace]` section can be used, or why not.
pub open spec fn config_view(config: Result<WorkspaceConfig, ConfigGetError>) -> Result<
    (),
    Seq<char>,
> {
    match config {
        Ok(_) => Ok(()),
        Err(err) => Err(get_error_text(err.name@)),
    }
}

fn put_repo_tasks(
    tasks: &mut Vec<Task>,
    root: &FsPath,
    declared: &Declared,
    workspaces: &Result<Vec<WorkspaceInfo>, WorkspaceError>,
    force: bool,
)
    ensures
        task_views(final(tasks)@) == task_views(old(tasks)@) + repo_tasks(
            root@,
            declared.repos@.len(),
            declared.secondary,
            topology_view(*workspaces),
            force,
        ),
{
    let ghost before = task_views(tasks@);
    let ghost topology = topology_view(*workspaces);
    let count: usize = declared.repos.len();
    if count == 0 {
        assert(before + Seq::<TaskView>::empty() =~= before);
        return;
    }
    let at = repo_root(root, declared.secondary, workspaces);
    put_converging(tasks, &at, count, false, false);
    let ghost body = before + converging(at@, count as nat, false, false);
    let ghost mut linked: Seq<TaskView> = Seq::empty();
    if let SecondaryMode::Link = declared.secondary {
        if let Ok(list) = workspaces {
            if let Some(default) = default_root(list) {
                let others = other_roots(list);
                let ghost roots = path::views(others@);
                let mut i: usize = 0;
                assert(task_views(tasks@) =~= body + linking(default@, roots.take(0), force));
                while i < others.len()
                    invariant
                        i <= others.len(),
                        roots == path::views(others@),
                        task_views(tasks@) == body + linking(default@, roots.take(i as int), force),
                    decreases others.len() - i,
                {
                    put_task(
                        tasks,
                        Task::LinkSecondary {
                            default_root: default.clone(),
                            secondary_root: others[i].clone(),
                            force,
                        },
                    );
                    assert(linking(default@, roots.take(i + 1), force) =~= linking(
                        default@,
                        roots.take(i as int),
                        force,
                    ).push(TaskView::LinkSecondary(default@, roots[i as int], force)));
                    assert(task_views(tasks@) =~= body + linking(default@, roots.take(i + 1), force));
                    i = i + 1;
                }
                proof {
                    assert(roots.take(i as int) =~= roots);
                    linked = linking(default@, roots, force);
                }
            }
        }
    }
    assert(task_views(tasks@) =~= body + linked);
    assert(task_views(tasks@) =~= before + repo_tasks(
        root@,
        declared.repos@.len(),
        declared.secondary,
        topology,
        force,
    ));
}

fn put_link_tasks(tasks: &mut Vec<Task>, count: usize, force: bool)
    ensures
        task_views(final(tasks)@) == task_views(old(tasks)@) + link_tasks(count as nat, force),
{
    let ghost before = task_views(tasks@);
    if count == 0 {
        put_task(tasks, Task::Say(said("no [[link]] entries".to_owned())));
        assert(task_views(tasks@) =~= before + link_tasks(0, force));
        return;
    }
    let mut i: usize = 0;
    let ghost all = Seq::new(count as nat, |i: int| TaskView::ApplyLink(i, force));
    assert(task_views(tasks@) =~= before + all.take(0));
    while i < count
        invariant
            i <= count,
            all == Seq::new(count as nat, |i: int| TaskView::ApplyLink(i, force)),
            task_views(tasks@) == before + all.take(i as int),
        decreases count - i,
    {
        put_task(tasks, Task::ApplyLink { index: i, force });
        assert(task_views(tasks@) =~= before + all.take(i + 1));
        i = i + 1;
    }
    assert(all.take(i as int) =~= all);
}

fn warn_not_synced(tasks: &mut Vec<Task>, why: &str)
    ensures
        task_views(final(tasks)@) == task_views(old(tasks)@) + not_synced(why@),
{
    let ghost before = task_views(tasks@);
    put_task(
        tasks,
        Task::Say(complained("warning: workspace sync skipped: ".to_owned().concat(why))),
    );
    assert(task_views(tasks@) =~= before + not_synced(why@));
}

fn put_sync_tasks(
    tasks: &mut Vec<Task>,
    workspaces: &Result<Vec<WorkspaceInfo>, WorkspaceError>,
    config: &Result<WorkspaceConfig, ConfigGetError>,
    force: bool,
)
    ensures
        task_views(final(tasks)@) == task_views(old(tasks)@) + sync_tasks(
            topology_view(*workspaces),
            config_view(*config),
            force,
        ),
{
    let ghost before = task_views(tasks@);
    match workspaces {
        Err(err) => {
            warn_not_synced(tasks, err.message().as_str());
        },
        Ok(list) => {
            if list.len() <= 1 {
                assert(before + Seq::<TaskView>::empty() =~= before);
                return;
            }
            match default_root(list) {
                None => {
                    warn_not_synced(tasks, "no default workspace found");
                },
                Some(default) => match config {
                    Err(err) => {
                        warn_not_synced(tasks, err.message().as_str());
                    },
                    Ok(_) => {
                        let others = other_roots(list);
                        put_task(tasks, Task::Sync { default_root: default, others, force });
                        assert(task_views(tasks@) =~= before + sync_tasks(
                            topology_view(*workspaces),
                            config_view(*config),
                            force,
                        ));
                    },
                },
            }
        },
    }
}

/// Everything that `apply` does in a trusted workspace, in order.
pub fn apply_tasks(
    trusted: &TrustedRoot,
    declared: &Declared,
    workspaces: &Result<Vec<WorkspaceInfo>, WorkspaceError>,
    config: &Result<WorkspaceConfig, ConfigGetError>,
    force: bool,
) -> (tasks: Vec<Task>)
    ensures
        task_views(tasks@) == apply_tasks_of(
            trusted@,
            declared.repos@.len(),
            declared.links@.len(),
            declared.secondary,
            topology_view(*workspaces),
            config_view(*config),
            force,
        ),
{
    let mut tasks: Vec<Task> = Vec::new();
    let ghost none = task_views(tasks@);
    assert(none =~= Seq::<TaskView>::empty());
    put_repo_tasks(&mut tasks, trusted.root(), declared, workspaces, force);
    put_link_tasks(&mut tasks, declared.links.len(), force);
    put_sync_tasks(&mut tasks, workspaces, config, force);
    assert(task_views(tasks@) =~= apply_tasks_of(
        trusted@,
        declared.repos@.len(),
        declared.links@.len(),
        declared.secondary,
        topology_view(*workspaces),
        config_view(*config),
        force,
    ));
    tasks
}

/// The tasks of a command, one after the other.
#[derive(Debug)]
pub struct TaskRun {
    tasks: Vec<Task>,
    at: usize,
    failed: bool,
}

/// Where a [`TaskRun`] stands.
pub struct TaskRunView {
    /// All tasks.
    pub tasks: Seq<TaskView>,
    /// How many of them are done.
    pub done: nat,
    /// Whether anything has failed.
    pub failed: bool,
}

impl View for TaskRun {
    type V = TaskRunView;

    closed spec fn view(&self) -> TaskRunView {
        TaskRunView { tasks: task_views(self.tasks@), done: self.at as nat, failed: self.failed }
    }
}

impl TaskRun {
    /// Nothing is done yet.
    pub fn new(tasks: Vec<Task>) -> (run: TaskRun)
        ensures
            run@ == (TaskRunView { tasks: task_views(tasks@), done: 0, failed: false }),
    {
        TaskRun { tasks, at: 0, failed: false }
    }

    /// What to do now; `None` once nothing is left.
    pub fn current(&self) -> (task: Option<&Task>)
        ensures
            match task {
                Some(task) => self@.done < self@.tasks.len() && task@ == self@.tasks[self@.done as int],
                None => self@.done >= self@.tasks.len(),
            },
    {
        assert(task_views(self.tasks@).len() == self.tasks@.len());
        if self.at < self.tasks.len() {
            Some(&self.tasks[self.at])
        } else {
            None
        }
    }

    /// Goes on to the next task; a failure is remembered, and keeps nothing
    /// from being done.
    pub fn finish(&mut self, failed: bool)
        requires
            old(self)@.done < old(self)@.tasks.len(),
        ensures
            final(self)@ == (TaskRunView {
                done: old(self)@.done + 1,
                failed: old(self)@.failed || failed,
                ..old(self)@
            }),
    {
        assert(task_views(self.tasks@).len() == self.tasks@.len());
        if self.at < self.tasks.len() {
            self.at = self.at + 1;
        }
        self.failed = self.failed || failed;
    }

    /// Whether anything has failed.
    pub fn has_failed(&self) -> (failed: bool)
        ensures
            failed == self@.failed,
    {
        self.failed
    }
}

// ---------------------------------------------------------------------------
// What is said of it
// ---------------------------------------------------------------------------

/// What came of one thing: a line to print, if any, and whether it failed.
pub type Outcome = (Option<LineView>, bool);

/// An outcome by value.
pub open spec fn outcome_view(outcome: (Option<Line>, bool)) -> Outcome {
    (
        match outcome.0 {
            Some(line) => Some(line@),
            None => None,
        },
        outcome.1,
    )
}

/// A line for the normal output, unless quiet.
pub open spec fn unless_quiet(quiet: bool, text: Seq<char>) -> Outcome {
    (
        if quiet {
            None
        } else {
            Some((false, text))
        },
        false,
    )
}

fn said_unless_quiet(quiet: bool, text: String) -> (outcome: (Option<Line>, bool))
    ensures
        outcome_view(outcome) == unless_quiet(quiet, text@),
{
    if quiet {
        (None, false)
    } else {
        (Some(said(text)), false)
    }
}

/// What is said of a `[[repo]]` entry.
pub open spec fn repo_outcome(
    entry: RepoEntry,
    result: Result<repo::ApplyStatus, RepoError>,
    quiet: bool,
) -> Outcome {
    match result {
        Ok(status) => unless_quiet(
            quiet,
            name_of(entry) + " ("@ + target_of(entry) + "): "@ + apply_status_text(status),
        ),
        Err(err) => (Some((true, name_of(entry) + ": "@ + repo_error_text(err))), true),
    }
}

/// Reports on a `[[repo]]` entry.
pub fn report_repo(
    entry: &RepoEntry,
    result: &Result<repo::ApplyStatus, RepoError>,
    quiet: bool,
) -> (outcome: (Option<Line>, bool))
    ensures
        outcome_view(outcome) == repo_outcome(*entry, *result, quiet),
{
    match result {
        Ok(status) => said_unless_quiet(
            quiet,
            entry.effective_name().concat(" (").concat(entry.effective_target().as_str()).concat(
                "): ",
            ).concat(status.message().as_str()),
        ),
        Err(err) => (
            Some(
                complained(
                    entry.effective_name().concat(": ").concat(err.message().as_str()),
                ),
            ),
            true,
        ),
    }
}

/// What is said of a lock that could not be written.
pub open spec fn save_outcome(failure: Option<String>) -> Outcome {
    match failure {
        Some(message) => (Some(error_line("lock: "@ + message@)), true),
        None => (None, false),
    }
}

/// Reports on writing the lock.
pub fn report_save(failure: &Option<String>) -> (outcome: (Option<Line>, bool))
    ensures
        outcome_view(outcome) == save_outcome(*failure),
{
    match failure {
        Some(message) => (
            Some(error("lock: ".to_owned().concat(message.as_str()).as_str())),
            true,
        ),
        None => (None, false),
    }
}

/// Ends a command whose lock could not be loaded.
pub fn lock_ending(err: &LockError) -> (ending: Ending)
    ensures
        ending@ == (seq![error_line(lock_error_text(*err))], true),
{
    end_with(error(err.message().as_str()), true)
}

/// What is said of a `[[link]]` entry.
pub open spec fn link_outcome(
    entry: LinkEntry,
    result: Result<link::ApplyStatus, link::LinkError>,
    quiet: bool,
) -> Outcome {
    match result {
        Ok(status) => unless_quiet(quiet, entry.target@ + ": "@ + link::apply_text(status)),
        Err(err) => (Some((true, entry.target@ + ": "@ + link::link_error_text(err@))), true),
    }
}

/// Reports on a `[[link]]` entry.
pub fn report_link(
    entry: &LinkEntry,
    result: &Result<link::ApplyStatus, link::LinkError>,
    quiet: bool,
) -> (outcome: (Option<Line>, bool))
    ensures
        outcome_view(outcome) == link_outcome(*entry, *result, quiet),
{
    match result {
        Ok(status) => said_unless_quiet(
            quiet,
            entry.target.clone().concat(": ").concat(status.message().as_str()),
        ),
        Err(err) => (
            Some(complained(entry.target.clone().concat(": ").concat(err.message().as_str()))),
            true,
        ),
    }
}

/// What is said of a file or a sub-repo in a workspace.
pub open spec fn in_workspace(root: Seq<u8>, name: Seq<char>, status: Seq<char>) -> LineView {
    (false, text::lossy_text(root) + " ["@ + name + "]: "@ + status)
}

fn line_in_workspace(root: &FsPath, name: &str, status: &str) -> (line: Line)
    ensures
        line@ == in_workspace(root@, name@, status@),
{
    said(root.display().concat(" [").concat(name).concat("]: ").concat(status))
}

/// What is said of the sub-repos of a secondary workspace.
pub open spec fn secondary_lines(
    root: Seq<u8>,
    report: Seq<(Seq<char>, repo::secondary::SecondaryView)>,
    quiet: bool,
) -> Seq<LineView> {
    if quiet {
        Seq::empty()
    } else {
        report.map_values(
            |line: (Seq<char>, repo::secondary::SecondaryView)|
                in_workspace(root, line.0, repo::secondary::secondary_text(line.1)),
        )
    }
}

/// Reports on the sub-repos of a secondary workspace.
pub fn report_secondary(
    root: &FsPath,
    report: &Vec<(String, repo::SecondaryStatus)>,
    quiet: bool,
) -> (lines: Vec<Line>)
    ensures
        line_views(lines@) == secondary_lines(
            root@,
            repo::secondary::report_view(report@),
            quiet,
        ),
{
    let mut lines = no_lines();
    if quiet {
        return lines;
    }
    let ghost all = secondary_lines(root@, repo::secondary::report_view(report@), quiet);
    let mut i: usize = 0;
    assert(all.take(0) =~= Seq::<LineView>::empty());
    while i < report.len()
        invariant
            i <= report.len(),
            !quiet,
            all == secondary_lines(root@, repo::secondary::report_view(report@), quiet),
            line_views(lines@) == all.take(i as int),
        decreases report.len() - i,
    {
        let line = line_in_workspace(
            root,
            report[i].0.as_str(),
            report[i].1.message().as_str(),
        );
        put_line(&mut lines, line);
        assert(all.take(i + 1) =~= all.take(i as int).push(all[i as int]));
        i = i + 1;
    }
    assert(all.take(i as int) =~= all);
    lines
}

/// What is said of one synced workspace: its files, and the allow step.
pub open spec fn sync_lines(report: workspace::ReportView) -> Seq<LineView> {
    report.files.map_values(
        |file: (Seq<char>, workspace::FileView)|
            in_workspace(report.root, file.0, workspace::file_text(file.1)),
    ).push(in_workspace(report.root, "allow"@, workspace::allow_text(report.allow)))
}

/// What is said of all synced workspaces.
pub open spec fn all_sync_lines(reports: Seq<workspace::ReportView>) -> Seq<LineView>
    decreases reports.len(),
{
    if reports.len() == 0 {
        Seq::empty()
    } else {
        all_sync_lines(reports.drop_last()) + sync_lines(reports.last())
    }
}

fn put_sync_lines(lines: &mut Vec<Line>, report: &WorkspaceReport)
    ensures
        line_views(final(lines)@) == line_views(old(lines)@) + sync_lines(report@),
{
    let ghost before = line_views(lines@);
    let ghost all = sync_lines(report@);
    let mut i: usize = 0;
    assert(before + all.take(0) =~= before);
    while i < report.files.len()
        invariant
            i <= report.files.len(),
            all == sync_lines(report@),
            line_views(lines@) == before + all.take(i as int),
        decreases report.files.len() - i,
    {
        let line = line_in_workspace(
            &report.root,
            report.files[i].0.as_str(),
            report.files[i].1.message().as_str(),
        );
        put_line(lines, line);
        assert(line@ == all[i as int]);
        assert(before + all.take(i + 1) =~= (before + all.take(i as int)).push(all[i as int]));
        i = i + 1;
    }
    put_line(lines, line_in_workspace(&report.root, "allow", report.allow.message().as_str()));
    assert((before + all.take(i as int)).push(all.last()) =~= before + all);
}

/// Reports on all synced workspaces.
pub fn report_sync(reports: &Vec<WorkspaceReport>, quiet: bool) -> (lines: Vec<Line>)
    ensures
        line_views(lines@) == (if quiet {
            Seq::empty()
        } else {
            all_sync_lines(workspace::report_views(reports@))
        }),
{
    let mut lines = no_lines();
    if quiet {
        return lines;
    }
    let ghost all = workspace::report_views(reports@);
    let mut i: usize = 0;
    assert(all.take(0) =~= Seq::<workspace::ReportView>::empty());
    while i < reports.len()
        invariant
            i <= reports.len(),
            all == workspace::report_views(reports@),
            line_views(lines@) == all_sync_lines(all.take(i as int)),
        decreases reports.len() - i,
    {
        put_sync_lines(&mut lines, &reports[i]);
        assert(all.take(i + 1).drop_last() =~= all.take(i as int));
        assert(all.take(i + 1).last() == reports@[i as int]@);
        i = i + 1;
    }
    assert(all.take(i as int) =~= all);
    lines
}

// ---------------------------------------------------------------------------
// Laws
// ---------------------------------------------------------------------------

/// Which phase a task belongs to.
pub open spec fn phase(task: TaskView) -> nat {
    match task {
        TaskView::LoadLock | TaskView::Materialize(_, _, _) | TaskView::CollectGarbage
        | TaskView::SaveLock | TaskView::LinkSecondary(_, _, _) => 1,
        TaskView::ApplyLink(_, _) => 2,
        TaskView::Sync(_, _, _) => 3,
        TaskView::Say((complaint, _)) => if complaint {
            3
        } else {
            2
        },
    }
}

/// **Repos come before links, and links before workspaces.**
pub proof fn phases_come_in_order(
    root: Seq<u8>,
    repos: nat,
    links: nat,
    mode: SecondaryMode,
    topology: TopologyView,
    config: Result<(), Seq<char>>,
    force: bool,
    i: int,
    j: int,
)
    requires
        0 <= i <= j < apply_tasks_of(root, repos, links, mode, topology, config, force).len(),
    ensures
        phase(apply_tasks_of(root, repos, links, mode, topology, config, force)[i]) <= phase(
            apply_tasks_of(root, repos, links, mode, topology, config, force)[j],
        ),
{
    let a = repo_tasks(root, repos, mode, topology, force);
    let b = link_tasks(links, force);
    let c = sync_tasks(topology, config, force);
    let all = a + b + c;
    assert forall|k: int| 0 <= k < all.len() implies phase(#[trigger] all[k]) == (if k < a.len() {
        1nat
    } else if k < a.len() + b.len() {
        2nat
    } else {
        3nat
    }) by {
        if k < a.len() {
            assert(all[k] == a[k]);
        } else if k < a.len() + b.len() {
            assert(all[k] == b[k - a.len()]);
        } else {
            assert(all[k] == c[k - a.len() - b.len()]);
        }
    }
}

/// **Every entry is dealt with, once and in order**: the `k`-th sub-repo is the
/// `k`-th to be materialized, right behind loading the lock, as the lock has it,
/// and the lock is written behind the last one.
pub proof fn every_repo_is_materialized(
    root: Seq<u8>,
    repos: nat,
    links: nat,
    mode: SecondaryMode,
    topology: TopologyView,
    config: Result<(), Seq<char>>,
    force: bool,
    k: int,
)
    requires
        0 <= k < repos,
    ensures
        ({
            let tasks = apply_tasks_of(root, repos, links, mode, topology, config, force);
            &&& tasks[0] == TaskView::LoadLock
            &&& tasks[k + 1] == TaskView::Materialize(repo_root_of(root, mode, topology), k, false)
            &&& tasks[repos as int + 1] == TaskView::SaveLock
        }),
{
}

/// **What is declared decides what is refused**: whichever list of entries
/// stands for what is declared, the verdict on it is the same.
pub proof fn refusals_are_decided(
    layers: Seq<(nat, Entries)>,
    repos: Seq<RepoEntry>,
    others: Seq<RepoEntry>,
)
    requires
        declares_repos(layers, repos),
        declares_repos(layers, others),
    ensures
        refusal(layers, repos) == refusal(layers, others),
{
    assert(repos.len() == others.len()) by {
        assert(repo::load::entry_views(repos).len() == repos.len());
        assert(repo::load::entry_views(others).len() == others.len());
    }
    assert forall|i: int| 0 <= i < repos.len() implies name_of(#[trigger] repos[i]) == name_of(
        others[i],
    ) && target_of(repos[i]) == target_of(others[i]) by {
        assert(repo::load::entry_views(repos)[i] == repo::load::entry_views(others)[i]);
    }
    lemma_alike(repos, others);
    lemma_clash_alike(repos, others, 0);
}

proof fn lemma_alike(repos: Seq<RepoEntry>, others: Seq<RepoEntry>)
    requires
        repos.len() == others.len(),
        forall|i: int|
            0 <= i < repos.len() ==> name_of(#[trigger] repos[i]) == name_of(others[i])
                && target_of(repos[i]) == target_of(others[i]),
    ensures
        apart(repos) == apart(others),
        forall|i: int|
            0 <= i < repos.len() ==> #[trigger] name_taken(repos, i) == name_taken(others, i),
        forall|i: int|
            0 <= i < repos.len() ==> #[trigger] clashes(repos, i) == clashes(others, i),
{
    assert forall|i: int| 0 <= i < repos.len() implies #[trigger] name_taken(repos, i)
        == name_taken(others, i) && target_taken(repos, i) == target_taken(others, i) by {
        if name_taken(repos, i) {
            let j = choose|j: int| 0 <= j < i && name_of(#[trigger] repos[j]) == name_of(repos[i]);
            assert(name_of(others[j]) == name_of(others[i]));
        }
        if name_taken(others, i) {
            let j = choose|j: int|
                0 <= j < i && name_of(#[trigger] others[j]) == name_of(others[i]);
            assert(name_of(repos[j]) == name_of(repos[i]));
        }
        if target_taken(repos, i) {
            let j = choose|j: int|
                0 <= j < i && target_of(#[trigger] repos[j]) == target_of(repos[i]);
            assert(target_of(others[j]) == target_of(others[i]));
        }
        if target_taken(others, i) {
            let j = choose|j: int|
                0 <= j < i && target_of(#[trigger] others[j]) == target_of(others[i]);
            assert(target_of(repos[j]) == target_of(repos[i]));
        }
    }
    assert forall|i: int| 0 <= i < repos.len() implies #[trigger] clashes(repos, i) == clashes(
        others,
        i,
    ) by {
        assert(name_taken(repos, i) == name_taken(others, i));
    }
    if apart(repos) {
        assert forall|i: int, j: int| 0 <= i < j < others.len() implies name_of(
            #[trigger] others[i],
        ) != name_of(#[trigger] others[j]) && target_of(others[i]) != target_of(others[j]) by {
            assert(name_of(repos[i]) != name_of(repos[j]));
        }
    }
    if apart(others) {
        assert forall|i: int, j: int| 0 <= i < j < repos.len() implies name_of(
            #[trigger] repos[i],
        ) != name_of(#[trigger] repos[j]) && target_of(repos[i]) != target_of(repos[j]) by {
            assert(name_of(others[i]) != name_of(others[j]));
        }
    }
}

proof fn lemma_clash_alike(repos: Seq<RepoEntry>, others: Seq<RepoEntry>, from: int)
    requires
        repos.len() == others.len(),
        forall|i: int|
            0 <= i < repos.len() ==> #[trigger] clashes(repos, i) == clashes(others, i),
    ensures
        first_clash(repos, from) == first_clash(others, from),
    decreases repos.len() - from,
{
    if 0 <= from < repos.len() && !clashes(repos, from) {
        lemma_clash_alike(repos, others, from + 1);
    }
}

/// **A quiet run says nothing unless something is wrong**: whatever is reported
/// quietly goes to the error output.
pub proof fn quiet_runs_only_complain(
    entry: RepoEntry,
    result: Result<repo::ApplyStatus, RepoError>,
    other: LinkEntry,
    linked: Result<link::ApplyStatus, link::LinkError>,
)
    ensures
        repo_outcome(entry, result, true).0 matches Some(line) ==> line.0,
        link_outcome(other, linked, true).0 matches Some(line) ==> line.0,
        repo_outcome(entry, result, true).1 == result is Err,
        link_outcome(other, linked, true).1 == linked is Err,
{
}

/// **The default workspace is the first that is marked so, and the others are all
/// that are not**, in their order.
pub proof fn workspaces_are_told_apart(list: Seq<InfoView>, root: Seq<u8>)
    ensures
        others_in(list).contains(root) <==> exists|i: int|
            0 <= i < list.len() && !(#[trigger] list[i]).2 && list[i].1 == root,
        default_in(list) is None <==> forall|i: int|
            0 <= i < list.len() ==> !(#[trigger] list[i]).2,
        default_in(list) matches Some(found) ==> exists|i: int|
            0 <= i < list.len() && (#[trigger] list[i]).2 && list[i].1 == found && forall|j: int|
                0 <= j < i ==> !(#[trigger] list[j]).2,
{
    lemma_others(list, root);
    lemma_default(list);
}

proof fn lemma_others(list: Seq<InfoView>, root: Seq<u8>)
    ensures
        others_in(list).contains(root) <==> exists|i: int|
            0 <= i < list.len() && !(#[trigger] list[i]).2 && list[i].1 == root,
    decreases list.len(),
{
    if list.len() > 0 {
        let less = list.drop_last();
        let last = list.last();
        let kept = others_in(less);
        lemma_others(less, root);
        assert(list[list.len() - 1] == last);
        assert(forall|i: int| 0 <= i < less.len() ==> #[trigger] less[i] == list[i]);
        assert(kept.push(last.1).contains(root) <==> kept.contains(root) || root == last.1) by {
            assert(kept.push(last.1)[kept.len() as int] == last.1);
            if kept.contains(root) {
                let i = choose|i: int| 0 <= i < kept.len() && kept[i] == root;
                assert(kept.push(last.1)[i] == root);
            }
        }
        if kept.contains(root) {
            let i = choose|i: int|
                0 <= i < less.len() && !(#[trigger] less[i]).2 && less[i].1 == root;
            assert(!list[i].2 && list[i].1 == root);
        }
        if exists|i: int| 0 <= i < list.len() && !(#[trigger] list[i]).2 && list[i].1 == root {
            let i = choose|i: int|
                0 <= i < list.len() && !(#[trigger] list[i]).2 && list[i].1 == root;
            if i < less.len() {
                assert(!less[i].2 && less[i].1 == root);
            }
        }
    }
}

proof fn lemma_default(list: Seq<InfoView>)
    ensures
        default_in(list) is None <==> forall|i: int|
            0 <= i < list.len() ==> !(#[trigger] list[i]).2,
        default_in(list) matches Some(found) ==> exists|i: int|
            0 <= i < list.len() && (#[trigger] list[i]).2 && list[i].1 == found && forall|j: int|
                0 <= j < i ==> !(#[trigger] list[j]).2,
    decreases list.len(),
{
    if list.len() > 0 && !list[0].2 {
        let rest = list.skip(1);
        lemma_default(rest);
        assert(forall|i: int| 0 <= i < rest.len() ==> #[trigger] rest[i] == list[i + 1]);
        match default_in(rest) {
            Some(found) => {
                let i = choose|i: int|
                    0 <= i < rest.len() && (#[trigger] rest[i]).2 && rest[i].1 == found && forall|
                        j: int,
                    |
                        0 <= j < i ==> !(#[trigger] rest[j]).2;
                assert(list[i + 1].2 && list[i + 1].1 == found);
                assert forall|j: int| 0 <= j < i + 1 implies !(#[trigger] list[j]).2 by {
                    if j > 0 {
                        assert(!rest[j - 1].2);
                    }
                }
            },
            None => {
                assert forall|i: int| 0 <= i < list.len() implies !(#[trigger] list[i]).2 by {
                    if i > 0 {
                        assert(!rest[i - 1].2);
                    }
                }
            },
        }
    } else if list.len() > 0 {
        assert(list[0].2);
    }
}

/// **Repositories belong to the default workspace**, where it is known, unless each
/// workspace is to have its own clones.
pub proof fn repositories_belong_to_the_default_workspace(
    root: Seq<u8>,
    mode: SecondaryMode,
    topology: TopologyView,
)
    ensures
        mode == SecondaryMode::Clone ==> repo_root_of(root, mode, topology) == root,
        topology is Err ==> repo_root_of(root, mode, topology) == root,
        mode != SecondaryMode::Clone && topology is Ok ==> (default_in(topology->Ok_0) matches Some(
            default,
        ) ==> repo_root_of(root, mode, topology) == default),
        topology is Ok && default_in(topology->Ok_0) is None ==> repo_root_of(root, mode, topology)
            == root,
{
}

/// **Converging loads the lock first, materializes every repository once, in order,
/// and saves the lock last**; what is left over is collected before that, where it
/// is asked for.
pub proof fn converging_ends_with_the_lock(
    root: Seq<u8>,
    count: nat,
    refresh: bool,
    garbage: bool,
    i: int,
)
    ensures
        ({
            let tasks = converging(root, count, refresh, garbage);
            &&& tasks.len() == count + (if garbage {
                3int
            } else {
                2int
            })
            &&& tasks[0] is LoadLock
            &&& tasks.last() is SaveLock
            &&& 0 <= i < count ==> tasks[1 + i] == TaskView::Materialize(root, i, refresh)
            &&& garbage ==> tasks[1 + count as int] is CollectGarbage
        }),
{
}

/// **Other workspaces are linked only where links are what they get**, each once,
/// to the default workspace.
pub proof fn others_are_linked_where_links_are_wanted(
    root: Seq<u8>,
    count: nat,
    mode: SecondaryMode,
    topology: TopologyView,
    force: bool,
    i: int,
)
    requires
        count > 0,
    ensures
        ({
            let tasks = repo_tasks(root, count, mode, topology, force);
            let linked = mode == SecondaryMode::Link && topology is Ok && default_in(
                topology->Ok_0,
            ) is Some;
            &&& !linked ==> tasks.len() == count + 2
            &&& linked ==> tasks.len() == count + 2 + others_in(topology->Ok_0).len()
            &&& linked && 0 <= i < others_in(topology->Ok_0).len() ==> tasks[count + 2 + i]
                == TaskView::LinkSecondary(
                default_in(topology->Ok_0)->0,
                others_in(topology->Ok_0)[i],
                force,
            )
            &&& 0 <= i < count ==> tasks[1 + i] == TaskView::Materialize(
                repo_root_of(root, mode, topology),
                i,
                false,
            )
        }),
        repo_tasks(root, 0, mode, topology, force).len() == 0,
{
}

/// **Every link is applied once, in order.**
pub proof fn every_link_is_applied(count: nat, force: bool, i: int)
    requires
        0 <= i < count,
    ensures
        link_tasks(count, force).len() == count,
        link_tasks(count, force)[i] == TaskView::ApplyLink(i, force),
        link_tasks(0, force).len() == 1,
        link_tasks(0, force)[0] is Say,
{
}

/// **All other workspaces are mirrored into in one go**, from the default one; with
/// one workspace there is nothing to do, and what stands in the way is said, not
/// passed over.
pub proof fn others_are_mirrored_into(
    topology: TopologyView,
    config: Result<(), Seq<char>>,
    force: bool,
)
    ensures
        ({
            let tasks = sync_tasks(topology, config, force);
            let many = topology is Ok && topology->Ok_0.len() > 1;
            let able = many && default_in(topology->Ok_0) is Some && config is Ok;
            &&& able ==> tasks == seq![
                TaskView::Sync(
                    default_in(topology->Ok_0)->0,
                    others_in(topology->Ok_0),
                    force,
                ),
            ]
            &&& topology is Ok && !many ==> tasks.len() == 0
            &&& (topology is Err || many && !able) ==> tasks.len() == 1 && (
            tasks[0] matches TaskView::Say((complaint, _)) && complaint)
        }),
{
}

/// **A failure is reported under the name of what failed, quiet or not**; a success
/// is told unless the run is quiet.
pub proof fn failures_are_always_reported(
    entry: RepoEntry,
    result: Result<repo::ApplyStatus, RepoError>,
    other: LinkEntry,
    linked: Result<link::ApplyStatus, link::LinkError>,
    failure: Option<String>,
    quiet: bool,
)
    ensures
        repo_outcome(entry, result, quiet).1 == result is Err,
        result is Err ==> repo_outcome(entry, result, quiet).0 == Some(
            (true, name_of(entry) + ": "@ + repo_error_text(result->Err_0)),
        ),
        result is Ok ==> (repo_outcome(entry, result, quiet).0 is None <==> quiet),
        result is Ok && !quiet ==> repo_outcome(entry, result, quiet).0 == Some(
            (
                false,
                name_of(entry) + " ("@ + target_of(entry) + "): "@ + apply_status_text(
                    result->Ok_0,
                ),
            ),
        ),
        link_outcome(other, linked, quiet).1 == linked is Err,
        linked is Err ==> link_outcome(other, linked, quiet).0 == Some(
            (true, other.target@ + ": "@ + link::link_error_text(linked->Err_0@)),
        ),
        linked is Ok ==> (link_outcome(other, linked, quiet).0 is None <==> quiet),
        save_outcome(failure).1 == failure is Some,
        save_outcome(failure).0 is Some == failure is Some,
{
}

/// **What is declared twice is refused before anything else**, then what cannot be
/// read; a declaration without either is accepted.
pub proof fn refusals_come_in_order(layers: Seq<(nat, Entries)>, repos: Seq<RepoEntry>)
    ensures
        refusal(layers, repos) is None <==> apart(repos) && links_readable(layers) && secondary_of(
            layers,
        ) is Some,
        refusal(layers, repos) matches Some(line) ==> line.0,
        stacked(layers, "repos"@) is None ==> secondary_of(layers) == Some(SecondaryMode::Link),
        stacked(layers, "link"@) is None ==> links_readable(layers),
        stacked(layers, "repo"@) is None ==> repos_readable(layers) && (declares_repos(layers, repos)
            <==> repos.len() == 0),
        stacked(layers, "repo"@) matches Some(node) ==> (declares_repos(layers, repos)
            <==> repo::load::entries_of(node) == Some(repo::load::entry_views(repos))),
        stacked(layers, "link"@) matches Some(node) ==> (links_readable(layers)
            <==> link::entries_of(node) is Some),
        stacked(layers, "repos"@) matches Some(node) ==> (secondary_of(layers) is Some
            <==> repos_config_of(node) is Some) && (repos_config_of(node) matches Some(config)
            ==> secondary_of(layers) == Some(config.secondary)),
{
}

/// **What is reported of another workspace has its root, what it is about and the
/// status**, one line for each, in order.
pub proof fn reports_have_a_line_for_each(
    root: Seq<u8>,
    report: Seq<(Seq<char>, repo::secondary::SecondaryView)>,
    synced: workspace::ReportView,
    i: int,
)
    ensures
        secondary_lines(root, report, true).len() == 0,
        secondary_lines(root, report, false).len() == report.len(),
        0 <= i < report.len() ==> secondary_lines(root, report, false)[i] == (
            false,
            text::lossy_text(root) + " ["@ + report[i].0 + "]: "@
                + repo::secondary::secondary_text(report[i].1),
        ),
        sync_lines(synced).len() == synced.files.len() + 1,
        0 <= i < synced.files.len() ==> sync_lines(synced)[i] == (
            false,
            text::lossy_text(synced.root) + " ["@ + synced.files[i].0 + "]: "@
                + workspace::file_text(synced.files[i].1),
        ),
        sync_lines(synced).last() == (
            false,
            text::lossy_text(synced.root) + " ["@ + "allow"@ + "]: "@ + workspace::allow_text(
                synced.allow,
            ),
        ),
{
}

/// **Reports of several workspaces stand one behind the other.**
pub proof fn reports_stand_in_a_row(
    reports: Seq<workspace::ReportView>,
    next: workspace::ReportView,
)
    ensures
        all_sync_lines(Seq::empty()).len() == 0,
        all_sync_lines(reports.push(next)) == all_sync_lines(reports) + sync_lines(next),
{
    assert(reports.push(next).drop_last() =~= reports);
}

/// **A workspace that is not trusted is named, with the command that trusts it.**
pub proof fn untrusted_workspaces_are_named(root: Seq<u8>)
    ensures
        text::holds(untrusted_text(root), text::lossy_text(root)),
        text::holds(untrusted_text(root), "jjn trust"@),
{
    let end = " is not trusted; run `jjn trust` to apply [[repo]] and [[link]] entries"@;
    text::lemma_holds_middle("repo "@, text::lossy_text(root), end);
    reveal_strlit(" is not trusted; run `jjn trust` to apply [[repo]] and [[link]] entries");
    reveal_strlit("jjn trust");
    let front = "repo "@ + text::lossy_text(root) + end.take(22);
    assert(end.subrange(22, 31) =~= "jjn trust"@);
    text::lemma_holds_middle(front, "jjn trust"@, end.skip(31));
    assert(untrusted_text(root) =~= front + "jjn trust"@ + end.skip(31));
}

/// **Links are declared as they are written, in order.**
pub proof fn links_are_declared_as_written(layers: Seq<(nat, Entries)>, links: Seq<LinkEntry>)
    ensures
        stacked(layers, "link"@) is None ==> (declares_links(layers, links) <==> links.len() == 0),
        stacked(layers, "link"@) matches Some(node) ==> (declares_links(layers, links)
            <==> link::entries_of(node) == Some(link::entry_views(links))),
        link::entry_views(links).len() == links.len(),
        forall|i: int|
            0 <= i < links.len() ==> #[trigger] link::entry_views(links)[i] == (
                links[i].source@,
                links[i].target@,
            ),
{
}

} // verus!
