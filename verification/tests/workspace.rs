//! Workspaces: listing them, and mirroring files between them.

use jjunction::config::AllowPolicy;
use jjunction::config::WorkspaceConfig;
use jjunction::files::Deed;
use jjunction::files::Site;
use jjunction::files::Step;
use jjunction::path::FsPath;
use jjunction::workspace;
use jjunction::workspace::apply_allow;
use jjunction::workspace::follow_pointer;
use jjunction::workspace::reads_equal;
use jjunction::workspace::resolve_repo_dir;
use jjunction::workspace::stored_root;
use jjunction::workspace::sync_file;
use jjunction::workspace::AllowStatus;
use jjunction::workspace::DirenvResult;
use jjunction::workspace::EnvrcSight;
use jjunction::workspace::FileSight;
use jjunction::workspace::FileStatus;
use jjunction::workspace::RepoPointer;
use jjunction::workspace::SyncAsk;
use jjunction::workspace::WorkspaceError;
use jjunction::workspace::WorkspaceReport;
use jjunction::workspace::WorkspaceSight;
use std::collections::BTreeMap;

#[derive(Debug, Clone, PartialEq)]
enum Thing {
    Dir,
    File(String),
    Link(String),
}

/// A filesystem in memory.
#[derive(Debug, Clone, PartialEq)]
struct World {
    things: BTreeMap<String, Thing>,
}

impl World {
    fn new() -> World {
        World {
            things: BTreeMap::new(),
        }
    }

    fn dir(&mut self, path: &str) {
        self.things.insert(path.to_owned(), Thing::Dir);
    }

    fn file(&mut self, path: &str, content: &str) {
        self.things
            .insert(path.to_owned(), Thing::File(content.to_owned()));
    }

    fn link(&mut self, to: &str, path: &str) {
        self.things
            .insert(path.to_owned(), Thing::Link(to.to_owned()));
    }

    fn read_link(&self, path: &str) -> Option<String> {
        match self.things.get(path) {
            Some(Thing::Link(to)) => Some(to.clone()),
            _ => None,
        }
    }

    fn is_there(&self, path: &str) -> bool {
        match self.things.get(path) {
            Some(Thing::Link(to)) => self.is_there(to),
            Some(_) => true,
            None => false,
        }
    }

    fn site(&self, path: &FsPath) -> Site {
        match self.things.get(&path.display()) {
            None => Site::Absent,
            Some(Thing::Dir) => Site::Directory,
            Some(Thing::File(_)) => Site::File,
            Some(Thing::Link(to)) => Site::Link(FsPath::new(to)),
        }
    }

    fn step(&mut self, step: &Step) -> Result<(), String> {
        match step {
            Step::RemoveFile(path) => match self.things.get(&path.display()) {
                None => Err("not found".to_owned()),
                Some(Thing::Dir) => Err("is a directory".to_owned()),
                Some(_) => {
                    self.things.remove(&path.display());
                    Ok(())
                }
            },
            Step::RemoveTree(path) => {
                let top = path.display();
                let below = format!("{top}/");
                self.things
                    .retain(|at, _| at != &top && !at.starts_with(&below));
                Ok(())
            }
            Step::MakeDirs(path) => {
                let mut at = Some(path.clone());
                while let Some(dir) = at {
                    if let Some(Thing::File(_)) = self.things.get(&dir.display()) {
                        return Err("not a directory".to_owned());
                    }
                    self.things.entry(dir.display()).or_insert(Thing::Dir);
                    at = dir.parent();
                }
                Ok(())
            }
            Step::Symlink { source, at } => {
                if self.things.contains_key(&at.display()) {
                    return Err("file exists".to_owned());
                }
                self.link(&source.display(), &at.display());
                Ok(())
            }
            Step::Write { path, content } => {
                self.file(&path.display(), content);
                Ok(())
            }
        }
    }

    /// Performs a plan; gives the message of the required change that failed.
    fn perform(&mut self, deeds: &[Deed]) -> Option<String> {
        for deed in deeds {
            if let Err(message) = self.step(&deed.step) {
                if deed.required {
                    return Some(message);
                }
            }
        }
        None
    }
}

impl World {
    fn read(&self, path: &str) -> Option<Vec<u8>> {
        match self.things.get(path) {
            Some(Thing::File(content)) => Some(content.clone().into_bytes()),
            Some(Thing::Link(to)) => self.read(to),
            _ => None,
        }
    }

    fn is_file(&self, path: &str) -> bool {
        self.read(path).is_some()
    }
}

const MAIN: &str = "/w/main";
const OTHER: &str = "/w/other";

fn setup() -> World {
    let mut world = World::new();
    world.dir(MAIN);
    world.dir(OTHER);
    world.file("/w/main/.envrc", "use devenv\n");
    world.file("/w/main/devenv.nix", "{}\n");
    world
}

fn config(allow: AllowPolicy) -> WorkspaceConfig {
    WorkspaceConfig { sync: None, allow }
}

fn envrc_sight(world: &World, default: &FsPath, other: &FsPath) -> EnvrcSight {
    EnvrcSight {
        default_is_file: world.is_file(&default.display()),
        other_exists: world.is_there(&other.display()),
        default_content: world.read(&default.display()),
        other_content: world.read(&other.display()),
    }
}

fn sync_with(
    world: &mut World,
    config: &WorkspaceConfig,
    force: bool,
    direnv: DirenvResult,
) -> Vec<WorkspaceReport> {
    let mut run = workspace::sync_workspaces(
        &FsPath::new(MAIN),
        &vec![FsPath::new(OTHER)],
        config,
        force,
    );
    while let Some(ask) = run.ask() {
        match ask {
            SyncAsk::Look {
                source,
                destination,
            } => {
                let sight = FileSight {
                    source: world.is_there(&source.display()),
                    site: world.site(&destination),
                };
                let plan = run.plan(&sight);
                let failure = world.perform(&plan.deeds);
                run.file_done(plan, failure);
            }
            SyncAsk::Envrc { default, other } => {
                run.envrc_seen(&envrc_sight(world, &default, &other));
            }
            SyncAsk::Direnv(root) => {
                assert_eq!(root.display(), OTHER);
                run.direnv_done(direnv);
            }
        }
    }
    run.reports()
}

fn sync(world: &mut World, allow: AllowPolicy, force: bool) -> Vec<WorkspaceReport> {
    sync_with(world, &config(allow), force, DirenvResult::NotRun)
}

fn links_missing_files() {
    let mut world = setup();
    let reports = sync(&mut world, AllowPolicy::Never, false);
    assert_eq!(
        reports[0].files[0],
        (".envrc".to_owned(), FileStatus::Linked)
    );
    assert_eq!(
        world.read_link("/w/other/.envrc").unwrap(),
        "/w/main/.envrc"
    );
}

#[test]
fn workspace_sync_links_missing_files() {
    links_missing_files();
}

#[test]
fn tests_sync_links_missing_files() {
    links_missing_files();
}

fn is_idempotent_and_skips_tracked() {
    let mut world = setup();
    sync(&mut world, AllowPolicy::Never, false);
    let reports = sync(&mut world, AllowPolicy::Never, false);
    assert_eq!(reports[0].files[0].1, FileStatus::AlreadyLinked);

    world.file("/w/other/devenv.yaml", "tracked: true\n");
    let reports = sync(&mut world, AllowPolicy::Never, false);
    let yaml = reports[0]
        .files
        .iter()
        .find(|(name, _)| name == "devenv.yaml")
        .unwrap();
    assert_eq!(yaml.1, FileStatus::TrackedFile);
}

#[test]
fn workspace_sync_is_idempotent_and_skips_tracked() {
    is_idempotent_and_skips_tracked();
}

#[test]
fn tests_sync_is_idempotent_and_skips_tracked() {
    is_idempotent_and_skips_tracked();
}

fn reports_wrong_target_and_force_fixes() {
    let mut world = setup();
    world.file("/w/decoy", "x");
    world.link("/w/decoy", "/w/other/.envrc");

    let reports = sync(&mut world, AllowPolicy::Never, false);
    assert_eq!(
        reports[0].files[0].1,
        FileStatus::WrongTarget {
            expected: FsPath::new("/w/main/.envrc"),
            found: FsPath::new("/w/decoy"),
        }
    );

    let reports = sync(&mut world, AllowPolicy::Never, true);
    assert_eq!(reports[0].files[0].1, FileStatus::Linked);
    assert_eq!(
        world.read_link("/w/other/.envrc").unwrap(),
        "/w/main/.envrc"
    );
}

#[test]
fn workspace_sync_reports_wrong_target_and_force_fixes() {
    reports_wrong_target_and_force_fixes();
}

#[test]
fn tests_sync_reports_wrong_target_and_force_fixes() {
    reports_wrong_target_and_force_fixes();
}

fn gated_on_identical_envrc() {
    // fresh workspace: .envrc gets linked, then allowed (direnv may be
    // missing, in which case the status degrades)
    let mut world = setup();
    let auto = config(AllowPolicy::Auto);
    let reports = sync_with(&mut world, &auto, false, DirenvResult::Succeeded);
    assert_eq!(reports[0].files[0].1, FileStatus::Linked);
    assert!(matches!(
        reports[0].allow,
        AllowStatus::Allowed | AllowStatus::DirenvMissing
    ));

    // workspace with a diverging .envrc of its own: tracked, never allowed
    let mut world = setup();
    world.file("/w/other/.envrc", "use something-else\n");
    let reports = sync_with(&mut world, &auto, false, DirenvResult::Succeeded);
    assert_eq!(reports[0].files[0].1, FileStatus::TrackedFile);
    assert_eq!(reports[0].allow, AllowStatus::EnvrcMismatch);
}

#[test]
fn workspace_allow_gated_on_identical_envrc() {
    gated_on_identical_envrc();
}

#[test]
fn tests_allow_gated_on_identical_envrc() {
    gated_on_identical_envrc();
}

fn hint_and_disabled() {
    let mut world = setup();
    let reports = sync(&mut world, AllowPolicy::Hint, false);
    assert_eq!(reports[0].allow, AllowStatus::Hinted);

    let reports = sync(&mut world, AllowPolicy::Never, false);
    assert_eq!(reports[0].allow, AllowStatus::Disabled);
}

#[test]
fn workspace_allow_hint_and_disabled() {
    hint_and_disabled();
}

#[test]
fn tests_allow_hint_and_disabled() {
    hint_and_disabled();
}

fn byte_equality() {
    let a = Some(b"same".to_vec());
    let b = Some(b"same".to_vec());
    assert!(reads_equal(&a, &b));
    let b = Some(b"same\n".to_vec());
    assert!(!reads_equal(&a, &b));
    assert!(!reads_equal(&a, &None));
    assert!(!reads_equal(&None, &None));
}

#[test]
fn workspace_reads_equal_is_byte_equality() {
    byte_equality();
}

#[test]
fn tests_reads_equal_is_byte_equality() {
    byte_equality();
}

#[test]
fn every_direnv_result_has_its_status() {
    for (result, status) in [
        (DirenvResult::Succeeded, AllowStatus::Allowed),
        (DirenvResult::Failed, AllowStatus::DirenvFailed),
        (DirenvResult::NotRun, AllowStatus::DirenvMissing),
    ] {
        let mut world = setup();
        let reports = sync_with(&mut world, &config(AllowPolicy::Auto), false, result);
        assert_eq!(reports[0].allow, status);
    }
}

#[test]
fn nothing_is_allowed_without_an_envrc() {
    let mut world = World::new();
    world.dir(MAIN);
    world.dir(OTHER);
    for policy in [AllowPolicy::Auto, AllowPolicy::Hint, AllowPolicy::Never] {
        let reports = sync(&mut world, policy, false);
        assert_eq!(reports[0].allow, AllowStatus::NotApplicable);
        assert_eq!(reports[0].files[0].1, FileStatus::SourceMissing);
    }
    let differing = EnvrcSight {
        default_is_file: true,
        other_exists: true,
        default_content: Some(vec![1]),
        other_content: Some(vec![2]),
    };
    assert_eq!(
        apply_allow(AllowPolicy::Auto, &differing),
        Some(AllowStatus::EnvrcMismatch)
    );
    let same = EnvrcSight {
        other_content: Some(vec![1]),
        ..differing
    };
    assert_eq!(apply_allow(AllowPolicy::Auto, &same), None);
}

#[test]
fn configured_files_are_mirrored_instead_of_the_default_ones() {
    let mut world = setup();
    world.file("/w/main/a/b", "x");
    let config = WorkspaceConfig {
        sync: Some(vec!["a/b".to_owned()]),
        allow: AllowPolicy::Never,
    };
    let reports = sync_with(&mut world, &config, false, DirenvResult::NotRun);
    assert_eq!(
        reports[0].files,
        vec![("a/b".to_owned(), FileStatus::Linked)]
    );
    assert_eq!(reports[0].root.display(), OTHER);
    assert_eq!(world.read_link("/w/other/a/b").unwrap(), "/w/main/a/b");
}

#[test]
fn sync_failures_are_reported_per_file() {
    let main = FsPath::new(MAIN);
    let other = FsPath::new(OTHER);
    for site in [
        Site::BadLink("broken".to_owned()),
        Site::Unreadable("broken".to_owned()),
    ] {
        let sight = FileSight { source: true, site };
        let plan = sync_file(&main, &other, ".envrc", true, &sight);
        assert_eq!(plan.status, FileStatus::Failed("broken".to_owned()));
        assert!(plan.deeds.is_empty());
    }
    let mut world = setup();
    world.file("/w/main/a/b", "x");
    world.file("/w/other/a", "in the way");
    let config = WorkspaceConfig {
        sync: Some(vec!["a/b".to_owned()]),
        allow: AllowPolicy::Never,
    };
    let reports = sync_with(&mut world, &config, false, DirenvResult::NotRun);
    assert_eq!(reports[0].files[0].1, FileStatus::Linked);
}

#[test]
fn sync_outcomes_describe_themselves() {
    assert_eq!(FileStatus::Linked.message(), "linked");
    assert_eq!(FileStatus::AlreadyLinked.message(), "already linked");
    assert_eq!(FileStatus::TrackedFile.message(), "tracked, skipped");
    assert_eq!(FileStatus::SourceMissing.message(), "source missing");
    assert_eq!(FileStatus::Failed("x".to_owned()).message(), "x");
    let wrong = FileStatus::WrongTarget {
        expected: FsPath::new("/a"),
        found: FsPath::new("/b"),
    };
    assert_eq!(wrong.message(), "points to /b instead of /a");
    assert_eq!(wrong.clone(), wrong);
    assert_eq!(AllowStatus::Allowed.message(), "allowed");
    assert_eq!(AllowStatus::DirenvFailed.message(), "direnv allow failed");
    assert_eq!(
        AllowStatus::Hinted.message(),
        "hint: run direnv allow <workspace>"
    );
    assert_eq!(
        AllowStatus::EnvrcMismatch.message(),
        ".envrc differs from default workspace, not allowed"
    );
}

// --- listing ---------------------------------------------------------------

fn seen(name: &str, root: &str, is_dir: bool, owns_repo: bool) -> WorkspaceSight {
    WorkspaceSight {
        name: name.to_owned(),
        root: FsPath::new(root),
        is_dir,
        owns_repo,
    }
}

#[test]
fn workspaces_are_listed_by_name_without_stale_ones() {
    let repo = Ok(FsPath::new("/w/main/.jj/repo"));
    let list = workspace::list(
        &FsPath::new(MAIN),
        true,
        repo,
        Ok(vec![
            seen("feature", "/w/feature", true, false),
            seen("gone", "/w/gone", false, false),
            seen("default", "/w/main", true, true),
            seen("alpha", "/w/alpha", true, false),
        ]),
    )
    .unwrap();
    let names: Vec<&str> = list.iter().map(|one| one.name.as_str()).collect();
    assert_eq!(names, vec!["alpha", "default", "feature"]);
    let defaults: Vec<bool> = list.iter().map(|one| one.is_default).collect();
    assert_eq!(defaults, vec![false, true, false]);
    assert_eq!(list[1].root.display(), "/w/main");
    assert_eq!(list.clone(), list);
}

#[test]
fn listing_reports_what_is_wrong() {
    let main = FsPath::new(MAIN);
    let none = workspace::list(&main, false, Ok(main.clone()), Ok(vec![])).unwrap_err();
    assert!(matches!(&none, WorkspaceError::NoRepo(root) if root.display() == MAIN));
    assert!(none.message().contains(MAIN));
    let load = workspace::list(
        &main,
        true,
        Err(WorkspaceError::Load("no .jj/repo".to_owned())),
        Ok(vec![]),
    )
    .unwrap_err();
    assert!(matches!(&load, WorkspaceError::Load(message) if message == "no .jj/repo"));
    let failed =
        workspace::list(&main, true, Ok(main.clone()), Err("corrupt".to_owned())).unwrap_err();
    assert!(matches!(failed, WorkspaceError::Load(message) if message == "corrupt"));
}

#[test]
fn repo_dirs_are_found_through_pointers() {
    let jj = FsPath::new("/w/other/.jj");
    let content = b"  ../../main/.jj/repo\n".to_vec();
    let target = follow_pointer(&jj, &content);
    assert_eq!(target.display(), "/w/other/.jj/../../main/.jj/repo");
    let resolved = FsPath::new("/w/main/.jj/repo");
    let found = |pointer: RepoPointer, is_dir: bool| {
        resolve_repo_dir(&jj, &pointer, &resolved, is_dir)
            .map(|dir| dir.display())
            .map_err(|err| match err {
                WorkspaceError::Load(message) => message,
                WorkspaceError::NoRepo(_) => unreachable!(),
            })
    };
    assert_eq!(
        found(RepoPointer::Directory, false).unwrap(),
        "/w/other/.jj/repo"
    );
    assert_eq!(
        found(RepoPointer::File(content.clone()), true).unwrap(),
        "/w/main/.jj/repo"
    );
    assert_eq!(
        found(RepoPointer::File(content), false).unwrap_err(),
        "repo dir pointer is dangling: /w/main/.jj/repo"
    );
    assert_eq!(
        found(RepoPointer::Unreadable("denied".to_owned()), true).unwrap_err(),
        "reading .jj/repo: denied"
    );
    assert_eq!(
        found(RepoPointer::Missing, true).unwrap_err(),
        "no .jj/repo"
    );
}

#[test]
fn stored_roots_are_taken_from_the_repo_dir() {
    let repo = FsPath::new("/w/main/.jj/repo");
    assert_eq!(
        stored_root(&repo, &FsPath::new("/w/other")).display(),
        "/w/other"
    );
    assert_eq!(
        stored_root(&repo, &FsPath::new("../../../other")).display(),
        "/w/main/.jj/repo/../../../other"
    );
}

#[test]
fn syncing_twice_changes_nothing_the_second_time() {
    for (force, again) in [(false, false), (false, true), (true, false), (true, true)] {
        let mut world = setup();
        world.file("/w/main/a", "a");
        world.file("/w/main/deep/b", "b");
        world.link("/w/elsewhere", "/w/other/deep/b");
        let config = WorkspaceConfig {
            sync: Some(vec!["a".to_owned(), "deep/b".to_owned(), "none".to_owned()]),
            allow: AllowPolicy::Never,
        };
        let first = sync_with(&mut world, &config, force, DirenvResult::NotRun);
        assert_eq!(first[0].files[0], ("a".to_owned(), FileStatus::Linked));
        assert_eq!(first[0].files[1].1 == FileStatus::Linked, force);
        assert_eq!(first[0].files[2].1, FileStatus::SourceMissing);
        let between = world.clone();
        let second = sync_with(&mut world, &config, again, DirenvResult::NotRun);
        assert_eq!(
            second[0].files[0],
            ("a".to_owned(), FileStatus::AlreadyLinked)
        );
        assert_eq!(world.read_link("/w/other/a").unwrap(), "/w/main/a");
        if force {
            assert_eq!(second[0].files[1].1, FileStatus::AlreadyLinked);
            assert_eq!(world, between);
        }
    }
}
