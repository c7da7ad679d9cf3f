//! What the commands say and do.

use jj_lib::config::ConfigLayer;
use jj_lib::config::ConfigSource;
use jj_lib::config::StackedConfig;
use jjunction::cli::apply;
use jjunction::cli::apply::apply_tasks;
use jjunction::cli::apply::read_declared;
use jjunction::cli::apply::Declared;
use jjunction::cli::apply::Task;
use jjunction::cli::apply::TaskRun;
use jjunction::cli::complained;
use jjunction::cli::doctor;
use jjunction::cli::doctor::Check;
use jjunction::cli::doctor::Findings;
use jjunction::cli::doctor::Opening;
use jjunction::cli::find_root;
use jjunction::cli::load;
use jjunction::cli::locate;
use jjunction::cli::manage;
use jjunction::cli::manage::AddNext;
use jjunction::cli::said;
use jjunction::cli::setup;
use jjunction::cli::Ending;
use jjunction::cli::Line;
use jjunction::config::load_repos_config;
use jjunction::config::trust::TrustError;
use jjunction::config::trust::TrustOutcome;
use jjunction::config::trust::TrustedRoot;
use jjunction::config::ConfigGetError;
use jjunction::config::SecondaryMode;
use jjunction::config::WorkspaceConfig;
use jjunction::files::Deed;
use jjunction::files::FileRead;
use jjunction::files::Site;
use jjunction::files::Step;
use jjunction::hooks::HooksError;
use jjunction::hooks::HooksHealth;
use jjunction::hooks::InitReport;
use jjunction::hooks::WireStatus;
use jjunction::link;
use jjunction::link::LinkEntry;
use jjunction::link::LinkSight;
use jjunction::link::LinkType;
use jjunction::lock::LockError;
use jjunction::lock::RepoLock;
use jjunction::path::FsPath;
use jjunction::repo::load_entries;
use jjunction::repo::secondary::SecondarySight;
use jjunction::repo::ApplyStatus;
use jjunction::repo::Manifest;
use jjunction::repo::RepoEntry;
use jjunction::repo::RepoError;
use jjunction::repo::RepoSight;
use jjunction::repo::SecondaryStatus;
use jjunction::workspace::AllowStatus;
use jjunction::workspace::FileStatus;
use jjunction::workspace::WorkspaceError;
use jjunction::workspace::WorkspaceInfo;
use jjunction::workspace::WorkspaceReport;
use jjunction::MarkSight;
use jjunction::Standing;

fn stack(text: &str) -> StackedConfig {
    let mut stacked = StackedConfig::empty();
    stacked.add_layer(ConfigLayer::parse(ConfigSource::User, text).unwrap());
    stacked
}

fn entry(url: &str) -> RepoEntry {
    RepoEntry {
        name: None,
        url: url.to_owned(),
        target: None,
        rev: None,
    }
}

fn link_entry(source: &str, target: &str) -> LinkEntry {
    LinkEntry {
        source: source.to_owned(),
        target: target.to_owned(),
        link_type: LinkType::Link,
    }
}

fn root() -> FsPath {
    FsPath::new("/ws")
}

fn trusted() -> TrustedRoot {
    TrustedRoot::vouch(&vec![FsPath::new("/other"), root()], &root()).unwrap()
}

fn new_lock() -> RepoLock {
    RepoLock::load_or_create(&FsPath::new("/ws/.jjunction/lock.toml"), &FileRead::Absent).unwrap()
}

fn out(text: &str) -> Line {
    said(text.to_owned())
}

fn err(text: &str) -> Line {
    complained(text.to_owned())
}

fn shown(ending: &Ending) -> (Vec<(bool, &str)>, bool) {
    let lines = ending
        .lines
        .iter()
        .map(|line| (line.complaint, line.text.as_str()))
        .collect();
    (lines, ending.failed)
}

// --- finding and loading -------------------------------------------------------

const UNMARKED: MarkSight = MarkSight {
    jj: Standing::Nothing,
    jjunction: Standing::Other,
};
const MARKED: MarkSight = MarkSight {
    jj: Standing::Directory,
    jjunction: Standing::Nothing,
};

#[test]
fn workspaces_are_located() {
    let start = FsPath::new("/ws/sub");
    let default = Some(FsPath::new("/home/u/.config/jjunction/config.toml"));
    let sights = [UNMARKED, MARKED, UNMARKED];
    let located = locate(&start, &sights, None, default.clone()).unwrap();
    assert_eq!(located.root.display(), "/ws");
    assert_eq!(
        located.global_path.display(),
        "/home/u/.config/jjunction/config.toml"
    );
    assert_eq!(
        located.lock_path().display(),
        "/ws/.jjunction/lock.toml"
    );
    assert_eq!(
        located.manifest_path().display(),
        "/ws/.jjunction/config.toml"
    );
    let named = locate(&start, &sights, Some(FsPath::new("/g.toml")), default).unwrap();
    assert_eq!(named.global_path.display(), "/g.toml");

    let nowhere = [UNMARKED, UNMARKED, UNMARKED];
    let expected = err("error: no workspace root found at or above /ws/sub");
    assert_eq!(find_root(&start, &nowhere).unwrap_err(), expected);
    assert_eq!(
        locate(&start, &nowhere, None, None).unwrap_err(),
        expected
    );
    assert_eq!(
        locate(&start, &sights, None, None).unwrap_err(),
        err("error: no platform config directory on this system")
    );
}

#[test]
fn configuration_is_loaded_or_refused() {
    let start = FsPath::new("/ws");
    let located = locate(&start, &[MARKED, UNMARKED], Some(FsPath::new("/g")), None).unwrap();
    let text = |text: &str| FileRead::Text(text.to_owned());
    let loaded = load(
        &located,
        text("trusted-repos = []\n"),
        text("[repos]\nsecondary = \"skip\"\n"),
    )
    .unwrap();
    assert_eq!(
        load_repos_config(&loaded.local).unwrap().secondary,
        SecondaryMode::Skip
    );
    assert_eq!(loaded.global.layers().len(), 1);
    let empty = load(&located, FileRead::Absent, FileRead::Absent).unwrap();
    assert_eq!(empty.local.layers().len(), 0);

    let refused = |global: FileRead, local: FileRead| load(&located, global, local).unwrap_err();
    let bad = "Configuration cannot be parsed as TOML document";
    assert_eq!(
        refused(text("a = ["), text("b = [")),
        err(&format!("error: global config: {bad}"))
    );
    assert_eq!(
        refused(FileRead::Absent, text("b = [")),
        err(&format!("error: local config: {bad}"))
    );
    assert_eq!(
        refused(FileRead::Absent, FileRead::Unreadable("x".to_owned())),
        err("error: local config: Failed to read configuration file")
    );
}

// --- apply -----------------------------------------------------------------------

#[test]
fn declarations_are_read_or_refused() {
    let declared = read_declared(&stack(
        "[[repo]]\nurl = \"x/a.git\"\n\n[[link]]\nsource = \"s\"\ntarget = \"t\"\ntype = \"link\"\n",
    ))
    .unwrap();
    assert_eq!(declared.repos.len(), 1);
    assert_eq!(declared.links.len(), 1);
    assert_eq!(declared.secondary, SecondaryMode::Link);

    let refused = |text: &str| read_declared(&stack(text)).unwrap_err();
    assert_eq!(
        refused("repo = 1\n"),
        err("error: local config [[repo]]: Invalid type or value for repo")
    );
    assert_eq!(
        refused("[[repo]]\nurl = \"x/a\"\n[[repo]]\nurl = \"y/a\"\n[repos]\nx = 1\n"),
        err("error: duplicate repo name: a")
    );
    assert_eq!(
        refused("link = 1\nrepos = 1\n"),
        err("error: local config [[link]]: Invalid type or value for link")
    );
    assert_eq!(
        refused("repos = 1\n"),
        err("error: local config [repos]: Invalid type or value for repos")
    );
}

fn declared(repos: usize, links: usize, secondary: SecondaryMode) -> Declared {
    Declared {
        repos: (0..repos).map(|i| entry(&format!("x/r{i}.git"))).collect(),
        links: (0..links)
            .map(|i| link_entry("s", &format!("l{i}")))
            .collect(),
        secondary,
    }
}

#[test]
fn untrusted_workspaces_are_hinted_at() {
    let some = declared(1, 0, SecondaryMode::Link);
    let ending = apply::untrusted_ending(&root(), &some, false);
    assert_eq!(
        shown(&ending),
        (
            vec![(
                false,
                "repo /ws is not trusted; run `jjn trust` to apply [[repo]] and [[link]] entries"
            )],
            false
        )
    );
    assert_eq!(
        shown(&apply::untrusted_ending(&root(), &some, true)),
        (vec![], false)
    );
    let none = declared(0, 0, SecondaryMode::Link);
    assert_eq!(
        shown(&apply::untrusted_ending(&root(), &none, false)),
        (vec![], false)
    );
}

fn info(name: &str, root: &str, is_default: bool) -> WorkspaceInfo {
    WorkspaceInfo {
        name: name.to_owned(),
        root: FsPath::new(root),
        is_default,
    }
}

fn spelled(tasks: &[Task]) -> Vec<String> {
    tasks
        .iter()
        .map(|task| match task {
            Task::LoadLock => "load lock".to_owned(),
            Task::Materialize {
                root,
                index,
                refresh: false,
            } => format!("materialize {index} in {}", root.display()),
            Task::Materialize {
                root,
                index,
                refresh: true,
            } => format!("refresh {index} in {}", root.display()),
            Task::CollectGarbage => "collect garbage".to_owned(),
            Task::SaveLock => "save lock".to_owned(),
            Task::LinkSecondary {
                default_root,
                secondary_root,
                force,
            } => format!(
                "link {} to {}{}",
                secondary_root.display(),
                default_root.display(),
                if *force { " by force" } else { "" }
            ),
            Task::ApplyLink { index, force } => {
                format!("apply link {index}{}", if *force { " by force" } else { "" })
            }
            Task::Sync {
                default_root,
                others,
                force,
            } => format!(
                "sync {} to {} others{}",
                default_root.display(),
                others.len(),
                if *force { " by force" } else { "" }
            ),
            Task::Say(line) => line.text.clone(),
        })
        .collect()
}

fn three_workspaces() -> Result<Vec<WorkspaceInfo>, WorkspaceError> {
    Ok(vec![
        info("a", "/a", false),
        info("default", "/main", true),
        info("ws", "/ws", false),
    ])
}

#[test]
fn repos_come_before_links_and_links_before_workspaces() {
    let tasks = apply_tasks(
        &trusted(),
        &declared(2, 1, SecondaryMode::Link),
        &three_workspaces(),
        &Ok(WorkspaceConfig::default()),
        false,
    );
    assert_eq!(
        spelled(&tasks),
        vec![
            "load lock",
            "materialize 0 in /main",
            "materialize 1 in /main",
            "save lock",
            "link /a to /main",
            "link /ws to /main",
            "apply link 0",
            "sync /main to 2 others"
        ]
    );
    let forced = apply_tasks(
        &trusted(),
        &declared(1, 1, SecondaryMode::Link),
        &three_workspaces(),
        &Ok(WorkspaceConfig::default()),
        true,
    );
    assert_eq!(
        spelled(&forced)[3..],
        [
            "link /a to /main by force",
            "link /ws to /main by force",
            "apply link 0 by force",
            "sync /main to 2 others by force"
        ]
    );
}

#[test]
fn secondary_modes_decide_where_repos_go() {
    let spell = |mode: SecondaryMode, list: Result<Vec<WorkspaceInfo>, WorkspaceError>| {
        let declared = declared(1, 1, mode);
        let tasks = apply_tasks(
            &trusted(),
            &declared,
            &list,
            &Ok(WorkspaceConfig::default()),
            false,
        );
        spelled(&tasks)
    };
    assert_eq!(
        spell(SecondaryMode::Clone, three_workspaces())[..3],
        ["load lock", "materialize 0 in /ws", "save lock"]
    );
    assert_eq!(
        spell(SecondaryMode::Skip, three_workspaces())[..4],
        [
            "load lock",
            "materialize 0 in /main",
            "save lock",
            "apply link 0"
        ]
    );
    // without a known default workspace the invoking one holds the checkout
    let none = Ok(vec![info("a", "/a", false), info("ws", "/ws", false)]);
    assert_eq!(
        spell(SecondaryMode::Link, none),
        vec![
            "load lock",
            "materialize 0 in /ws",
            "save lock",
            "apply link 0",
            "warning: workspace sync skipped: no default workspace found"
        ]
    );
    let alone = Ok(vec![info("default", "/ws", true)]);
    assert_eq!(
        spell(SecondaryMode::Link, alone),
        vec![
            "load lock",
            "materialize 0 in /ws",
            "save lock",
            "apply link 0"
        ]
    );
    let failed = Err(WorkspaceError::Load("corrupt".to_owned()));
    let last = spell(SecondaryMode::Link, failed).pop().unwrap();
    assert!(last.starts_with("warning: workspace sync skipped: "));
    assert!(last.ends_with("corrupt"));
}

#[test]
fn workspaces_without_entries_are_still_synced() {
    let tasks = apply_tasks(
        &trusted(),
        &declared(0, 0, SecondaryMode::Link),
        &three_workspaces(),
        &Ok(WorkspaceConfig::default()),
        false,
    );
    assert_eq!(
        spelled(&tasks),
        vec!["no [[link]] entries", "sync /main to 2 others"]
    );
    let tasks = apply_tasks(
        &trusted(),
        &declared(0, 0, SecondaryMode::Link),
        &three_workspaces(),
        &Err(ConfigGetError {
            name: "workspace".to_owned(),
        }),
        false,
    );
    assert_eq!(
        spelled(&tasks)[1],
        "warning: workspace sync skipped: Invalid type or value for workspace"
    );
}

#[test]
fn failures_keep_nothing_from_being_done() {
    let tasks = manage::sync_tasks(&trusted(), &vec![]);
    let mut run = TaskRun::new(tasks);
    let mut done = vec![];
    while let Some(task) = run.current() {
        done.extend(spelled(std::slice::from_ref(task)));
        let failed = matches!(task, Task::CollectGarbage);
        run.finish(failed);
    }
    assert_eq!(done, vec!["load lock", "collect garbage", "save lock"]);
    assert!(run.has_failed());
    assert!(!TaskRun::new(vec![]).has_failed());
}

#[test]
fn apply_reports_what_came_of_it() {
    let e = entry("x/r.git");
    let cloned = Ok(ApplyStatus::Cloned("c".to_owned()));
    assert_eq!(
        apply::report_repo(&e, &cloned, false),
        (Some(out("r (r): cloned at c")), false)
    );
    assert_eq!(apply::report_repo(&e, &cloned, true), (None, false));
    let failed = Err(RepoError::Io("denied".to_owned()));
    assert_eq!(
        apply::report_repo(&e, &failed, true),
        (Some(err("r: denied")), true)
    );
    assert_eq!(apply::report_save(&None), (None, false));
    assert_eq!(
        apply::report_save(&Some("full".to_owned())),
        (Some(err("error: lock: full")), true)
    );
    assert_eq!(
        shown(&apply::lock_ending(&LockError::MissingVersion)),
        (
            vec![(true, "error: lock file has entries but no version")],
            true
        )
    );
    let l = link_entry("s", "t");
    assert_eq!(
        apply::report_link(&l, &Ok(link::ApplyStatus::Created), false),
        (Some(out("t: created")), false)
    );
    assert_eq!(
        apply::report_link(&l, &Ok(link::ApplyStatus::Created), true),
        (None, false)
    );
    assert_eq!(
        apply::report_link(&l, &Err(link::LinkError::Io("no".to_owned())), true),
        (Some(err("t: no")), true)
    );
    let secondary = vec![("r".to_owned(), SecondaryStatus::Linked)];
    assert_eq!(
        apply::report_secondary(&FsPath::new("/o"), &secondary, false),
        vec![out("/o [r]: linked")]
    );
    assert!(apply::report_secondary(&FsPath::new("/o"), &secondary, true).is_empty());
    let synced = vec![WorkspaceReport {
        root: FsPath::new("/o"),
        files: vec![(".envrc".to_owned(), FileStatus::Linked)],
        allow: AllowStatus::Allowed,
    }];
    assert_eq!(
        apply::report_sync(&synced, false),
        vec![out("/o [.envrc]: linked"), out("/o [allow]: allowed")]
    );
    assert!(apply::report_sync(&synced, true).is_empty());
}

// --- doctor --------------------------------------------------------------------------

fn opened(health: HooksHealth, repos: usize, links: usize, trusted: bool) -> Opening {
    doctor::open(
        &health,
        &root(),
        &FsPath::new("/g.toml"),
        repos,
        links,
        trusted,
    )
}

#[test]
fn doctor_opens_with_the_wiring() {
    let ended = |opening: Opening| match opening {
        Opening::Ended(ending) => ending,
        Opening::Check(_) => panic!("not ended"),
    };
    assert_eq!(
        shown(&ended(opened(HooksHealth::Healthy, 0, 0, true))),
        (
            vec![(
                false,
                "no [[repo]] or [[link]] entries; nothing to check"
            )],
            false
        )
    );
    assert_eq!(
        shown(&ended(opened(HooksHealth::EnvrcMissing, 0, 0, true))),
        (
            vec![(
                false,
                "hooks: FAIL .envrc lacks the jjunction watch block (jjn init)"
            )],
            true
        )
    );
    assert_eq!(
        shown(&ended(opened(HooksHealth::Healthy, 2, 13, false))),
        (
            vec![(
                false,
                "untrusted: repo /ws is not in trusted-repos (/g.toml); 2 repo and 13 link entries skipped (jjn trust)"
            )],
            false
        )
    );
    assert!(ended(opened(HooksHealth::EnvrcMissing, 1, 0, false)).failed);
    match opened(HooksHealth::EnvrcMissing, 1, 0, true) {
        Opening::Check(findings) => assert_eq!(findings.problems(), 1),
        Opening::Ended(_) => panic!("ended"),
    }
}

fn repo_sight(head: Option<&str>) -> RepoSight {
    RepoSight {
        git: head.is_some(),
        target: head.is_some(),
        status: Some(vec![]),
        head: head.map(|head| head.to_owned()),
    }
}

#[test]
fn doctor_counts_problems() {
    let mut lock = new_lock();
    lock.set_commit("a", "c1");
    let repos = vec![entry("x/a.git"), entry("x/b.git")];
    let links = vec![link_entry("s", "l")];
    let mut findings = Findings::none();
    doctor::check_repos(
        &mut findings,
        &repos,
        &lock,
        &vec![repo_sight(Some("c1")), repo_sight(None)],
    );
    let sights = vec![
        SecondarySight {
            source_git: true,
            site: Site::Link(FsPath::new("/main/a")),
        },
        SecondarySight {
            source_git: false,
            site: Site::Absent,
        },
    ];
    doctor::check_secondary_links(
        &mut findings,
        &FsPath::new("/main"),
        &root(),
        &repos,
        &sights,
    );
    doctor::check_links(
        &mut findings,
        &root(),
        &links,
        &vec![LinkSight {
            source: true,
            site: Site::Link(FsPath::new("/ws/s")),
        }],
    );
    assert_eq!(
        shown(&doctor::close(&findings)),
        (
            vec![
                (false, "a (a): ok ok"),
                (false, "b (b): FAIL not materialized"),
                (false, "a [secondary]: ok already linked"),
                (
                    false,
                    "b [secondary]: FAIL default workspace has not materialized this repo"
                ),
                (false, "l: ok ok"),
                (true, "2 problem(s) found"),
            ],
            true
        )
    );
    assert_eq!(
        shown(&doctor::close(&Findings::none())),
        (vec![], false)
    );
}

#[test]
fn doctor_reports_clashing_declarations() {
    let repos = vec![entry("x/a.git"), entry("y/a.git")];
    let mut findings = Findings::none();
    doctor::check_repos(
        &mut findings,
        &repos,
        &new_lock(),
        &vec![repo_sight(None), repo_sight(None)],
    );
    assert_eq!(findings.lines()[0], out("repos: FAIL duplicate repo name: a"));
    assert_eq!(findings.problems(), 3);
}

#[test]
fn secondary_links_are_checked_in_secondary_workspaces_only() {
    let main = Some(FsPath::new("/main"));
    assert!(doctor::checks_secondary(SecondaryMode::Link, &root(), &main));
    assert!(!doctor::checks_secondary(
        SecondaryMode::Link,
        &FsPath::new("/main/"),
        &main
    ));
    assert!(!doctor::checks_secondary(SecondaryMode::Skip, &root(), &main));
    assert!(!doctor::checks_secondary(SecondaryMode::Clone, &root(), &main));
    assert!(!doctor::checks_secondary(SecondaryMode::Link, &root(), &None));
}

// --- repo ------------------------------------------------------------------------------

#[test]
fn materializing_commands_are_gated() {
    let listed = vec![FsPath::new("/ws/")];
    let passed = manage::gate(&listed, &root()).unwrap();
    assert_eq!(passed.root().display(), "/ws");
    assert_eq!(
        manage::gate(&vec![FsPath::new("/w")], &root()).unwrap_err(),
        err("error: repo /ws is not trusted; run `jjn trust` first")
    );
    assert!(TrustedRoot::vouch(&vec![], &root()).is_none());
    let run = manage::add_run(&passed, &entry("x/a.git"));
    assert!(run.ask().is_some());
}

#[test]
fn entries_are_selected_by_name_or_target() {
    let mut b = entry("x/b.git");
    b.target = Some("deps/b".to_owned());
    let entries = vec![entry("x/a.git"), b.clone()];
    assert_eq!(manage::pick(&entries, "deps/b").unwrap(), b);
    assert_eq!(manage::pick(&entries, "b").unwrap(), b);
    assert_eq!(
        manage::pick(&entries, "c").unwrap_err(),
        err("error: no [[repo]] entry named c; known: a, b")
    );
    let names = |names: &[&str]| -> Vec<String> {
        names.iter().map(|name| name.to_string()).collect()
    };
    assert_eq!(manage::select(&entries, &vec![]).unwrap(), entries);
    assert_eq!(
        manage::select(&entries, &names(&["b", "a"])).unwrap(),
        vec![b, entry("x/a.git")]
    );
    assert_eq!(
        manage::select(&entries, &names(&["a", "c", "d"])).unwrap_err(),
        err("error: no [[repo]] entry named c; known: a, b")
    );
    assert_eq!(
        manage::select(&vec![], &names(&["a"])).unwrap_err(),
        err("error: no [[repo]] entries")
    );
    assert_eq!(
        spelled(&manage::update_tasks(&trusted(), &entries)),
        vec![
            "load lock",
            "refresh 0 in /ws",
            "refresh 1 in /ws",
            "save lock"
        ]
    );
    assert_eq!(
        spelled(&manage::sync_tasks(&trusted(), &entries[..1].to_vec())),
        vec![
            "load lock",
            "materialize 0 in /ws",
            "collect garbage",
            "save lock"
        ]
    );
}

#[test]
fn clashing_entries_are_not_added() {
    let mut a = entry("x/a.git");
    a.rev = Some("main".to_owned());
    a.target = Some("deps/a".to_owned());
    let entries = vec![a];
    assert!(manage::allow_entry(&entries, &entry("x/b.git")).is_ok());
    let ending = manage::allow_entry(&entries, &entry("y/a.git")).unwrap_err();
    assert_eq!(
        shown(&ending),
        (
            vec![
                (true, "error: duplicate repo name: a"),
                (
                    true,
                    "existing entry: \"a\" url=x/a.git target=deps/a rev=main"
                ),
                (true, "remove it with: jjn repo remove a"),
            ],
            true
        )
    );
    let mut c = entry("y/c.git");
    c.target = Some("deps/a".to_owned());
    let ending = manage::allow_entry(&entries, &c).unwrap_err();
    assert_eq!(ending.lines[0], err("error: duplicate repo target: deps/a"));
    assert_eq!(ending.lines[2], err("remove it with: jjn repo remove a"));
}

#[test]
fn adding_writes_all_or_nothing() {
    let e = entry("x/a.git");
    let status = ApplyStatus::Cloned("c".to_owned());
    let turn = manage::materialized(&e, &Ok(status.clone()));
    assert_eq!(turn.next, AddNext::WriteManifest);
    assert!(turn.lines.is_empty());
    assert!(!turn.failed());
    let turn = manage::materialized(&e, &Err(RepoError::Io("denied".to_owned())));
    assert_eq!(turn.next, AddNext::TakeBack);
    assert_eq!(turn.lines, vec![err("a: denied"), err("nothing written")]);
    assert!(turn.failed());

    let manifest = FsPath::new("/ws/.jjunction/config.toml");
    let turn = manage::recorded(&e, &manifest, &status, &None);
    assert_eq!(turn.next, AddNext::WriteLock);
    assert!(!turn.failed());
    assert_eq!(
        turn.lines,
        vec![
            out("added a (a) to /ws/.jjunction/config.toml"),
            out("a: cloned at c")
        ]
    );
    let turn = manage::recorded(&e, &manifest, &status, &Some("full".to_owned()));
    assert_eq!(turn.next, AddNext::TakeBack);
    assert_eq!(
        turn.lines,
        vec![err("error: manifest: full"), err("nothing written")]
    );
}

#[test]
fn removing_leaves_the_directory() {
    let mut e = entry("x/a.git");
    e.target = Some("deps/a".to_owned());
    assert_eq!(
        shown(&manage::removed_ending(&e, &None)),
        (
            vec![(
                false,
                "removed a; directory left at deps/a (delete it manually if desired)"
            )],
            false
        )
    );
    assert_eq!(
        shown(&manage::removed_ending(&e, &Some("full".to_owned()))),
        (vec![(true, "error: lock: full")], true)
    );
    assert_eq!(
        shown(&manage::vanished_ending("a")),
        (
            vec![(
                true,
                "error: a disappeared from the manifest while removing it"
            )],
            true
        )
    );
    assert_eq!(
        shown(&manage::manifest_ending("bad")),
        (vec![(true, "error: manifest: bad")], true)
    );
}

#[test]
fn entries_are_listed_with_their_state() {
    let mut lock = new_lock();
    lock.set_commit("a", "c1");
    let entries = vec![entry("x/a.git"), entry("x/b.git")];
    let ending = manage::list(
        &entries,
        &lock,
        &vec![repo_sight(Some("c1")), repo_sight(None)],
    );
    assert_eq!(
        shown(&ending),
        (
            vec![
                (false, "\"a\" url=x/a.git target=a rev=(floating): ok"),
                (
                    false,
                    "\"b\" url=x/b.git target=b rev=(floating): not materialized"
                ),
            ],
            false
        )
    );
    assert_eq!(
        shown(&manage::list(&vec![], &lock, &vec![])),
        (vec![(false, "no [[repo]] entries")], false)
    );
}

// --- init and trust ----------------------------------------------------------------------

#[test]
fn init_reports_each_file() {
    let report = InitReport {
        config: WireStatus::Created,
        envrc: WireStatus::AlreadyWired,
        devenv_local: WireStatus::Skipped,
    };
    assert_eq!(
        shown(&setup::init_ending(&Ok(report))),
        (
            vec![
                (false, ".jjunction/config.toml: wired"),
                (false, ".envrc: already wired"),
                (false, "devenv.local.nix: skipped"),
                (
                    false,
                    "  (no devenv.yaml/devenv.nix: not a devenv project)"
                ),
            ],
            false
        )
    );
    let full = InitReport {
        devenv_local: WireStatus::Created,
        ..report
    };
    assert_eq!(setup::init_ending(&Ok(full)).lines.len(), 3);
    assert_eq!(
        shown(&setup::init_ending(&Err(HooksError::Io("no".to_owned())))),
        (vec![(true, "error: no")], true)
    );
}

#[test]
fn trust_reports_its_outcome() {
    let told = |result: Result<TrustOutcome, TrustError>| {
        let ending = setup::trust_ending(&result, &root(), &FsPath::new("/g.toml"));
        assert_eq!(ending.lines.len(), 1);
        (ending.lines[0].text.clone(), ending.failed)
    };
    assert_eq!(
        told(Ok(TrustOutcome::Added)),
        ("trusted /ws in /g.toml".to_owned(), false)
    );
    assert_eq!(
        told(Ok(TrustOutcome::AlreadyTrusted)),
        ("/ws is already trusted".to_owned(), false)
    );
    assert_eq!(
        told(Err(TrustError::Io("no".to_owned()))),
        ("error: no".to_owned(), true)
    );
}

// --- what is checked ---------------------------------------------------------------------

fn checked(repos: usize, links: usize, mode: SecondaryMode, root: &str) -> Vec<String> {
    doctor::plan_checks(
        repos,
        links,
        mode,
        &FsPath::new(root),
        &three_workspaces(),
        &Some(FsPath::new("/main")),
    )
    .iter()
    .map(|check| match check {
        Check::Repos(root) => format!("repos {}", root.display()),
        Check::SecondaryLinks(root) => format!("secondary {}", root.display()),
        Check::Links => "links".to_owned(),
    })
    .collect()
}

#[test]
fn only_what_is_declared_is_checked() {
    assert!(checked(0, 0, SecondaryMode::Link, "/other").is_empty());
    assert_eq!(checked(0, 2, SecondaryMode::Link, "/other"), vec!["links"]);
    let all = checked(1, 1, SecondaryMode::Link, "/other");
    assert_eq!(all.len(), 3);
    assert!(all[0].starts_with("repos "));
    assert_eq!(all[1], "secondary /main");
    assert_eq!(all[2], "links");
    assert_eq!(
        checked(1, 0, SecondaryMode::Clone, "/other"),
        vec!["repos /other"]
    );
    let main = checked(1, 1, SecondaryMode::Link, "/main");
    assert_eq!(main, vec!["repos /main", "links"]);
}

// --- removing ------------------------------------------------------------------------------

const TWO: &str = "# ours\n[[repo]]\nurl = \"x/a.git\"\ntarget = \"deps/a\"\n\n[[repo]]\nurl = \"x/b.git\"\n";

fn written(deeds: &[Deed]) -> Vec<(String, String)> {
    deeds
        .iter()
        .filter_map(|deed| match &deed.step {
            Step::Write { path, content } => Some((path.display(), content.clone())),
            _ => None,
        })
        .collect()
}

#[test]
fn removed_entries_leave_the_manifest_and_the_lock() {
    let entries = load_entries(&stack(TWO)).unwrap();
    let found = manage::pick(&entries, "deps/a").unwrap();
    assert_eq!(found, entries[0]);

    let path = FsPath::new("/ws/.jjunction/config.toml");
    let mut manifest = Manifest::load(&path, &FileRead::Text(TWO.to_owned())).unwrap();
    let deeds = manage::drop_declaration(&mut manifest, &path, &found, "deps/a").unwrap();
    let files = written(&deeds);
    assert_eq!(files.len(), 1);
    assert_eq!(files[0].0, "/ws/.jjunction/config.toml");
    assert_eq!(load_entries(&stack(&files[0].1)).unwrap(), entries[1..]);
    let gone = manage::drop_declaration(&mut manifest, &path, &found, "deps/a").unwrap_err();
    assert_eq!(
        shown(&gone),
        (
            vec![(
                true,
                "error: deps/a disappeared from the manifest while removing it"
            )],
            true
        )
    );

    let text = "version = 1\n\n[repo.a]\ncommit = \"1\"\n\n[repo.b]\ncommit = \"2\"\n";
    let at = FsPath::new("/ws/.jjunction/lock.toml");
    let mut lock = RepoLock::load_or_create(&at, &FileRead::Text(text.to_owned())).unwrap();
    let files = written(&manage::drop_lock(&mut lock, &found));
    assert_eq!(files.len(), 1);
    let again = RepoLock::load_or_create(&at, &FileRead::Text(files[0].1.clone())).unwrap();
    assert_eq!(again.commit("a"), None);
    assert_eq!(again.commit("b"), Some("2"));
    assert!(manage::drop_lock(&mut lock, &found).is_empty());
}
