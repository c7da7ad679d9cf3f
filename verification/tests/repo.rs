//! `[[repo]]` entries: materializing, checking, and the manifest.

use jj_lib::config::StackedConfig;
use jjunction::files::Deed;
use jjunction::files::FileRead;
use jjunction::files::Site;
use jjunction::files::Step;
use jjunction::lock::RepoLock;
use jjunction::path::FsPath;
use jjunction::repo;
use jjunction::repo::append_manifest_entry;
use jjunction::repo::default_name;
use jjunction::repo::doctor::target_to_check;
use jjunction::repo::entry_summary;
use jjunction::repo::gc_lock;
use jjunction::repo::load_entries;
use jjunction::repo::materialize::is_dirty;
use jjunction::repo::materialize::is_object_id;
use jjunction::repo::materialize::resolve_local;
use jjunction::repo::materialize::Lookup;
use jjunction::repo::materialize::Spot;
use jjunction::repo::remove_manifest_entry;
use jjunction::repo::validate;
use jjunction::repo::ApplyStatus;
use jjunction::repo::DoctorStatus;
use jjunction::repo::GitCall;
use jjunction::repo::Manifest;
use jjunction::repo::Materialize;
use jjunction::repo::RepoAsk;
use jjunction::repo::RepoEntry;
use jjunction::repo::RepoError;
use jjunction::repo::RepoReply;
use jjunction::repo::RepoSight;
use std::collections::BTreeMap;

#[derive(Debug, Clone, PartialEq)]
enum Thing {
    Dir,
    File(String),
    Link(String),
}

/// A filesystem in memory.
#[derive(Debug, Clone, PartialEq)]
struct World {
    things: BTreeMap<String, Thing>,
}

impl World {
    fn new() -> World {
        World {
            things: BTreeMap::new(),
        }
    }

    fn dir(&mut self, path: &str) {
        self.things.insert(path.to_owned(), Thing::Dir);
    }

    fn file(&mut self, path: &str, content: &str) {
        self.things
            .insert(path.to_owned(), Thing::File(content.to_owned()));
    }

    fn link(&mut self, to: &str, path: &str) {
        self.things
            .insert(path.to_owned(), Thing::Link(to.to_owned()));
    }

    fn read_link(&self, path: &str) -> Option<String> {
        match self.things.get(path) {
            Some(Thing::Link(to)) => Some(to.clone()),
            _ => None,
        }
    }

    fn is_there(&self, path: &str) -> bool {
        match self.things.get(path) {
            Some(Thing::Link(to)) => self.is_there(to),
            Some(_) => true,
            None => false,
        }
    }

    fn site(&self, path: &FsPath) -> Site {
        match self.things.get(&path.display()) {
            None => Site::Absent,
            Some(Thing::Dir) => Site::Directory,
            Some(Thing::File(_)) => Site::File,
            Some(Thing::Link(to)) => Site::Link(FsPath::new(to)),
        }
    }

    fn step(&mut self, step: &Step) -> Result<(), String> {
        match step {
            Step::RemoveFile(path) => match self.things.get(&path.display()) {
                None => Err("not found".to_owned()),
                Some(Thing::Dir) => Err("is a directory".to_owned()),
                Some(_) => {
                    self.things.remove(&path.display());
                    Ok(())
                }
            },
            Step::RemoveTree(path) => {
                let top = path.display();
                let below = format!("{top}/");
                self.things
                    .retain(|at, _| at != &top && !at.starts_with(&below));
                Ok(())
            }
            Step::MakeDirs(path) => {
                let mut at = Some(path.clone());
                while let Some(dir) = at {
                    if let Some(Thing::File(_)) = self.things.get(&dir.display()) {
                        return Err("not a directory".to_owned());
                    }
                    self.things.entry(dir.display()).or_insert(Thing::Dir);
                    at = dir.parent();
                }
                Ok(())
            }
            Step::Symlink { source, at } => {
                if self.things.contains_key(&at.display()) {
                    return Err("file exists".to_owned());
                }
                self.link(&source.display(), &at.display());
                Ok(())
            }
            Step::Write { path, content } => {
                self.file(&path.display(), content);
                Ok(())
            }
        }
    }

    /// Performs a plan; gives the message of the required change that failed.
    fn perform(&mut self, deeds: &[Deed]) -> Option<String> {
        for deed in deeds {
            if let Err(message) = self.step(&deed.step) {
                if deed.required {
                    return Some(message);
                }
            }
        }
        None
    }
}

const ROOT: &str = "/ws";
const URL: &str = "/srv/remote";

fn entry(url: &str) -> RepoEntry {
    RepoEntry {
        name: None,
        url: url.to_owned(),
        target: None,
        rev: None,
    }
}

fn entry_rev(url: &str, rev: &str) -> RepoEntry {
    RepoEntry {
        rev: Some(rev.to_owned()),
        ..entry(url)
    }
}

fn commit(n: usize) -> String {
    format!("{n:040x}")
}

fn new_lock() -> RepoLock {
    RepoLock::load_or_create(&FsPath::new("/ws/.jjunction/lock.toml"), &FileRead::Absent).unwrap()
}

/// A remote repository: its commits with their content, its branches and tags.
#[derive(Debug, Clone)]
struct Remote {
    commits: BTreeMap<String, String>,
    main: String,
    tags: BTreeMap<String, String>,
}

/// A clone.
#[derive(Debug, Clone)]
struct Copy {
    known: BTreeMap<String, String>,
    refs: BTreeMap<String, String>,
    head: Option<String>,
    content: Option<String>,
    extra: bool,
}

/// A workspace, the remotes, and what was asked of them.
struct Host {
    world: World,
    remote: Remote,
    reachable: bool,
    copies: BTreeMap<String, Copy>,
    calls: Vec<String>,
    directories: Vec<String>,
}

/// A remote with two commits on `main` and a tag `v1` on the first.
fn fixture() -> (Host, String, String) {
    let (c1, c2) = (commit(1), commit(2));
    let mut world = World::new();
    world.dir(ROOT);
    let remote = Remote {
        commits: BTreeMap::from([
            (c1.clone(), "one".to_owned()),
            (c2.clone(), "two".to_owned()),
        ]),
        main: c2.clone(),
        tags: BTreeMap::from([("v1".to_owned(), c1.clone())]),
    };
    let host = Host {
        world,
        remote,
        reachable: true,
        copies: BTreeMap::new(),
        calls: vec![],
        directories: vec![],
    };
    (host, c1, c2)
}

impl Host {
    fn fetch(&mut self, at: &str) -> Result<Vec<u8>, String> {
        if !self.reachable {
            return Err("could not read from remote".to_owned());
        }
        let remote = self.remote.clone();
        let copy = self.copies.get_mut(at).unwrap();
        copy.known = remote.commits;
        copy.refs
            .insert("refs/remotes/origin/main".to_owned(), remote.main.clone());
        for (tag, commit) in remote.tags {
            copy.refs.insert(format!("refs/tags/{tag}"), commit);
        }
        copy.refs
            .insert("refs/remotes/origin/HEAD".to_owned(), remote.main);
        Ok(vec![])
    }

    fn git(&mut self, call: &GitCall) -> Result<Vec<u8>, String> {
        self.calls.push(call.args.join(" "));
        let args: Vec<&str> = call.args.iter().map(|arg| arg.as_str()).collect();
        let at = call.dir.display();
        match args[0] {
            "clone" => {
                assert_eq!(at, ROOT);
                if !self.reachable {
                    return Err("repository not found".to_owned());
                }
                let target = format!("{ROOT}/{}", args[3]);
                self.world.dir(&target);
                self.copies.insert(
                    target.clone(),
                    Copy {
                        known: BTreeMap::new(),
                        refs: BTreeMap::new(),
                        head: None,
                        content: None,
                        extra: false,
                    },
                );
                self.fetch(&target)
            }
            "fetch" => self.fetch(&at),
            "remote" => Ok(vec![]),
            "status" => Ok(if self.copies[&at].extra {
                b"?? extra.txt\n".to_vec()
            } else {
                vec![]
            }),
            "checkout" => {
                let copy = self.copies.get_mut(&at).unwrap();
                match copy.known.get(args[3]) {
                    Some(content) => {
                        copy.head = Some(args[3].to_owned());
                        copy.content = Some(content.clone());
                        Ok(vec![])
                    }
                    None => Err("reference is not a tree".to_owned()),
                }
            }
            other => panic!("{other}"),
        }
    }

    fn answer(&mut self, ask: &RepoAsk) -> RepoReply {
        match ask {
            RepoAsk::Probe(path) => {
                let path = path.display();
                RepoReply::Present(
                    self.copies
                        .contains_key(path.strip_suffix("/.git").unwrap()),
                )
            }
            RepoAsk::Inspect(path) => {
                let at = path.display();
                let below = format!("{at}/");
                RepoReply::Spot(match self.world.things.get(&at) {
                    None => Spot::Absent,
                    Some(Thing::Dir) => {
                        if self.world.things.keys().any(|one| one.starts_with(&below)) {
                            Spot::UsedDirectory
                        } else {
                            Spot::EmptyDirectory
                        }
                    }
                    Some(_) => Spot::Other,
                })
            }
            RepoAsk::MakeDirs(path) => {
                self.directories.push(path.display());
                RepoReply::Made(None)
            }
            RepoAsk::Git(call) => RepoReply::Ran(self.git(call)),
            RepoAsk::Resolve { target, lookup } => {
                let copy = &self.copies[&target.display()];
                RepoReply::Found(match lookup {
                    Lookup::Object(id) => {
                        vec![copy.known.contains_key(id).then_some(id.clone())]
                    }
                    Lookup::References(names) => names
                        .iter()
                        .map(|name| copy.refs.get(name).cloned())
                        .collect(),
                })
            }
            RepoAsk::Head(path) => RepoReply::At(self.copies[&path.display()].head.clone()),
        }
    }

    fn run(&mut self, entry: &RepoEntry, lock: &mut RepoLock, refresh: bool) -> Materialize {
        let mut run = repo::apply_one(&FsPath::new(ROOT), entry, refresh, false);
        while let Some(ask) = run.ask() {
            let reply = self.answer(&ask);
            run.resume(reply, lock);
        }
        assert!(run.is_done());
        run
    }

    fn apply(
        &mut self,
        entry: &RepoEntry,
        lock: &mut RepoLock,
        refresh: bool,
    ) -> Result<ApplyStatus, RepoError> {
        self.run(entry, lock, refresh).outcome().unwrap()
    }

    fn sight(&self, entry: &RepoEntry) -> RepoSight {
        let target = match target_to_check(&FsPath::new(ROOT), entry) {
            Some(target) => target.display(),
            None => String::new(),
        };
        let copy = self.copies.get(&target);
        RepoSight {
            git: copy.is_some(),
            target: self.world.is_there(&target),
            status: copy.map(|copy| {
                if copy.extra {
                    b"?? local.txt\n".to_vec()
                } else {
                    vec![]
                }
            }),
            head: copy.and_then(|copy| copy.head.clone()),
        }
    }

    fn doctor(&self, entry: &RepoEntry, lock: &RepoLock) -> DoctorStatus {
        repo::doctor_one(entry, lock, &self.sight(entry))
    }
}

const TARGET: &str = "/ws/remote";

#[test]
fn default_name_strips_git_suffix() {
    assert_eq!(default_name("https://x/y/repo.git"), "repo");
    assert_eq!(default_name("https://x/y/repo"), "repo");
    assert_eq!(default_name("git@host:org/repo.git"), "repo");
    assert_eq!(default_name("https://x/y/repo/"), "repo");
}

#[test]
fn default_names_of_odd_urls() {
    assert_eq!(default_name("repo"), "repo");
    assert_eq!(default_name(""), "");
    assert_eq!(default_name("///"), "");
    assert_eq!(default_name("x/repo.git//"), "repo");
    assert_eq!(default_name("x/repo.git.git"), "repo");
    assert_eq!(default_name("x/.git"), "");
    assert_eq!(default_name("git@host:repo.git"), "git@host:repo");
}

#[test]
fn effective_target_defaults_to_name() {
    let e = entry("https://x/y/repo.git");
    assert_eq!(e.effective_name(), "repo");
    assert_eq!(e.effective_target(), "repo");
}

#[test]
fn validate_rejects_duplicate_names() {
    let entries = vec![entry("https://x/a.git"), entry("https://y/a.git")];
    assert!(matches!(
        validate(&entries),
        Err(RepoError::Duplicate { kind: "name", .. })
    ));
    assert_eq!(
        validate(&entries).unwrap_err().message(),
        "duplicate repo name: a"
    );
}

#[test]
fn validate_rejects_duplicate_targets() {
    let mut b = entry("https://y/b.git");
    b.target = Some("a".to_owned());
    let entries = vec![entry("https://x/a.git"), b];
    assert!(matches!(
        validate(&entries),
        Err(RepoError::Duplicate { kind: "target", value }) if value == "a"
    ));
    assert!(validate(&entries[..1]).is_ok());
    assert!(validate(&[]).is_ok());
}

#[test]
fn load_entries_parses_repo_tables() {
    let mut local = StackedConfig::empty();
    local.add_layer(
        jj_lib::config::ConfigLayer::parse(
            jj_lib::config::ConfigSource::Repo,
            r#"
            [[repo]]
            url = "https://x/y/habitat-sim.git"
            target = "third_party/habitat-sim"
            rev = "main"

            [[repo]]
            name = "mini"
            url = "https://x/y/mini.git"
            "#,
        )
        .unwrap(),
    );

    let entries = load_entries(&local).unwrap();
    assert_eq!(entries.len(), 2);
    assert_eq!(
        entries[0].target.as_deref(),
        Some("third_party/habitat-sim")
    );
    assert_eq!(entries[1].effective_name(), "mini");
    assert_eq!(entries[1].effective_target(), "mini");
    assert_eq!(entries[0].rev.as_deref(), Some("main"));
    assert_eq!(entries[0].effective_name(), "habitat-sim");
}

#[test]
fn load_entries_rejects_unknown_fields() {
    let mut local = StackedConfig::empty();
    local.add_layer(
        jj_lib::config::ConfigLayer::parse(
            jj_lib::config::ConfigSource::Repo,
            r#"
            [[repo]]
            url = "https://x/y/a.git"
            brancy = "typo"
            "#,
        )
        .unwrap(),
    );
    assert!(load_entries(&local).is_err());
}

#[test]
fn repo_tables_need_a_url() {
    let mut local = StackedConfig::empty();
    local.add_layer(
        jj_lib::config::ConfigLayer::parse(
            jj_lib::config::ConfigSource::Repo,
            "[[repo]]\nname = \"a\"\n",
        )
        .unwrap(),
    );
    assert_eq!(
        load_entries(&local).unwrap_err().message(),
        "Invalid type or value for repo"
    );
    assert!(load_entries(&StackedConfig::empty()).unwrap().is_empty());
}

#[test]
fn apply_clones_locks_and_checks_out() {
    let (mut host, _c1, c2) = fixture();
    let entry = entry(URL);
    let mut lock = new_lock();

    let status = host.apply(&entry, &mut lock, false).unwrap();
    assert_eq!(status, ApplyStatus::Cloned(c2.clone()));
    assert_eq!(lock.commit("remote"), Some(c2.as_str()));
    assert!(lock.is_changed());

    assert_eq!(host.copies[TARGET].head, Some(c2.clone()));
    assert_eq!(host.copies[TARGET].content.as_deref(), Some("two"));
    assert_eq!(host.directories, vec![ROOT]);
    assert_eq!(
        host.calls,
        vec![
            format!("clone --no-checkout {URL} remote"),
            format!("checkout --detach --quiet {c2}")
        ]
    );
}

#[test]
fn apply_is_idempotent_and_follows_lock_offline() {
    let (mut host, c1, _c2) = fixture();
    let entry = entry(URL);
    let mut lock = new_lock();

    host.apply(&entry, &mut lock, false).unwrap();
    assert_eq!(
        host.apply(&entry, &mut lock, false).unwrap(),
        ApplyStatus::AlreadyAt(lock.commit("remote").unwrap().to_owned())
    );

    // Rewind the lock: apply must move HEAD without touching the network.
    host.reachable = false;
    lock.set_commit("remote", &c1);
    assert_eq!(
        host.apply(&entry, &mut lock, false).unwrap(),
        ApplyStatus::CheckedOut(c1.clone())
    );
    assert_eq!(host.copies[TARGET].content.as_deref(), Some("one"));
}

#[test]
fn apply_resolves_rev_forms() {
    let (_, c1, c2) = fixture();

    for (rev, expected) in [("main", &c2), ("v1", &c1), (c1.as_str(), &c1)] {
        let (mut host, _, _) = fixture();
        let mut lock = new_lock();
        let status = host
            .apply(&entry_rev(URL, rev), &mut lock, false)
            .unwrap();
        assert_eq!(status, ApplyStatus::Cloned(expected.clone()), "rev {rev}");
    }
}

#[test]
fn apply_skips_dirty_repos() {
    let (mut host, c1, c2) = fixture();
    let entry = entry(URL);
    let mut lock = new_lock();

    host.apply(&entry, &mut lock, false).unwrap();
    host.copies.get_mut(TARGET).unwrap().extra = true;

    lock.set_commit("remote", &c1);
    let status = host.apply(&entry, &mut lock, false).unwrap();
    assert_eq!(
        status,
        ApplyStatus::SkippedDirty {
            desired: c1.clone()
        }
    );
    assert_eq!(
        status.message(),
        format!("skipped: dirty working copy (wanted {c1})")
    );
    assert_eq!(
        host.copies[TARGET].head,
        Some(c2.clone()),
        "HEAD untouched"
    );
    assert!(host.copies[TARGET].extra, "worktree untouched");
}

#[test]
fn tests_apply_refuses_occupied_paths() {
    let (mut host, _c1, _c2) = fixture();
    let entry = entry(URL);
    let mut lock = new_lock();

    host.world.dir(TARGET);
    host.world.file("/ws/remote/keep.txt", "user data");

    let refused = host.apply(&entry, &mut lock, false);
    assert!(matches!(refused, Err(RepoError::Occupied(_))));
    assert!(host.world.is_there("/ws/remote/keep.txt"));
    assert_eq!(
        refused.unwrap_err().message(),
        "target exists and is not a git repository: /ws/remote (target names the repository itself, not its parent; only empty directories are cloned into)"
    );
    assert!(host.calls.is_empty());
}

#[test]
fn apply_clones_into_an_existing_empty_directory() {
    let (mut host, _c1, c2) = fixture();
    let entry = entry(URL);
    let mut lock = new_lock();

    // Pre-existing empty directory, like `git clone url dir` accepts.
    host.world.dir(TARGET);

    let status = host.apply(&entry, &mut lock, false).unwrap();
    assert_eq!(status, ApplyStatus::Cloned(c2.clone()));
    assert_eq!(host.copies[TARGET].head, Some(c2));
}

#[test]
fn gc_lock_drops_orphans_only() {
    let entry = entry(URL);
    let mut lock = new_lock();

    lock.set_commit("ghost", &"a".repeat(40));
    lock.set_commit("remote", &"b".repeat(40));

    let dropped = gc_lock(&mut lock, std::slice::from_ref(&entry));
    assert_eq!(dropped, vec!["ghost".to_owned()]);
    assert_eq!(lock.commit("remote"), Some("b".repeat(40).as_str()));
    assert_eq!(lock.commit("ghost"), None);
    assert!(gc_lock(&mut lock, std::slice::from_ref(&entry)).is_empty());
}

#[test]
fn refresh_follows_remote_main() {
    let (mut host, _c1, _c2) = fixture();
    let entry = entry(URL);
    let mut lock = new_lock();

    host.apply(&entry, &mut lock, false).unwrap();

    let c3 = commit(3);
    host.remote.commits.insert(c3.clone(), "three".to_owned());
    host.remote.main = c3.clone();

    let status = host.apply(&entry, &mut lock, true).unwrap();
    assert_eq!(status, ApplyStatus::CheckedOut(c3.clone()));
    assert_eq!(lock.commit("remote"), Some(c3.as_str()));
    assert_eq!(host.copies[TARGET].content.as_deref(), Some("three"));
}

#[test]
fn resolve_reports_unresolvable_revisions() {
    let (mut host, _c1, _c2) = fixture();
    let mut entry = entry(URL);
    let mut lock = new_lock();

    host.apply(&entry, &mut lock, false).unwrap();
    entry.rev = Some("no-such-branch".to_owned());

    let err = host.apply(&entry, &mut lock, true).unwrap_err();
    assert!(
        matches!(err, RepoError::Resolve(_)),
        "got: {}",
        err.message()
    );
    assert_eq!(
        err.message(),
        "revision \"no-such-branch\" of /srv/remote not found after fetch; expected a branch, tag, or full commit id"
    );
}

#[test]
fn tests_doctor_reports_each_status() {
    let (mut host, c1, c2) = fixture();
    let entry = entry(URL);
    let mut lock = new_lock();

    // not materialized
    assert_eq!(host.doctor(&entry, &lock), DoctorStatus::MissingTarget);

    host.apply(&entry, &mut lock, false).unwrap();

    // ok
    assert_eq!(host.doctor(&entry, &lock), DoctorStatus::Healthy);

    // diverged
    lock.set_commit("remote", &c1);
    assert_eq!(
        host.doctor(&entry, &lock),
        DoctorStatus::Diverged {
            at: Some(c2.clone()),
            locked: c1.clone()
        }
    );

    // manifest pins a different full sha
    let pinned = entry_rev(URL, &c1);
    lock.set_commit("remote", &c2);
    assert_eq!(
        host.doctor(&pinned, &lock),
        DoctorStatus::ManifestPinned {
            rev: c1.clone(),
            locked: c2.clone()
        }
    );

    // dirty
    host.copies.get_mut(TARGET).unwrap().extra = true;
    assert_eq!(host.doctor(&entry, &lock), DoctorStatus::Dirty);

    // missing lock entry
    lock.remove("remote");
    assert_eq!(host.doctor(&entry, &lock), DoctorStatus::MissingLock);
}

#[test]
fn manifest_append_preserves_comments_and_remove_roundtrips() {
    let path = FsPath::new("/ws/.jjunction/config.toml");
    let before = "# team config\n\n[[link]]\nsource = \"a\"\ntarget = \"b\"\ntype = \"link\"\n";
    let mut manifest = Manifest::load(&path, &FileRead::Text(before.to_owned())).unwrap();
    assert!(manifest.can_edit());

    let text = append_manifest_entry(
        &mut manifest,
        &RepoEntry {
            name: None,
            url: "https://x/y/repo.git".to_owned(),
            target: Some("third_party/repo".to_owned()),
            rev: Some("main".to_owned()),
        },
    );

    assert!(text.starts_with("# team config"), "comment kept: {text}");
    assert!(text.contains("[[repo]]"));
    assert!(text.contains("target = \"third_party/repo\""));
    assert!(text.contains("[[link]]"));
    assert_eq!(
        text,
        format!("{before}\n[[repo]]\nurl = \"https://x/y/repo.git\"\ntarget = \"third_party/repo\"\nrev = \"main\"\n")
    );

    let mut manifest = Manifest::load(&path, &FileRead::Text(text)).unwrap();
    let text = remove_manifest_entry(&mut manifest, "repo").unwrap();
    assert!(!text.contains("[[repo]]"));
    assert!(text.contains("[[link]]"));
    let mut manifest = Manifest::load(&path, &FileRead::Text(text)).unwrap();
    assert!(remove_manifest_entry(&mut manifest, "repo").is_none());
}

#[test]
fn manifests_that_cannot_be_edited_are_told_apart() {
    let path = FsPath::new("/ws/.jjunction/config.toml");
    let taken = Manifest::load(&path, &FileRead::Text("repo = 1\n".to_owned())).unwrap();
    assert!(!taken.can_edit());
    let fresh = Manifest::load(&path, &FileRead::Absent).unwrap();
    assert!(fresh.can_edit());
    let bad = Manifest::load(&path, &FileRead::Text("[[repo]\n".to_owned())).unwrap_err();
    assert!(bad
        .message()
        .starts_with("lock: invalid lock file /ws/.jjunction/config.toml: TOML parse error"));
    let denied = Manifest::load(&path, &FileRead::Unreadable("denied".to_owned())).unwrap_err();
    assert_eq!(denied.message(), "denied");
}

#[test]
fn manifest_entries_are_removed_by_name_or_target() {
    let path = FsPath::new("/m");
    let text = "[[repo]]\nname = \"n\"\nurl = \"u\"\ntarget = \"t\"\n\n[[repo]]\nurl = \"x/z.git\"\n";
    for (name, left) in [("n", "z"), ("t", "z"), ("z", "n")] {
        let mut manifest = Manifest::load(&path, &FileRead::Text(text.to_owned())).unwrap();
        let rest = remove_manifest_entry(&mut manifest, name).unwrap();
        let mut local = StackedConfig::empty();
        local.add_layer(
            jj_lib::config::ConfigLayer::parse(jj_lib::config::ConfigSource::User, &rest).unwrap(),
        );
        let entries = load_entries(&local).unwrap();
        assert_eq!(entries.len(), 1);
        assert_eq!(entries[0].effective_name(), left);
    }
}

#[test]
fn appended_entries_are_read_back() {
    let mut manifest = Manifest::load(&FsPath::new("/m"), &FileRead::Absent).unwrap();
    let full = RepoEntry {
        name: Some("n \"quoted\"".to_owned()),
        url: "u".to_owned(),
        target: Some("t".to_owned()),
        rev: Some("r".to_owned()),
    };
    append_manifest_entry(&mut manifest, &full);
    let text = append_manifest_entry(&mut manifest, &entry("x/y.git"));
    let mut local = StackedConfig::empty();
    local.add_layer(
        jj_lib::config::ConfigLayer::parse(jj_lib::config::ConfigSource::User, &text).unwrap(),
    );
    assert_eq!(
        load_entries(&local).unwrap(),
        vec![full.clone(), entry("x/y.git")]
    );
    assert_eq!(full.clone(), full);
}

/// Texts that TOML has to quote or to escape, one way or another.
const ODD: [&str; 24] = [
    "",
    " ",
    "plain",
    "a.b",
    "a b",
    "#",
    "[x]",
    "=",
    "\"",
    "\"\"",
    "\"\"\"",
    "\"\"\"\"\"\"",
    "'",
    "'''",
    "'\"",
    "x'\"\"",
    "\\",
    "\\'",
    "tab\there",
    "two\nlines\n",
    "\nfirst 'and' \"second\" \\",
    "carriage\r\nreturn",
    "\u{0}\u{1}\u{8}\u{c}\u{1b}\u{7f}\u{85}",
    "\u{feff}h\u{e9}llo \u{1f980}",
];

#[test]
fn manifests_are_read_back_whatever_the_fields() {
    let path = FsPath::new("/m");
    let mut text = FileRead::Absent;
    let mut written: Vec<RepoEntry> = Vec::new();
    for (i, odd) in ODD.iter().enumerate() {
        let other = ODD[ODD.len() - 1 - i].to_owned();
        let new = RepoEntry {
            name: Some(format!("{i}")),
            url: (*odd).to_owned(),
            target: Some(other.clone()),
            rev: Some(format!("{odd}{other}")),
        };
        let mut manifest = Manifest::load(&path, &text).unwrap();
        let content = append_manifest_entry(&mut manifest, &new);
        written.push(new);
        let mut local = StackedConfig::empty();
        local.add_layer(
            jj_lib::config::ConfigLayer::parse(jj_lib::config::ConfigSource::User, &content)
                .unwrap(),
        );
        assert_eq!(load_entries(&local).unwrap(), written);
        text = FileRead::Text(content);
    }
    for i in 0..ODD.len() {
        let mut manifest = Manifest::load(&path, &text).unwrap();
        let content = remove_manifest_entry(&mut manifest, &format!("{i}")).unwrap();
        written.remove(0);
        let mut local = StackedConfig::empty();
        local.add_layer(
            jj_lib::config::ConfigLayer::parse(jj_lib::config::ConfigSource::User, &content)
                .unwrap(),
        );
        assert_eq!(load_entries(&local).unwrap(), written);
        text = FileRead::Text(content);
    }
}

// --- runs --------------------------------------------------------------------

#[test]
fn escaping_targets_are_never_acted_on() {
    let (mut host, _, _) = fixture();
    let mut lock = new_lock();
    for target in ["../out", "/out", "a/../../b"] {
        let mut e = entry(URL);
        e.target = Some(target.to_owned());
        let err = host.apply(&e, &mut lock, false).unwrap_err();
        assert_eq!(
            err.message(),
            format!("target escapes workspace root: {target}")
        );
        assert_eq!(host.doctor(&e, &lock), DoctorStatus::EscapedTarget);
    }
    assert!(host.calls.is_empty());
}

#[test]
fn missing_objects_are_fetched_for_the_checkout() {
    let (mut host, _, _) = fixture();
    let entry = entry(URL);
    let mut lock = new_lock();
    host.apply(&entry, &mut lock, false).unwrap();
    let c4 = commit(4);
    host.remote.commits.insert(c4.clone(), "four".to_owned());
    lock.set_commit("remote", &c4);
    host.calls.clear();
    assert_eq!(
        host.apply(&entry, &mut lock, false).unwrap(),
        ApplyStatus::CheckedOut(c4.clone())
    );
    assert_eq!(
        host.calls,
        vec![
            "status --porcelain".to_owned(),
            format!("checkout --detach --quiet {c4}"),
            format!("fetch --no-tags origin {c4}"),
            "fetch --prune --tags origin".to_owned(),
            format!("checkout --detach --quiet {c4}"),
        ]
    );

    let c5 = commit(5);
    lock.set_commit("remote", &c5);
    let err = host.apply(&entry, &mut lock, false).unwrap_err();
    assert_eq!(
        err.message(),
        "git checkout failed: reference is not a tree"
    );
    host.reachable = false;
    let err = host.apply(&entry, &mut lock, false).unwrap_err();
    assert_eq!(
        err.message(),
        "git fetch failed: could not read from remote"
    );
}

#[test]
fn failed_clones_are_reported_and_taken_back() {
    let (mut host, _, _) = fixture();
    host.reachable = false;
    let entry = entry(URL);
    let mut lock = new_lock();
    let run = host.run(&entry, &mut lock, false);
    let undo = run.rollback();
    assert_eq!(undo.len(), 1);
    assert!(matches!(&undo[0].step, Step::RemoveTree(path) if path.display() == TARGET));
    assert!(!run.had_repository());
    let err = run.outcome().unwrap().unwrap_err();
    assert_eq!(err.message(), "git clone failed: repository not found");
    assert_eq!(lock.commit("remote"), None);
}

#[test]
fn taking_back_restores_an_empty_directory() {
    let (mut host, _, _) = fixture();
    host.world.dir(TARGET);
    host.world.file("/ws/remote2", "beside");
    let before = host.world.clone();
    let mut lock = new_lock();
    let run = host.run(&entry_rev(URL, "no-such"), &mut lock, false);
    host.world.file("/ws/remote/.git", "made by the clone");
    host.copies.clear();
    assert_eq!(host.world.perform(&run.rollback()), None);
    host.world.things.remove("/");
    assert_eq!(host.world, before);
    assert!(matches!(
        run.outcome(),
        Some(Err(RepoError::Resolve(_)))
    ));
}

#[test]
fn repositories_that_were_there_are_never_taken_back() {
    let (mut host, _, _) = fixture();
    let mut lock = new_lock();
    host.apply(&entry(URL), &mut lock, false).unwrap();
    let run = host.run(&entry_rev(URL, "no-such"), &mut lock, true);
    assert!(run.had_repository());
    assert!(run.rollback().is_empty());
}

#[test]
fn stray_replies_change_nothing() {
    let mut lock = new_lock();
    let mut run = repo::apply_one(&FsPath::new(ROOT), &entry(URL), false, false);
    run.resume(RepoReply::Made(None), &mut lock);
    assert!(matches!(run.ask(), Some(RepoAsk::Probe(_))));
    run.resume(RepoReply::Present(false), &mut lock);
    run.resume(
        RepoReply::Spot(Spot::Unreadable("denied".to_owned())),
        &mut lock,
    );
    assert!(run.ask().is_none());
    assert_eq!(
        run.outcome().unwrap().unwrap_err().message(),
        "denied"
    );
}

#[test]
fn progress_is_shown_for_network_calls_only() {
    let mut lock = new_lock();
    let mut run = repo::apply_one(&FsPath::new(ROOT), &entry(URL), false, true);
    run.resume(RepoReply::Present(false), &mut lock);
    run.resume(RepoReply::Spot(Spot::Absent), &mut lock);
    run.resume(RepoReply::Made(None), &mut lock);
    match run.ask() {
        Some(RepoAsk::Git(call)) => {
            assert_eq!(call.label.as_deref(), Some("remote"));
            let rows: Vec<String> = call
                .arguments(true)
                .into_iter()
                .map(|row| String::from_utf8(row).unwrap())
                .collect();
            assert_eq!(
                rows,
                vec![
                    "-c",
                    "advice.detachedHead=false",
                    "-C",
                    "/ws",
                    "clone",
                    "--progress",
                    "--no-checkout",
                    URL,
                    "remote"
                ]
            );
            assert_eq!(call.arguments(false).len(), 8);
        }
        other => panic!("{other:?}"),
    }
}

// --- small parts ---------------------------------------------------------------

#[test]
fn object_ids_are_full_hashes() {
    assert!(is_object_id(&commit(7)));
    assert!(is_object_id(&"F".repeat(40)));
    assert!(is_object_id(&"0aF9".repeat(16)));
    assert!(!is_object_id(&"a".repeat(39)));
    assert!(!is_object_id(&"a".repeat(41)));
    assert!(!is_object_id(&"a".repeat(63)));
    assert!(!is_object_id(&"g".repeat(40)));
    assert!(!is_object_id(&format!("{}\u{e9}", "a".repeat(38))));
    assert!(!is_object_id(""));
    assert!(!is_object_id("main"));
}

#[test]
fn revisions_are_looked_for_in_order() {
    match resolve_local(&Some("v1".to_owned())) {
        Lookup::References(names) => {
            assert_eq!(names, vec!["refs/remotes/origin/v1", "refs/tags/v1"])
        }
        other => panic!("{other:?}"),
    }
    match resolve_local(&None) {
        Lookup::References(names) => assert_eq!(names, vec!["refs/remotes/origin/HEAD"]),
        other => panic!("{other:?}"),
    }
    match resolve_local(&Some(commit(1))) {
        Lookup::Object(id) => assert_eq!(id, commit(1)),
        other => panic!("{other:?}"),
    }
}

#[test]
fn dirty_means_changes_in_the_working_tree() {
    let dirty = |output: &str| is_dirty(&output.as_bytes().to_vec());
    assert!(!dirty(""));
    assert!(dirty("?? new.txt\n"));
    assert!(dirty(" M file.txt\n"));
    assert!(dirty("MM file.txt\n"));
    assert!(!dirty("D  file.txt\nM  other.txt\n"));
    assert!(dirty("D  file.txt\r\n M other.txt"));
    assert!(!dirty("D\n"));
    assert!(dirty("\u{e9}"));
    assert!(is_dirty(&vec![b'D', 0xff]));
}

#[test]
fn repo_outcomes_describe_themselves() {
    let c = "abc".to_owned();
    assert_eq!(ApplyStatus::Cloned(c.clone()).message(), "cloned at abc");
    assert_eq!(
        ApplyStatus::CheckedOut(c.clone()).message(),
        "checked out abc"
    );
    assert_eq!(
        ApplyStatus::AlreadyAt(c.clone()).message(),
        "already at abc"
    );
    assert_eq!(
        ApplyStatus::AlreadyAt(c.clone()).clone(),
        ApplyStatus::AlreadyAt(c.clone())
    );
    let said = |status: DoctorStatus| {
        assert_eq!(status.clone(), status);
        (status.is_ok(), status.message())
    };
    assert_eq!(said(DoctorStatus::Healthy), (true, "ok".to_owned()));
    assert_eq!(said(DoctorStatus::MissingTarget).1, "not materialized");
    assert_eq!(
        said(DoctorStatus::Occupied).1,
        "target is not a git repository"
    );
    assert_eq!(
        said(DoctorStatus::EscapedTarget).1,
        "target escapes workspace root"
    );
    assert_eq!(
        said(DoctorStatus::Diverged {
            at: None,
            locked: c.clone()
        })
        .1,
        "unborn HEAD, locked abc"
    );
    assert_eq!(
        said(DoctorStatus::Diverged {
            at: Some("def".to_owned()),
            locked: c.clone()
        })
        .1,
        "at def, locked abc"
    );
    assert_eq!(
        said(DoctorStatus::Dirty).1,
        "dirty working copy (readonly repo)"
    );
    assert_eq!(
        said(DoctorStatus::ManifestPinned {
            rev: "def".to_owned(),
            locked: c
        })
        .1,
        "manifest pins def, lock has abc (jjn repo update)"
    );
    assert_eq!(
        said(DoctorStatus::MissingLock),
        (false, "no lock entry (jjn repo sync records one)".to_owned())
    );
}

#[test]
fn entries_are_summed_up() {
    assert_eq!(
        entry_summary(&entry("https://x/y/repo.git")),
        "\"repo\" url=https://x/y/repo.git target=repo rev=(floating)"
    );
    let mut full = entry_rev("u", "main");
    full.name = Some("n".to_owned());
    full.target = Some("t".to_owned());
    assert_eq!(entry_summary(&full), "\"n\" url=u target=t rev=main");
}

#[test]
fn all_entries_are_checked_in_order() {
    let (mut host, _, _) = fixture();
    let mut lock = new_lock();
    let mut other = entry("x/other.git");
    other.target = Some("../o".to_owned());
    let entries = vec![entry(URL), other];
    host.apply(&entries[0], &mut lock, false).unwrap();
    let sights: Vec<RepoSight> = entries.iter().map(|entry| host.sight(entry)).collect();
    let report = repo::doctor(&entries, &lock, &sights);
    assert_eq!(report.len(), 2);
    assert_eq!(report[0].entry, entries[0]);
    assert_eq!(report[0].status, DoctorStatus::Healthy);
    assert_eq!(report[1].status, DoctorStatus::EscapedTarget);
    host.copies.clear();
    assert_eq!(host.doctor(&entries[0], &lock), DoctorStatus::Occupied);
}

#[test]
fn collecting_twice_drops_nothing_more() {
    let entries = vec![entry("x/kept.git"), entry("x/also.git")];
    let mut lock = new_lock();
    for name in ["one", "kept", "two", "also", "three"] {
        lock.set_commit(name, &commit(1));
    }
    let mut loaded = RepoLock::load_or_create(&FsPath::new("/l"), &FileRead::Text(lock.save()));
    let lock = loaded.as_mut().unwrap();
    assert!(!lock.is_changed());
    let mut dropped = gc_lock(lock, &entries);
    dropped.sort();
    assert_eq!(dropped, vec!["one", "three", "two"]);
    assert!(lock.is_changed());
    let mut left = lock.names();
    left.sort();
    assert_eq!(left, vec!["also", "kept"]);
    let text = lock.save();
    assert!(gc_lock(lock, &entries).is_empty());
    assert!(!lock.is_changed());
    assert_eq!(lock.save(), text);
}

#[test]
fn hand_edited_manifests_are_read_again() {
    let before = "\
# ours
repos.secondary = \"skip\" # dotted
trusted = [ 1, 2.5, # odd ones
]

[[repo]] # the first
url = 'x/a.git'
  # inside
rev = \"main\"

[[link]]
source = \"s\"
target = \"t\"
";
    let path = FsPath::new("/m");
    let mut manifest = Manifest::load(&path, &FileRead::Text(before.to_owned())).unwrap();
    let text = append_manifest_entry(&mut manifest, &entry("x/b.git"));
    for kept in ["# ours", "# dotted", "# odd ones", "# the first", "# inside"] {
        assert!(text.contains(kept), "kept: {text}");
    }
    let names = |text: &str| {
        let mut local = StackedConfig::empty();
        local.add_layer(
            jj_lib::config::ConfigLayer::parse(jj_lib::config::ConfigSource::User, text).unwrap(),
        );
        load_entries(&local)
            .unwrap()
            .iter()
            .map(|entry| entry.effective_name())
            .collect::<Vec<_>>()
    };
    assert_eq!(names(&text), vec!["a", "b"]);
    let mut manifest = Manifest::load(&path, &FileRead::Text(text)).unwrap();
    let text = remove_manifest_entry(&mut manifest, "a").unwrap();
    assert_eq!(names(&text), vec!["b"]);
}

#[test]
fn tables_inside_entries_can_get_in_the_way() {
    // the tables of an entry may be written behind a new entry, which then has
    // them; the manifest holds what it should, its text does not
    let before = "\
[[repo]]
url = \"u\"
[repo.name.x]
k = 1
[repo.b]
k = 1
[repo.name.y]
k = 2
";
    let path = FsPath::new("/m");
    let mut manifest = Manifest::load(&path, &FileRead::Text(before.to_owned())).unwrap();
    assert!(manifest.can_edit());
    let mut new = entry("v");
    new.name = Some("n".to_owned());
    let text = append_manifest_entry(&mut manifest, &new);
    assert!(Manifest::load(&path, &FileRead::Text(text)).is_err());
    assert!(remove_manifest_entry(&mut manifest, "n").is_some());
    // without such tables the entry is read again
    let plain = "[[repo]]\nurl = \"u\"\n[other.name.x]\nk = 1\n[other]\nk = 1\n";
    let mut manifest = Manifest::load(&path, &FileRead::Text(plain.to_owned())).unwrap();
    let text = append_manifest_entry(&mut manifest, &new);
    let mut manifest = Manifest::load(&path, &FileRead::Text(text)).unwrap();
    assert!(remove_manifest_entry(&mut manifest, "n").is_some());
    assert!(remove_manifest_entry(&mut manifest, "u").is_some());
    assert!(remove_manifest_entry(&mut manifest, "u").is_none());
}
