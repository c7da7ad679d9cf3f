//! `[[link]]` entries.

use jj_lib::config::StackedConfig;
use jjunction::files::Deed;
use jjunction::files::Site;
use jjunction::files::Step;
use jjunction::link;
use jjunction::link::apply_at_home;
use jjunction::link::conclude;
use jjunction::link::diagnose;
use jjunction::link::link_to_check;
use jjunction::link::load_entries;
use jjunction::link::locate_source;
use jjunction::link::resolve_source;
use jjunction::link::ApplyStatus;
use jjunction::link::DoctorStatus;
use jjunction::link::LinkEntry;
use jjunction::link::LinkError;
use jjunction::link::LinkSight;
use jjunction::link::LinkType;
use jjunction::path::FsPath;
use std::collections::BTreeMap;

#[derive(Debug, Clone, PartialEq)]
enum Thing {
    Dir,
    File(String),
    Link(String),
}

/// A filesystem in memory.
#[derive(Debug, Clone, PartialEq)]
struct World {
    things: BTreeMap<String, Thing>,
}

impl World {
    fn new() -> World {
        World {
            things: BTreeMap::new(),
        }
    }

    fn dir(&mut self, path: &str) {
        self.things.insert(path.to_owned(), Thing::Dir);
    }

    fn file(&mut self, path: &str, content: &str) {
        self.things
            .insert(path.to_owned(), Thing::File(content.to_owned()));
    }

    fn link(&mut self, to: &str, path: &str) {
        self.things
            .insert(path.to_owned(), Thing::Link(to.to_owned()));
    }

    fn read_link(&self, path: &str) -> Option<String> {
        match self.things.get(path) {
            Some(Thing::Link(to)) => Some(to.clone()),
            _ => None,
        }
    }

    fn is_there(&self, path: &str) -> bool {
        match self.things.get(path) {
            Some(Thing::Link(to)) => self.is_there(to),
            Some(_) => true,
            None => false,
        }
    }

    fn site(&self, path: &FsPath) -> Site {
        match self.things.get(&path.display()) {
            None => Site::Absent,
            Some(Thing::Dir) => Site::Directory,
            Some(Thing::File(_)) => Site::File,
            Some(Thing::Link(to)) => Site::Link(FsPath::new(to)),
        }
    }

    fn step(&mut self, step: &Step) -> Result<(), String> {
        match step {
            Step::RemoveFile(path) => match self.things.get(&path.display()) {
                None => Err("not found".to_owned()),
                Some(Thing::Dir) => Err("is a directory".to_owned()),
                Some(_) => {
                    self.things.remove(&path.display());
                    Ok(())
                }
            },
            Step::RemoveTree(path) => {
                let top = path.display();
                let below = format!("{top}/");
                self.things
                    .retain(|at, _| at != &top && !at.starts_with(&below));
                Ok(())
            }
            Step::MakeDirs(path) => {
                let mut at = Some(path.clone());
                while let Some(dir) = at {
                    if let Some(Thing::File(_)) = self.things.get(&dir.display()) {
                        return Err("not a directory".to_owned());
                    }
                    self.things.entry(dir.display()).or_insert(Thing::Dir);
                    at = dir.parent();
                }
                Ok(())
            }
            Step::Symlink { source, at } => {
                if self.things.contains_key(&at.display()) {
                    return Err("file exists".to_owned());
                }
                self.link(&source.display(), &at.display());
                Ok(())
            }
            Step::Write { path, content } => {
                self.file(&path.display(), content);
                Ok(())
            }
        }
    }

    /// Performs a plan; gives the message of the required change that failed.
    fn perform(&mut self, deeds: &[Deed]) -> Option<String> {
        for deed in deeds {
            if let Err(message) = self.step(&deed.step) {
                if deed.required {
                    return Some(message);
                }
            }
        }
        None
    }
}

const ROOT: &str = "/ws";

fn entry(source: &str, target: &str) -> LinkEntry {
    LinkEntry {
        source: source.to_owned(),
        target: target.to_owned(),
        link_type: LinkType::Link,
    }
}

fn apply_one(world: &mut World, entry: &LinkEntry, force: bool) -> Result<ApplyStatus, LinkError> {
    let root = FsPath::new(ROOT);
    let site = match link_to_check(&root, entry) {
        Some(link) => world.site(&link),
        None => Site::Absent,
    };
    let plan = link::apply_one(&root, entry, force, &site)?;
    let failure = world.perform(&plan.deeds);
    conclude(&plan, failure)
}

fn sight(world: &World, entry: &LinkEntry) -> LinkSight {
    let root = FsPath::new(ROOT);
    LinkSight {
        source: world.is_there(&locate_source(&root, &entry.source).display()),
        site: match link_to_check(&root, entry) {
            Some(link) => world.site(&link),
            None => Site::Absent,
        },
    }
}

#[test]
fn apply_creates_and_is_idempotent() {
    let mut world = World::new();
    world.dir("/ws/assets");
    world.file("/ws/assets/a.txt", "hi");

    let e = entry("assets/a.txt", "links/a");

    assert_eq!(
        apply_one(&mut world, &e, false).unwrap(),
        ApplyStatus::Created
    );
    assert_eq!(
        world.read_link("/ws/links/a").unwrap(),
        "/ws/assets/a.txt"
    );
    assert_eq!(
        apply_one(&mut world, &e, false).unwrap(),
        ApplyStatus::AlreadyLinked
    );
}

#[test]
fn apply_reports_mismatch_and_force_fixes() {
    let mut world = World::new();
    world.file("/ws/a.txt", "a");
    world.file("/ws/b.txt", "b");
    world.dir("/ws/links");
    world.link("/ws/b.txt", "/ws/links/a");

    let e = entry("a.txt", "links/a");
    assert!(matches!(
        apply_one(&mut world, &e, false),
        Err(LinkError::Mismatch { .. })
    ));
    assert_eq!(
        apply_one(&mut world, &e, true).unwrap(),
        ApplyStatus::Created
    );
    assert_eq!(world.read_link("/ws/links/a").unwrap(), "/ws/a.txt");
}

#[test]
fn link_apply_refuses_occupied_paths() {
    let mut world = World::new();
    world.file("/ws/a.txt", "a");
    world.dir("/ws/links");
    world.file("/ws/links/a", "real file");

    let e = entry("a.txt", "links/a");
    assert!(matches!(
        apply_one(&mut world, &e, false),
        Err(LinkError::Occupied(_))
    ));
    // force replaces a regular file
    assert_eq!(
        apply_one(&mut world, &e, true).unwrap(),
        ApplyStatus::Created
    );

    // but never a real directory
    world.dir("/ws/links/dir");
    let e2 = entry("a.txt", "links/dir");
    assert!(matches!(
        apply_one(&mut world, &e2, true),
        Err(LinkError::Occupied(_))
    ));
}

#[test]
fn apply_rejects_escaping_target() {
    let mut world = World::new();
    let e = entry("a.txt", "../outside");
    assert!(matches!(
        apply_one(&mut world, &e, false),
        Err(LinkError::EscapedTarget(_))
    ));
    assert_eq!(world, World::new());
    for target in ["/etc/passwd", "a/../b", ".."] {
        assert!(matches!(
            apply_one(&mut world, &entry("a.txt", target), true),
            Err(LinkError::EscapedTarget(_))
        ));
    }
}

#[test]
fn link_doctor_reports_each_status() {
    let mut world = World::new();
    world.file("/ws/a.txt", "a");
    world.file("/ws/b.txt", "b");

    // ok
    apply_one(&mut world, &entry("a.txt", "ok-link"), false).unwrap();
    // missing source (link may even exist)
    // missing link
    // not a link
    world.dir("/ws/occupied");
    world.file("/ws/occupied/x", "real");
    // wrong target
    world.dir("/ws/d");
    world.link("/ws/b.txt", "/ws/d/wrong");

    let entries = vec![
        entry("a.txt", "ok-link"),
        entry("absent.txt", "missing-source"),
        entry("a.txt", "missing-link"),
        entry("a.txt", "occupied"),
        entry("a.txt", "d/wrong"),
        entry("a.txt", "../escape"),
    ];
    let sights: Vec<LinkSight> = entries.iter().map(|entry| sight(&world, entry)).collect();
    let results: Vec<_> = link::doctor(&FsPath::new(ROOT), &entries, &sights)
        .into_iter()
        .map(|d| d.status)
        .collect();

    assert_eq!(
        results,
        vec![
            DoctorStatus::Healthy,
            DoctorStatus::MissingSource,
            DoctorStatus::MissingLink,
            DoctorStatus::NotALink,
            DoctorStatus::WrongTarget {
                expected: FsPath::new("/ws/a.txt"),
                found: FsPath::new("/ws/b.txt")
            },
            DoctorStatus::EscapedTarget,
        ]
    );
    assert_eq!(results.clone(), results);
    let said: Vec<String> = results.iter().map(|status| status.message()).collect();
    assert_eq!(
        said,
        vec![
            "ok",
            "missing source",
            "missing link",
            "not a link",
            "points to /ws/b.txt instead of /ws/a.txt",
            "target escapes workspace root"
        ]
    );
    assert!(results[0].is_ok());
    assert!(!results[1].is_ok());
}

#[test]
fn load_entries_parses_link_tables() {
    let mut local = StackedConfig::empty();
    local.add_layer(
        jj_lib::config::ConfigLayer::parse(
            jj_lib::config::ConfigSource::Repo,
            r#"
                [[link]]
                source = "assets/a"
                target = "links/a"
                type = "link"

                [[link]]
                source = "~/dot/vimrc"
                target = ".vimrc"
                type = "link"
                "#,
        )
        .unwrap(),
    );

    let entries = load_entries(&local).unwrap();
    assert_eq!(entries.len(), 2);
    assert_eq!(entries[0].source, "assets/a");
    assert_eq!(entries[1].target, ".vimrc");
    assert_eq!(entries[1].source, "~/dot/vimrc");
}

#[test]
fn load_entries_rejects_unknown_type() {
    let mut local = StackedConfig::empty();
    local.add_layer(
        jj_lib::config::ConfigLayer::parse(
            jj_lib::config::ConfigSource::Repo,
            r#"
                [[link]]
                source = "a"
                target = "b"
                type = "copy"
                "#,
        )
        .unwrap(),
    );
    assert!(load_entries(&local).is_err());
}

#[test]
fn load_entries_empty_when_absent() {
    let local = StackedConfig::empty();
    assert!(load_entries(&local).unwrap().is_empty());
}

#[test]
fn link_tables_need_all_their_fields_and_no_other() {
    for text in [
        "[[link]]\nsource = \"a\"\ntarget = \"b\"\n",
        "[[link]]\nsource = \"a\"\ntype = \"link\"\n",
        "[[link]]\ntarget = \"b\"\ntype = \"link\"\n",
        "[[link]]\nsource = \"a\"\ntarget = \"b\"\ntype = \"link\"\nmode = 1\n",
        "[[link]]\nsource = 1\ntarget = \"b\"\ntype = \"link\"\n",
        "[link]\nsource = \"a\"\ntarget = \"b\"\ntype = \"link\"\n",
    ] {
        let mut local = StackedConfig::empty();
        local.add_layer(
            jj_lib::config::ConfigLayer::parse(jj_lib::config::ConfigSource::User, text).unwrap(),
        );
        let refused = load_entries(&local);
        assert!(refused.is_err(), "{text}");
        assert_eq!(
            refused.unwrap_err().message(),
            "Invalid type or value for link"
        );
    }
}

#[test]
fn sources_resolve_against_home_and_root() {
    let root = FsPath::new(ROOT);
    let home = Some(FsPath::new("/home/u"));
    assert_eq!(
        resolve_source(&root, &home, "~/dot/vimrc").display(),
        "/home/u/dot/vimrc"
    );
    assert_eq!(resolve_source(&root, &None, "~/dot").display(), "/dot");
    assert_eq!(resolve_source(&root, &home, "/abs").display(), "/abs");
    assert_eq!(resolve_source(&root, &home, "a/b").display(), "/ws/a/b");
    assert_eq!(resolve_source(&root, &home, "~x").display(), "/ws/~x");
    let expected = match dirs::home_dir() {
        Some(home) => format!("{}/x", home.display()),
        None => "/x".to_owned(),
    };
    assert_eq!(locate_source(&root, "~/x").display(), expected);
}

#[test]
fn links_into_the_home_directory_are_kept() {
    let root = FsPath::new(ROOT);
    let home = Some(FsPath::new("/home/u"));
    let e = entry("~/dot", "dot");
    let site = Site::Link(FsPath::new("/home/u/dot"));
    let plan = apply_at_home(&root, &home, &e, false, &site).unwrap();
    assert_eq!(plan.status, ApplyStatus::AlreadyLinked);
    let seen = LinkSight { source: true, site };
    assert_eq!(
        diagnose(&root, &home, &e, &seen),
        DoctorStatus::Healthy
    );
}

#[test]
fn unreadable_links_are_errors() {
    let root = FsPath::new(ROOT);
    let e = entry("a", "b");
    for site in [
        Site::BadLink("broken".to_owned()),
        Site::Unreadable("broken".to_owned()),
    ] {
        let err = link::apply_one(&root, &e, true, &site).unwrap_err();
        assert_eq!(err.message(), "broken");
    }
}

#[test]
fn failing_changes_fail_the_entry() {
    let mut world = World::new();
    world.file("/ws/links", "in the way");
    let err = apply_one(&mut world, &entry("a", "links/a"), false).unwrap_err();
    assert_eq!(err.message(), "not a directory");
}

#[test]
fn link_outcomes_describe_themselves() {
    assert_eq!(ApplyStatus::Created.message(), "created");
    assert_eq!(ApplyStatus::AlreadyLinked.message(), "already linked");
    let occupied = LinkError::Occupied(FsPath::new("/ws/a")).message();
    assert!(occupied.contains("/ws/a"));
    let mismatch = LinkError::Mismatch {
        expected: FsPath::new("/ws/a"),
        found: FsPath::new("/ws/b"),
    };
    assert!(mismatch.message().contains("/ws/a"));
    assert!(mismatch.message().contains("/ws/b"));
    assert_eq!(
        LinkError::EscapedTarget("../x".to_owned()).message(),
        "target escapes workspace root: ../x"
    );
}
