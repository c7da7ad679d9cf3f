//! Sub-repos in secondary workspaces.

use jjunction::files::Deed;
use jjunction::files::Site;
use jjunction::files::Step;
use jjunction::path::FsPath;
use jjunction::repo::check_secondary;
use jjunction::repo::link_secondary;
use jjunction::repo::secondary::SecondarySight;
use jjunction::repo::RepoEntry;
use jjunction::repo::SecondaryStatus;
use std::collections::BTreeMap;

#[derive(Debug, Clone, PartialEq)]
enum Thing {
    Dir,
    File(String),
    Link(String),
}

/// A filesystem in memory.
#[derive(Debug, Clone, PartialEq)]
struct World {
    things: BTreeMap<String, Thing>,
}

impl World {
    fn new() -> World {
        World {
            things: BTreeMap::new(),
        }
    }

    fn dir(&mut self, path: &str) {
        self.things.insert(path.to_owned(), Thing::Dir);
    }

    fn file(&mut self, path: &str, content: &str) {
        self.things
            .insert(path.to_owned(), Thing::File(content.to_owned()));
    }

    fn link(&mut self, to: &str, path: &str) {
        self.things
            .insert(path.to_owned(), Thing::Link(to.to_owned()));
    }

    fn read_link(&self, path: &str) -> Option<String> {
        match self.things.get(path) {
            Some(Thing::Link(to)) => Some(to.clone()),
            _ => None,
        }
    }

    fn is_there(&self, path: &str) -> bool {
        match self.things.get(path) {
            Some(Thing::Link(to)) => self.is_there(to),
            Some(_) => true,
            None => false,
        }
    }

    fn site(&self, path: &FsPath) -> Site {
        match self.things.get(&path.display()) {
            None => Site::Absent,
            Some(Thing::Dir) => Site::Directory,
            Some(Thing::File(_)) => Site::File,
            Some(Thing::Link(to)) => Site::Link(FsPath::new(to)),
        }
    }

    fn step(&mut self, step: &Step) -> Result<(), String> {
        match step {
            Step::RemoveFile(path) => match self.things.get(&path.display()) {
                None => Err("not found".to_owned()),
                Some(Thing::Dir) => Err("is a directory".to_owned()),
                Some(_) => {
                    self.things.remove(&path.display());
                    Ok(())
                }
            },
            Step::RemoveTree(path) => {
                let top = path.display();
                let below = format!("{top}/");
                self.things
                    .retain(|at, _| at != &top && !at.starts_with(&below));
                Ok(())
            }
            Step::MakeDirs(path) => {
                let mut at = Some(path.clone());
                while let Some(dir) = at {
                    if let Some(Thing::File(_)) = self.things.get(&dir.display()) {
                        return Err("not a directory".to_owned());
                    }
                    self.things.entry(dir.display()).or_insert(Thing::Dir);
                    at = dir.parent();
                }
                Ok(())
            }
            Step::Symlink { source, at } => {
                if self.things.contains_key(&at.display()) {
                    return Err("file exists".to_owned());
                }
                self.link(&source.display(), &at.display());
                Ok(())
            }
            Step::Write { path, content } => {
                self.file(&path.display(), content);
                Ok(())
            }
        }
    }

    /// Performs a plan; gives the message of the required change that failed.
    fn perform(&mut self, deeds: &[Deed]) -> Option<String> {
        for deed in deeds {
            if let Err(message) = self.step(&deed.step) {
                if deed.required {
                    return Some(message);
                }
            }
        }
        None
    }
}

const MAIN: &str = "/w/main";
const OTHER: &str = "/w/other";

fn entries() -> Vec<RepoEntry> {
    ["lib", "tool"]
        .iter()
        .map(|name| RepoEntry {
            name: None,
            url: format!("https://x/{name}.git"),
            target: Some(format!("deps/{name}")),
            rev: None,
        })
        .collect()
}

fn setup() -> World {
    let mut world = World::new();
    world.dir(MAIN);
    world.dir(OTHER);
    world.dir("/w/main/deps/lib/.git");
    world.dir("/w/main/deps/tool/.git");
    world
}

fn link(world: &mut World, force: bool) -> Vec<(String, SecondaryStatus)> {
    let mut run = link_secondary(&FsPath::new(MAIN), &FsPath::new(OTHER), &entries(), force);
    while let Some((git, at)) = run.ask() {
        let sight = SecondarySight {
            source_git: world.is_there(&git.display()),
            site: world.site(&at),
        };
        let plan = run.plan(&sight).unwrap();
        let failed = world.perform(&plan.deeds).is_some();
        run.resume(plan, failed);
    }
    run.report()
}

fn check(world: &World) -> Vec<(String, SecondaryStatus)> {
    let sights: Vec<SecondarySight> = ["lib", "tool"]
        .iter()
        .map(|name| SecondarySight {
            source_git: world.is_there(&format!("{MAIN}/deps/{name}/.git")),
            site: world.site(&FsPath::new(&format!("{OTHER}/deps/{name}"))),
        })
        .collect();
    check_secondary(
        &FsPath::new(MAIN),
        &FsPath::new(OTHER),
        &entries(),
        &sights,
    )
}

#[test]
fn secondary_workspaces_link_to_the_default_one() {
    let mut world = setup();
    assert_eq!(
        check(&world),
        vec![
            ("lib".to_owned(), SecondaryStatus::MissingLink),
            ("tool".to_owned(), SecondaryStatus::MissingLink)
        ]
    );
    assert_eq!(
        link(&mut world, false),
        vec![
            ("lib".to_owned(), SecondaryStatus::Linked),
            ("tool".to_owned(), SecondaryStatus::Linked)
        ]
    );
    assert_eq!(
        world.read_link("/w/other/deps/lib").unwrap(),
        "/w/main/deps/lib"
    );
    let linked = world.clone();
    assert_eq!(link(&mut world, true)[0].1, SecondaryStatus::AlreadyLinked);
    assert_eq!(world, linked);
    assert!(check(&world).iter().all(|(_, status)| status.is_ok()));
}

#[test]
fn dangling_links_are_never_made() {
    let mut world = setup();
    world.things.remove("/w/main/deps/lib/.git");
    let report = link(&mut world, true);
    assert_eq!(report[0].1, SecondaryStatus::DefaultMissing);
    assert_eq!(report[1].1, SecondaryStatus::Linked);
    assert!(!world.things.contains_key("/w/other/deps/lib"));
}

#[test]
fn nothing_real_is_replaced() {
    let mut world = setup();
    world.dir("/w/other/deps/lib");
    world.file("/w/other/deps/tool", "mine");
    let before = world.clone();
    let report = link(&mut world, true);
    assert_eq!(
        report[0].1,
        SecondaryStatus::Occupied(FsPath::new("/w/other/deps/lib"))
    );
    assert_eq!(
        report[1].1.message(),
        "occupied by a real path: /w/other/deps/tool"
    );
    assert_eq!(world, before);
}

#[test]
fn wrong_links_are_replaced_with_force_only() {
    let mut world = setup();
    world.link("/w/elsewhere", "/w/other/deps/lib");
    let report = link(&mut world, false);
    assert_eq!(
        report[0].1,
        SecondaryStatus::WrongTarget {
            expected: FsPath::new("/w/main/deps/lib"),
            found: FsPath::new("/w/elsewhere")
        }
    );
    assert_eq!(
        report[0].1.message(),
        "points to /w/elsewhere instead of /w/main/deps/lib"
    );
    assert_eq!(check(&world)[0].1, report[0].1);
    assert_eq!(link(&mut world, true)[0].1, SecondaryStatus::Linked);
    assert_eq!(
        world.read_link("/w/other/deps/lib").unwrap(),
        "/w/main/deps/lib"
    );
}

#[test]
fn failing_links_are_missing() {
    let mut run = link_secondary(&FsPath::new(MAIN), &FsPath::new(OTHER), &entries(), false);
    let sight = SecondarySight {
        source_git: true,
        site: Site::Absent,
    };
    let plan = run.plan(&sight).unwrap();
    run.resume(plan, true);
    let sight = SecondarySight {
        source_git: true,
        site: Site::Unreadable("denied".to_owned()),
    };
    let plan = run.plan(&sight).unwrap();
    assert!(plan.deeds.is_empty());
    run.resume(plan, false);
    assert!(run.ask().is_none());
    assert!(run.plan(&sight).is_none());
    let report = run.report();
    assert_eq!(report[0].1, SecondaryStatus::MissingLink);
    assert_eq!(report[1].1, SecondaryStatus::MissingLink);
    assert_eq!(report[1].1.message(), "missing link");
}

#[test]
fn secondary_outcomes_describe_themselves() {
    assert_eq!(SecondaryStatus::Linked.message(), "linked");
    assert_eq!(SecondaryStatus::AlreadyLinked.message(), "already linked");
    assert_eq!(
        SecondaryStatus::DefaultMissing.message(),
        "default workspace has not materialized this repo"
    );
    assert!(!SecondaryStatus::Linked.is_ok());
    let occupied = SecondaryStatus::Occupied(FsPath::new("/a"));
    assert_eq!(occupied.clone(), occupied);
}

#[test]
fn linking_twice_changes_nothing_the_second_time() {
    for (force, again) in [(false, false), (false, true), (true, false), (true, true)] {
        let mut world = setup();
        // one that is in place, spelled otherwise, and one that leads elsewhere
        world.link("/w/main//deps/lib/.", "/w/other/deps/lib");
        world.link("/w/elsewhere", "/w/other/deps/tool");
        let first = link(&mut world, force);
        assert_eq!(first[0].1, SecondaryStatus::AlreadyLinked);
        assert_eq!(first[1].1 == SecondaryStatus::Linked, force);
        let between = world.clone();
        let second = link(&mut world, again);
        assert_eq!(second[0].1, SecondaryStatus::AlreadyLinked);
        assert_eq!(
            second.iter().map(|line| line.0.as_str()).collect::<Vec<_>>(),
            vec!["lib", "tool"]
        );
        assert_eq!(
            world.read_link("/w/other/deps/lib"),
            between.read_link("/w/other/deps/lib")
        );
        if force {
            assert_eq!(second[1].1, SecondaryStatus::AlreadyLinked);
            assert_eq!(
                world.read_link("/w/other/deps/tool").unwrap(),
                "/w/main/deps/tool"
            );
            assert_eq!(world, between);
        }
    }
}

#[test]
fn linking_does_what_checking_said() {
    let mut worlds = vec![setup()];
    let mut world = setup();
    world.link("/w/elsewhere", "/w/other/deps/lib");
    worlds.push(world);
    let mut world = setup();
    world.link("/w/main/deps/tool", "/w/other/deps/tool");
    world.things.remove("/w/main/deps/lib/.git");
    worlds.push(world);
    let mut world = setup();
    world.dir("/w/other/deps/lib");
    worlds.push(world);
    for world in worlds {
        let said = check(&world);
        let done = link(&mut world.clone(), false);
        assert_eq!(said.len(), done.len());
        for (said, done) in said.iter().zip(&done) {
            assert_eq!(said.0, done.0);
            assert_ne!(said.1, SecondaryStatus::Linked);
            match said.1 {
                SecondaryStatus::MissingLink => assert_eq!(done.1, SecondaryStatus::Linked),
                _ => assert_eq!(said.1, done.1),
            }
        }
    }
}
