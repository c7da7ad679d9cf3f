//! The lock file.

use jjunction::files::FileRead;
use jjunction::files::Step;
use jjunction::lock::save_if_changed;
use jjunction::lock::LockError;
use jjunction::lock::RepoLock;
use jjunction::path::FsPath;

fn commit(n: usize) -> String {
    format!("{n:040x}")
}

fn load(file: FileRead) -> Result<RepoLock, LockError> {
    RepoLock::load_or_create(&FsPath::new("/ws/.jjunction/lock.toml"), &file)
}

fn load_text(text: &str) -> Result<RepoLock, LockError> {
    load(FileRead::Text(text.to_owned()))
}

const TWO_REPOS: &str = "\
version = 1

[repo.alpha]
commit = \"0000000000000000000000000000000000000001\"

[repo.beta]
commit = \"0000000000000000000000000000000000000002\"
";

#[test]
fn new_file_gets_version() {
    let mut lock = load(FileRead::Absent).unwrap();
    lock.set_commit("alpha", &commit(1));

    let text = lock.save();
    assert_eq!(
        text,
        format!("version = 1\n\n[repo.alpha]\ncommit = \"{}\"\n", commit(1))
    );
}

#[test]
fn updating_one_repo_changes_only_that_line() {
    let mut lock = load_text(TWO_REPOS).unwrap();
    lock.set_commit("beta", &commit(3));

    let text = lock.save();
    assert_eq!(
        text,
        TWO_REPOS.replace(&commit(2), &commit(3)),
        "diff must be exactly the beta commit line"
    );
}

#[test]
fn setting_the_same_commit_is_a_noop() {
    let mut lock = load_text(TWO_REPOS).unwrap();
    lock.set_commit("alpha", &commit(1));
    assert!(!lock.is_changed());
    assert_eq!(lock.save(), TWO_REPOS);
}

#[test]
fn appending_keeps_existing_lines_byte_identical() {
    let mut lock = load_text(TWO_REPOS).unwrap();
    lock.set_commit("gamma", &commit(9));

    let text = lock.save();
    assert!(text.starts_with(TWO_REPOS), "existing entries untouched");
    assert!(text.contains(&format!("[repo.gamma]\ncommit = \"{}\"", commit(9))));
}

#[test]
fn remove_drops_the_entry() {
    let mut lock = load_text(TWO_REPOS).unwrap();
    assert!(lock.remove("alpha"));
    assert!(!lock.remove("absent"));
    assert_eq!(lock.commit("alpha"), None);

    let text = lock.save();
    assert!(!text.contains("alpha"));
    assert!(text.contains("beta"));
}

#[test]
fn rejects_unsupported_version() {
    assert!(matches!(
        load_text("version = 99\n"),
        Err(LockError::UnsupportedVersion(99))
    ));
    assert_eq!(
        load_text("version = -3\n").unwrap_err().message(),
        "lock file version -3 is not supported (expected 1)"
    );
}

#[test]
fn rejects_entries_without_version() {
    let refused = load_text("[repo.alpha]\ncommit = \"0000000000000000000000000000000000000001\"\n");
    assert!(matches!(refused, Err(LockError::MissingVersion)));
    assert_eq!(
        refused.unwrap_err().message(),
        "lock file has entries but no version"
    );
}

#[test]
fn empty_file_is_accepted() {
    assert!(load_text("").is_ok());
}

#[test]
fn an_accepted_file_without_version_gets_one() {
    let mut lock = load_text("").unwrap();
    assert!(!lock.is_changed());
    lock.set_commit("alpha", &commit(1));
    assert_eq!(
        lock.save(),
        format!("version = 1\n\n[repo.alpha]\ncommit = \"{}\"\n", commit(1))
    );
}

#[test]
fn a_first_write_is_sorted_by_name_and_later_ones_append() {
    let mut lock = load(FileRead::Absent).unwrap();
    lock.set_commit("zeta", &commit(1));
    lock.set_commit("alpha", &commit(2));
    lock.set_commit("mid", &commit(3));
    assert_eq!(lock.names(), vec!["zeta", "alpha", "mid"]);
    let text = lock.save();
    assert_eq!(
        text,
        format!(
            "version = 1\n\n[repo.alpha]\ncommit = \"{}\"\n\n[repo.mid]\ncommit = \"{}\"\n\n[repo.zeta]\ncommit = \"{}\"\n",
            commit(2),
            commit(3),
            commit(1)
        )
    );
    let mut lock = load_text(&text).unwrap();
    lock.set_commit("beta", &commit(4));
    assert_eq!(
        lock.save(),
        format!("{text}\n[repo.beta]\ncommit = \"{}\"\n", commit(4))
    );
}

#[test]
fn recording_is_read_back() {
    let mut lock = load(FileRead::Absent).unwrap();
    assert!(lock.is_changed());
    assert!(lock.can_record());
    assert_eq!(lock.path().display(), "/ws/.jjunction/lock.toml");
    lock.set_commit("a b", &commit(7));
    assert_eq!(lock.commit("a b"), Some(commit(7).as_str()));
    assert_eq!(lock.commit("a"), None);
    let read = load_text(&lock.save()).unwrap();
    assert_eq!(read.commit("a b"), Some(commit(7).as_str()));
    assert!(!read.is_changed());
}

#[test]
fn bad_files_are_refused() {
    let parse = load_text("version = \n").unwrap_err();
    assert!(matches!(parse, LockError::Parse { .. }));
    assert!(parse
        .message()
        .starts_with("invalid lock file /ws/.jjunction/lock.toml: TOML parse error"));
    let io = load(FileRead::Unreadable("denied".to_owned())).unwrap_err();
    assert_eq!(io.message(), "denied");
    assert_eq!(
        LockError::BadEntry("alpha".to_owned()).message(),
        "lock entry repo.alpha lacks a commit string"
    );
    // what is no table under `repo` cannot be recorded into
    let odd = load_text("version = 1\nrepo = 3\n").unwrap();
    assert!(!odd.can_record());
    assert_eq!(odd.commit("alpha"), None);
    assert!(odd.names().is_empty());
}

/// Texts that TOML has to quote or to escape, one way or another.
const ODD: [&str; 24] = [
    "",
    " ",
    "plain",
    "a.b",
    "a b",
    "#",
    "[x]",
    "=",
    "\"",
    "\"\"",
    "\"\"\"",
    "\"\"\"\"\"\"",
    "'",
    "'''",
    "'\"",
    "x'\"\"",
    "\\",
    "\\'",
    "tab\there",
    "two\nlines\n",
    "\nfirst 'and' \"second\" \\",
    "carriage\r\nreturn",
    "\u{0}\u{1}\u{8}\u{c}\u{1b}\u{7f}\u{85}",
    "\u{feff}h\u{e9}llo \u{1f980}",
];

#[test]
fn saved_locks_are_loaded_as_they_were() {
    let mut lock = load(FileRead::Absent).unwrap();
    for name in ODD {
        for text in ODD {
            lock.set_commit(name, text);
            let mut copy = load_text(&lock.save()).unwrap();
            assert_eq!(copy.commit(name), Some(text));
            // Edited and saved once more.
            copy.set_commit("one more", text);
            assert!(copy.remove(name));
            let again = load_text(&copy.save()).unwrap();
            assert_eq!(again.commit("one more"), Some(text));
            assert_eq!(again.commit(name), None);
        }
    }
    let all = load_text(&lock.save()).unwrap();
    for name in ODD {
        assert_eq!(all.commit(name), lock.commit(name));
    }
    assert_eq!(all.names().len(), ODD.len());
}

#[test]
fn locks_without_entries_are_loaded_as_they_were() {
    let mut lock = load(FileRead::Absent).unwrap();
    lock.set_commit("alpha", &commit(1));
    let mut lock = load_text(&lock.save()).unwrap();
    assert!(lock.remove("alpha"));
    let text = lock.save();
    assert_eq!(text, "version = 1\n");
    assert!(load_text(&text).unwrap().names().is_empty());
}

#[test]
fn saving_is_once_for_each_change() {
    let mut lock = load_text(TWO_REPOS).unwrap();
    assert!(save_if_changed(&mut lock).is_empty());

    lock.set_commit("beta", &commit(3));
    assert!(lock.is_changed());
    let deeds = save_if_changed(&mut lock);
    assert_eq!(deeds.len(), 1);
    assert!(deeds[0].required);
    match &deeds[0].step {
        Step::Write { path, content } => {
            assert_eq!(path.display(), "/ws/.jjunction/lock.toml");
            assert_eq!(content, &TWO_REPOS.replace(&commit(2), &commit(3)));
        }
        other => panic!("no write: {other:?}"),
    }
    assert!(!lock.is_changed());
    assert!(save_if_changed(&mut lock).is_empty());

    // the same goes for saving as such
    assert!(lock.remove("alpha"));
    assert!(lock.is_changed());
    lock.save();
    assert!(!lock.is_changed());
    let mut fresh = load(FileRead::Absent).unwrap();
    assert!(fresh.is_changed());
    fresh.save();
    assert!(!fresh.is_changed());
}

#[test]
fn empty_files_are_recorded_into() {
    for text in ["", "\n", "# nothing yet\n"] {
        let mut lock = load_text(text).unwrap();
        assert!(lock.names().is_empty());
        lock.set_commit("alpha", &commit(1));
        let saved = lock.save();
        assert!(saved.contains(text.trim()));
        let again = load_text(&saved).unwrap();
        assert_eq!(again.names(), vec!["alpha"]);
        assert_eq!(again.commit("alpha"), Some(commit(1).as_str()));
        assert!(!again.is_changed());
    }
}

#[test]
fn hand_edited_locks_are_read_again() {
    let before = "\
# by hand
version = 1 # the only one

repo.dotted.commit = 'd1'
repo.\"odd name\" = { commit = \"o1\", note = [ 1, 2, # two
] }

[other]
when = 1979-05-27T07:32:00Z
ratio = 0.5
";
    let mut lock = load_text(before).unwrap();
    assert_eq!(lock.commit("dotted"), Some("d1"));
    // an inline table is no entry
    assert_eq!(lock.commit("odd name"), None);
    lock.set_commit("dotted", "d2");
    lock.set_commit("new", "n1");
    let saved = lock.save();
    assert!(saved.starts_with("# by hand\nversion = 1 # the only one\n"));
    assert!(saved.contains("commit = \"o1\""));
    let mut again = load_text(&saved).unwrap();
    assert_eq!(again.commit("dotted"), Some("d2"));
    assert_eq!(again.commit("new"), Some("n1"));
    assert!(again.remove("dotted"));
    let last = load_text(&again.save()).unwrap();
    assert_eq!(last.commit("dotted"), None);
    assert_eq!(last.commit("new"), Some("n1"));
}

#[test]
fn locks_with_tables_as_deep_as_can_be_are_read_again() {
    let row = |n: usize| (0..n).map(|i| format!("k{i}")).collect::<Vec<_>>().join(".");
    let deep = format!(
        "version = 1\nrepo.a.{} = 1\n[other.{}]\n{} = \"deepest\"\n[repo.b.{}]\nx = 1\n",
        row(78),
        row(79),
        row(80),
        row(78)
    );
    let mut lock = load_text(&deep).unwrap();
    lock.set_commit("a", &commit(1));
    lock.set_commit("b", &commit(2));
    lock.set_commit("c", &commit(3));
    let text = lock.save();
    assert!(text.contains("deepest"));
    let mut again = load_text(&text).unwrap();
    for (name, n) in [("a", 1), ("b", 2), ("c", 3)] {
        assert_eq!(again.commit(name), Some(commit(n).as_str()));
    }
    assert!(again.remove("b"));
    let last = load_text(&again.save()).unwrap();
    assert_eq!(last.commit("a"), Some(commit(1).as_str()));
    assert_eq!(last.commit("b"), None);
    // one key more is refused from the start
    assert!(load_text(&format!("version = 1\n[{}]\n", row(81))).is_err());
    assert!(load_text(&format!("version = 1\n{} = 1\n", row(81))).is_err());
}
