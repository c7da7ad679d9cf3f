//! Texts and paths.

use jjunction::ancestors;
use jjunction::find_workspace_root;
use jjunction::order::at_or_before;
use jjunction::order::sorted;
use jjunction::path::target_within_root;
use jjunction::path::FsPath;
use jjunction::text;
use jjunction::MarkSight;
use jjunction::Standing;
use std::path::Component;
use std::path::Path;

#[test]
fn white_space_is_what_the_standard_says() {
    for n in 0..=0x10ffffu32 {
        if let Some(c) = char::from_u32(n) {
            assert_eq!(text::is_white(c), c.is_whitespace(), "{n:x}");
        }
    }
}

#[test]
fn texts_are_trimmed_and_searched() {
    for sample in ["", " ", "a", " a b ", "\u{2003}x\u{a0}", "\t\n", "aab"] {
        assert_eq!(text::trimmed(sample), sample.trim());
        for needle in ["", "a", "ab", " ", "b "] {
            assert_eq!(text::contains(sample, needle), sample.contains(needle));
            assert_eq!(
                text::starts_with(sample, needle),
                sample.starts_with(needle)
            );
            assert_eq!(
                text::strip_prefix(sample, needle).as_deref(),
                sample.strip_prefix(needle)
            );
        }
    }
    let parts = vec!["a".to_owned(), "".to_owned(), "b".to_owned()];
    assert_eq!(text::join(&parts, ", "), parts.join(", "));
    assert_eq!(text::join(&vec![], ", "), "");
    assert!(text::contains_text(&parts, "b"));
    assert!(!text::contains_text(&parts, "c"));
}

#[test]
fn numbers_are_written_in_decimal() {
    for n in [0, 7, 10, 99, 100, 18446744073709551615] {
        assert_eq!(text::render(n), n.to_string());
    }
    for n in [0, -1, 42, i64::MIN, i64::MAX] {
        assert_eq!(text::render_signed(n), n.to_string());
    }
}

#[test]
fn texts_are_ordered_as_strings_are() {
    let samples = ["", "a", "ab", "b", "A", "\u{e9}", "\u{ffff}", "\u{10000}"];
    for a in samples {
        for b in samples {
            assert_eq!(at_or_before(a, b), a <= b, "{a:?} {b:?}");
        }
    }
    let list: Vec<String> = samples.iter().map(|text| text.to_string()).collect();
    let mut expected = list.clone();
    expected.sort();
    assert_eq!(sorted(&list), expected);
}

const PATHS: [&str; 24] = [
    "", ".", "..", "/", "//", "a", "a/", "a/b", "a//b", "a/./b", "./a", "a/.", "/a", "/a/", "/a/b/",
    "/.", "./", "a/..", "../a", "/..", ".//a", "a/b/.", "./.", "//a//",
];

#[test]
fn paths_compare_and_split_as_the_standard_has_it() {
    for a in PATHS {
        let path = FsPath::new(a);
        assert_eq!(path.display(), a);
        assert_eq!(path.is_absolute(), Path::new(a).is_absolute());
        assert_eq!(
            path.parent().map(|above| above.display()),
            Path::new(a)
                .parent()
                .map(|above| above.to_str().unwrap().to_owned()),
            "{a:?}"
        );
        for b in PATHS {
            assert_eq!(
                path.same_as(&FsPath::new(b)),
                Path::new(a) == Path::new(b),
                "{a:?} {b:?}"
            );
            assert_eq!(
                path.join(b).display(),
                Path::new(a).join(b).to_str().unwrap(),
                "{a:?} {b:?}"
            );
        }
    }
}

#[test]
fn targets_stay_below_the_root() {
    for a in PATHS {
        let path = Path::new(a);
        let expected = path.is_relative()
            && !path
                .components()
                .any(|c| matches!(c, Component::ParentDir | Component::RootDir));
        assert_eq!(target_within_root(a), expected, "{a:?}");
        assert_eq!(FsPath::new(a).stays_within(), expected, "{a:?}");
    }
    assert!(target_within_root("a/..b/c.."));
}

#[test]
fn paths_that_are_no_text_are_shown_anyway() {
    let path = FsPath::from_bytes(vec![b'/', 0xff, b'a']);
    assert_eq!(path.display(), "/\u{fffd}a");
    assert_eq!(path.as_bytes(), &vec![b'/', 0xff, b'a']);
    assert_eq!(path.clone(), path);
    assert_ne!(path.display().into_bytes(), path.clone_bytes());
}

#[test]
fn ancestors_go_up_to_the_root() {
    for a in PATHS {
        let up: Vec<String> = ancestors(&FsPath::new(a))
            .iter()
            .map(|path| path.display())
            .collect();
        let expected: Vec<String> = Path::new(a)
            .ancestors()
            .map(|path| path.to_str().unwrap().to_owned())
            .collect();
        assert_eq!(up, expected);
    }
}

#[test]
fn the_nearest_marked_directory_is_the_root() {
    let none = MarkSight {
        jj: Standing::Nothing,
        jjunction: Standing::Nothing,
    };
    let jj = MarkSight {
        jj: Standing::Directory,
        ..none
    };
    let own = MarkSight {
        jjunction: Standing::Directory,
        ..none
    };
    let files = MarkSight {
        jj: Standing::Other,
        jjunction: Standing::Other,
    };
    let start = FsPath::new("/a/b/c");
    let found = |sights: [MarkSight; 4]| {
        find_workspace_root(&start, &sights).map(|root| root.display())
    };
    assert_eq!(found([none, none, none, none]), None);
    assert_eq!(found([none, jj, own, none]).as_deref(), Some("/a/b"));
    assert_eq!(found([none, none, own, jj]).as_deref(), Some("/a"));
    assert_eq!(found([own, none, none, none]).as_deref(), Some("/a/b/c"));
    assert_eq!(found([none, none, none, jj]).as_deref(), Some("/"));
    // Only a directory marks a root.
    assert_eq!(found([files, files, jj, none]).as_deref(), Some("/a"));
    assert_eq!(found([files, files, files, files]), None);
}

#[test]
fn paths_compare_by_their_parts() {
    assert_eq!(FsPath::new("/a//b/./c/"), FsPath::new("/a/b/c"));
    assert_eq!(FsPath::new("a/."), FsPath::new("a"));
    assert_ne!(FsPath::new("./a"), FsPath::new("a"));
    assert_ne!(FsPath::new("/a/../b"), FsPath::new("/b"));
    assert_ne!(FsPath::new("/a"), FsPath::new("a"));
}
