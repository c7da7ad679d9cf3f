//! What `git` says while it works.

use jjunction::repo::parse_progress_line;
use jjunction::repo::progress::show_line;
use jjunction::repo::progress::stderr_tail;
use jjunction::repo::progress::tail_after_percent;
use jjunction::repo::progress::BarUpdate;
use jjunction::repo::progress::Relay;

#[test]
fn parses_git_progress_lines() {
    let p =
        parse_progress_line("Receiving objects:  45% (900/2000), 12.30 MiB | 5.67 MiB/s").unwrap();
    assert_eq!(p.phase, "Receiving objects");
    assert_eq!((p.pos, p.len), (900, 2000));
    assert!(p.detail.contains("5.67 MiB/s"));

    // remote-prefixed, done-suffixed
    let p = parse_progress_line("remote: Counting objects: 100% (10/10), done.").unwrap();
    assert_eq!(p.phase, "Counting objects");
    assert_eq!((p.pos, p.len), (10, 10));

    // percent without counts
    let p = parse_progress_line("Resolving deltas:  75%").unwrap();
    assert_eq!((p.pos, p.len), (75, 100));

    // informational lines are not progress
    assert!(parse_progress_line("Cloning into 'deps/NavDP'...").is_none());
    assert!(parse_progress_line("").is_none());
}

#[test]
fn odd_progress_lines_are_read_to_the_letter() {
    let p = parse_progress_line("  remote: A: +5% (1 / 2)").unwrap();
    assert_eq!(p.phase, "A");
    assert_eq!((p.pos, p.len), (1, 2));
    assert_eq!(p.detail, "+5% (1 / 2)");
    assert_eq!(p.clone(), p);
    // a bad count is no progress, parentheses in the wrong order are no count
    assert!(parse_progress_line("A: 5% (1/x)").is_none());
    assert!(parse_progress_line("A: 5% (12)").is_none());
    let p = parse_progress_line("A: 5% )(").unwrap();
    assert_eq!((p.pos, p.len), (5, 100));
    assert!(parse_progress_line("A: -5%").is_none());
    assert!(parse_progress_line("A: %").is_none());
    assert!(parse_progress_line("A 5%").is_none());
    assert!(parse_progress_line("A: 18446744073709551616%").is_none());
    let most = parse_progress_line("A: 18446744073709551615%").unwrap();
    assert_eq!(most.pos, u64::MAX);
    assert_eq!(parse_progress_line(" B: 1%").unwrap().phase, " B");
}

#[test]
fn rates_stand_behind_the_first_comma() {
    assert_eq!(
        tail_after_percent("45% (900/2000), 12.30 MiB | 5.67 MiB/s"),
        ", 12.30 MiB | 5.67 MiB/s"
    );
    assert_eq!(tail_after_percent("75%"), "");
}

#[test]
fn lines_move_the_bar() {
    assert_eq!(
        show_line(false, "A:  45% (900/2000), 1 MiB/s"),
        BarUpdate::Progress {
            restyle: true,
            len: 2000,
            pos: 900,
            message: "A, 1 MiB/s".to_owned()
        }
    );
    assert_eq!(
        show_line(true, "A: 300%"),
        BarUpdate::Progress {
            restyle: false,
            len: 100,
            pos: 100,
            message: "A".to_owned()
        }
    );
    assert_eq!(
        show_line(true, "done"),
        BarUpdate::Message {
            restyle: true,
            message: "done".to_owned()
        }
    );
}

const OUTPUT: &[u8] = b"Cloning into 'x'...\nA:  1% (1/100)\rA: 100% (100/100), done.\r\n\n  \nfatal: gone  \nlast";

#[test]
fn output_is_relayed_line_by_line() {
    let mut relay = Relay::new();
    let updates = relay.feed(OUTPUT);
    assert_eq!(updates.len(), 4);
    assert_eq!(
        updates[0],
        BarUpdate::Message {
            restyle: false,
            message: "Cloning into 'x'...".to_owned()
        }
    );
    assert!(matches!(
        &updates[1],
        BarUpdate::Progress { restyle: true, pos: 1, len: 100, .. }
    ));
    assert!(matches!(
        &updates[2],
        BarUpdate::Progress { restyle: false, pos: 100, len: 100, message } if message == "A, done."
    ));
    assert_eq!(
        updates[3],
        BarUpdate::Message {
            restyle: true,
            message: "fatal: gone".to_owned()
        }
    );
    relay.finish();
    assert_eq!(
        relay.tail(),
        "Cloning into 'x'...\nA:  1% (1/100)\nA: 100% (100/100), done.\nfatal: gone\nlast"
    );
}

#[test]
fn chunks_do_not_matter() {
    let mut whole = Relay::new();
    let all = whole.feed(OUTPUT);
    for size in [1, 2, 3, 7] {
        let mut relay = Relay::new();
        let mut updates = vec![];
        for chunk in OUTPUT.chunks(size) {
            updates.extend(relay.feed(chunk));
        }
        assert_eq!(updates, all);
        assert_eq!(relay.tail(), whole.tail());
    }
}

#[test]
fn complaints_end_with_five_lines() {
    let mut relay = Relay::new();
    relay.feed(b"1\n2\n3\n4\n5\n6\n7\n");
    relay.finish();
    assert_eq!(relay.tail(), "3\n4\n5\n6\n7");
    assert_eq!(Relay::new().tail(), "");
}

#[test]
fn complaints_are_cut_to_their_end() {
    assert_eq!(stderr_tail(b"  fatal: x\n"), "  fatal: x\n");
    let long = format!("{}{}", "a".repeat(10), "b".repeat(300));
    assert_eq!(stderr_tail(long.as_bytes()), "b".repeat(300));
    assert_eq!(stderr_tail(&[b'a', 0xff, b'b']), "a\u{fffd}b");
    let wide = "\u{e9}".repeat(301);
    assert_eq!(stderr_tail(wide.as_bytes()), "\u{e9}".repeat(300));
}
