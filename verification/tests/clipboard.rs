use std::time::Duration;

use fastpaste::clipboard::{
    choose_mime, read_text, ChangeFilter, ClipboardPayload, NullClipboard, SuppressList,
    TransferResult, SUPPRESS_TTL_NS,
};
use fastpaste::devices::Clipboard;

#[test]
fn null_clipboard_round_trips() {
    let mut clip = NullClipboard::new();
    clip.set_text("hello").unwrap();
    assert_eq!(clip.last_set_text(), Some("hello".to_string()));
    assert_eq!(clip.text().unwrap(), "hello");
}

#[test]
fn null_clipboard_default_empty() {
    let mut clip = NullClipboard::new();
    assert_eq!(clip.text().unwrap(), "");
}

#[test]
fn null_clipboard_changes_is_silent() {
    let mut clip = NullClipboard::new();
    let rx = clip.changes();
    if let Ok(p) = rx.recv_timeout(Duration::from_millis(50)) {
        panic!("NullClipboard changes() unexpectedly delivered: {p:?}");
    }
}

#[test]
fn null_clipboard_suppress_is_no_op() {
    let mut clip = NullClipboard::new();
    clip.suppress_text("payload");
    clip.set_text("x").unwrap();
    assert_eq!(clip.text().unwrap(), "x");
}

#[test]
fn suppression_matches_by_content() {
    let mut s = SuppressList::default();
    s.arm("payload");
    assert!(
        !s.take("something the user copied"),
        "a foreign copy is reported"
    );
    assert!(s.take("payload"), "our own write is swallowed");
    assert!(!s.take("payload"), "and only once");
}

#[test]
fn suppression_handles_the_full_paste_pair() {
    let mut s = SuppressList::default();
    s.arm("snippet text");
    s.arm("what the user had before");
    assert!(s.take("snippet text"));
    assert!(s.take("what the user had before"));
    assert_eq!(s.armed_count(), 0);
}

#[test]
fn an_unobserved_announcement_does_not_eat_a_later_copy() {
    let mut s = SuppressList::default();
    s.arm("payload");
    s.arm("snapshot");
    assert!(!s.take("a completely different thing the user copied"));
    assert!(!s.take("and another"));
}

#[test]
fn identical_writes_need_one_arm_each() {
    let mut s = SuppressList::default();
    s.arm("same");
    s.arm("same");
    assert!(s.take("same"));
    assert!(s.take("same"));
    assert!(!s.take("same"));
}

#[test]
fn expired_announcements_are_dropped() {
    let mut s = SuppressList::default();
    s.arm_at("stale", 0);
    assert_eq!(
        s.armed_count_at(SUPPRESS_TTL_NS + 1),
        0,
        "expiry is enforced on inspection"
    );
    assert!(
        !s.take_at("stale", SUPPRESS_TTL_NS + 1),
        "and an expired entry never suppresses"
    );
}

#[test]
fn an_announcement_lasts_its_whole_time() {
    let mut s = SuppressList::default();
    s.arm_at("fresh", 0);
    assert_eq!(s.armed_count_at(SUPPRESS_TTL_NS - 1), 1);
    assert!(s.take_at("fresh", SUPPRESS_TTL_NS - 1));
    s.arm_at("on time", 0);
    assert!(s.take_at("on time", SUPPRESS_TTL_NS - 1), "up to the last nanosecond");
    s.arm_at("on time", 0);
    assert!(!s.take_at("on time", SUPPRESS_TTL_NS), "the last moment is out");
}

#[test]
fn payload_equality_is_structural() {
    let a = ClipboardPayload {
        text: "x".to_string(),
        source_process: String::new(),
    };
    let b = ClipboardPayload {
        text: "x".to_string(),
        source_process: String::new(),
    };
    let c = ClipboardPayload {
        text: "y".to_string(),
        source_process: String::new(),
    };
    assert_eq!(a, b);
    assert_ne!(a, c);
}

#[test]
fn an_own_write_is_not_reported_and_the_next_copy_is() {
    let mut f = ChangeFilter::new();
    f.announce_at("mine", 0);
    assert!(f.on_selection_at(Some("mine".to_string()), 5).is_none());
    let reported = f.on_selection_at(Some("theirs".to_string()), 6).unwrap();
    assert_eq!(reported.text, "theirs");
    assert_eq!(reported.source_process, "");
    assert!(
        f.on_selection_at(Some("theirs".to_string()), 7).is_none(),
        "a text that was just seen is not reported again"
    );
}

#[test]
fn polling_seeds_itself_with_what_is_there() {
    let mut f = ChangeFilter::seeded(Some("old".to_string()));
    assert!(f.on_poll_at(Some("old".to_string()), 0).is_none());
    assert_eq!(
        f.on_poll_at(Some("new".to_string()), 1).map(|p| p.text),
        Some("new".to_string())
    );
    assert!(f.on_poll_at(None, 2).is_none());
}

#[test]
fn a_selection_is_read_as_the_best_text_it_offers() {
    let offered = vec!["image/png".to_string(), "text/plain".to_string()];
    assert_eq!(choose_mime(&offered), Some("text/plain"));
    let richer = vec![
        "text/plain".to_string(),
        "text/plain;charset=utf-8".to_string(),
    ];
    assert_eq!(choose_mime(&richer), Some("text/plain;charset=utf-8"));
    assert_eq!(choose_mime(&["image/png".to_string()]), None);
}

#[test]
fn bytes_that_are_no_text_are_replaced_not_dropped() {
    let read = read_text(TransferResult::Complete(vec![b'a', 0xff, b'b']));
    assert_eq!(read, Some("a\u{fffd}b".to_string()));
}

#[test]
fn the_changes_of_no_clipboard_end_at_once() {
    let mut clipboard = NullClipboard::new();
    for _ in 0..2 {
        assert_eq!(clipboard.changes().recv().err(), Some(std::sync::mpsc::RecvError));
    }
}
