use std::time::Duration;

use fastpaste::item::HistoryPosition;
use fastpaste::devices::PasteKeys;
use fastpaste::paste_keys::{
    ctrl_v_frames, events_accepted, next_frame, rejected_release, release_frames, KeyFrame, NullPasteKeys,
    PasteKeyError, SendStep, WindowsPasteKeys, KEY_LEFTCTRL, KEY_V,
};
use fastpaste::secret_store::{
    delete_result, read_result, write_result, KeyringReply, KeyringSecretStore, NullSecretStore,
    Secret, SecretStore, SecretStoreError, UnavailableSecretStore,
};
use fastpaste::take_once::TakeOnceChannel;
use fastpaste::uinput::{NullUinputCtrlV, UinputCtrlV};

fn secret(text: &str) -> Secret {
    Secret::new(text.to_string())
}

#[test]
fn the_null_store_round_trips_a_secret() {
    let mut store = NullSecretStore::new();
    assert!(store.is_available());
    assert!(store.get("db").unwrap().is_none(), "empty to start with");

    store.set("db", &secret("s3cret")).unwrap();
    assert_eq!(store.get("db").unwrap().unwrap().expose_secret(), "s3cret");

    store.delete("db").unwrap();
    assert!(store.get("db").unwrap().is_none(), "delete must clear it");
}

#[test]
fn a_secret_is_replaced_and_other_accounts_are_not_touched() {
    let mut store = NullSecretStore::default();
    store.set("a", &secret("one")).unwrap();
    store.set("b", &secret("two")).unwrap();
    store.set("a", &secret("three")).unwrap();
    assert_eq!(store.get("a").unwrap().unwrap().expose_secret(), "three");
    assert_eq!(store.get("b").unwrap().unwrap().expose_secret(), "two");
    store.delete("a").unwrap();
    assert!(store.get("a").unwrap().is_none());
    assert_eq!(store.get("b").unwrap().unwrap().expose_secret(), "two");
}

#[test]
fn deleting_a_secret_that_is_not_there_is_not_an_error() {
    let mut store = NullSecretStore::new();
    store.delete("db").unwrap();
}

#[test]
fn the_unavailable_store_reports_itself_and_fails_every_operation() {
    let mut store = UnavailableSecretStore;
    assert!(!store.is_available());
    assert!(store.get("db").is_err());
    assert!(store.set("db", &secret("x")).is_err());
    assert!(store.delete("db").is_err());
    assert_eq!(
        store.delete("db"),
        Err(SecretStoreError::Unavailable(
            "no credential store on this session".to_string()
        ))
    );
}

#[test]
fn only_a_working_store_is_remembered() {
    let mut store = KeyringSecretStore::new();
    assert!(store.must_probe());
    assert!(!store.note_probe(Some(KeyringReply::NoStorageAccess("locked".to_string()))));
    assert!(!store.note_probe(Some(KeyringReply::PlatformFailure("gone".to_string()))));
    assert!(!store.note_probe(None));
    assert!(store.must_probe(), "a store that does not answer is asked again");
    assert!(store.note_probe(Some(KeyringReply::NoEntry)));
    assert!(!store.must_probe());
    assert!(store.note_probe(None), "and one that did answer is not forgotten");
}

#[test]
fn a_missing_entry_is_no_failure() {
    assert!(matches!(read_result(KeyringReply::NoEntry), Ok(None)));
    assert_eq!(delete_result(KeyringReply::NoEntry), Ok(()));
    assert_eq!(delete_result(KeyringReply::Done(String::new())), Ok(()));
    let read = read_result(KeyringReply::Done("s3cret".to_string()));
    assert_eq!(read.ok().flatten().unwrap().expose_secret(), "s3cret");
}

#[test]
fn failures_of_the_store_keep_their_words() {
    let why = || KeyringReply::Other("broken".to_string());
    let failed = SecretStoreError::Backend("broken".to_string());
    assert_eq!(write_result(why()), Err(SecretStoreError::Backend("broken".to_string())));
    assert_eq!(delete_result(why()), Err(failed));
    assert!(read_result(why()).is_err());
    assert!(write_result(KeyringReply::NoEntry).is_err());
}

#[test]
fn first_take_receives() {
    let mut ch: TakeOnceChannel<u32> = TakeOnceChannel::new();
    ch.sender().send(7).unwrap();
    let rx = ch.take();
    assert_eq!(rx.recv(), Ok(7));
}

#[test]
fn second_take_is_disconnected_not_merely_silent() {
    let mut ch: TakeOnceChannel<u32> = TakeOnceChannel::new();
    let _first = ch.take();
    let second = ch.take();
    ch.sender().send(1).unwrap();
    assert_eq!(
        second.recv_timeout(Duration::from_millis(20)),
        Err(std::sync::mpsc::RecvTimeoutError::Disconnected),
        "the later receiver must be disconnected, not just quiet"
    );
}

#[test]
fn try_take_reports_the_second_attempt() {
    let mut ch: TakeOnceChannel<u32> = TakeOnceChannel::new();
    assert!(ch.try_take().is_some());
    assert!(ch.try_take().is_none());
}

#[test]
fn cloned_senders_keep_channel_alive() {
    let mut ch: TakeOnceChannel<&'static str> = TakeOnceChannel::new();
    let worker_tx = ch.sender();
    let rx = ch.take();
    drop(ch);
    worker_tx.send("x").unwrap();
    assert_eq!(rx.recv(), Ok("x"));
}

#[test]
fn paste_keys_null_reports_unavailable_and_no_ops() {
    let mut n = NullPasteKeys::new();
    assert!(!n.available());
    n.send_ctrl_v().unwrap();
}

#[test]
fn uinput_null_reports_unavailable_and_no_ops() {
    let mut n = NullUinputCtrlV;
    assert!(!n.available());
    n.send_ctrl_v().unwrap();
}

fn frame(key: u16, press: bool) -> KeyFrame {
    KeyFrame { key, press }
}

#[test]
fn paste_keys_ctrl_v_frames_press_and_release_in_order() {
    let frames = ctrl_v_frames();
    assert_eq!(KEY_LEFTCTRL, evdev::KeyCode::KEY_LEFTCTRL.0);
    assert_eq!(KEY_V, evdev::KeyCode::KEY_V.0);
    assert_eq!(
        frames,
        [
            frame(KEY_LEFTCTRL, true),
            frame(KEY_V, true),
            frame(KEY_V, false),
            frame(KEY_LEFTCTRL, false),
        ]
    );

    let pos = |needle: KeyFrame| frames.iter().position(|f| *f == needle).unwrap();
    assert!(pos(frame(KEY_LEFTCTRL, true)) < pos(frame(KEY_V, true)));
    assert!(pos(frame(KEY_V, false)) < pos(frame(KEY_LEFTCTRL, false)));
}

#[test]
fn uinput_ctrl_v_frames_press_and_release_in_order() {
    let frames = ctrl_v_frames();
    assert_eq!(
        frames,
        [
            frame(evdev::KeyCode::KEY_LEFTCTRL.0, true),
            frame(evdev::KeyCode::KEY_V.0, true),
            frame(evdev::KeyCode::KEY_V.0, false),
            frame(evdev::KeyCode::KEY_LEFTCTRL.0, false),
        ]
    );
}

#[test]
fn paste_keys_every_pressed_key_is_released() {
    let frames = ctrl_v_frames();
    for key in [KEY_LEFTCTRL, KEY_V] {
        let presses = frames.iter().filter(|f| f.key == key && f.press).count();
        let releases = frames.iter().filter(|f| f.key == key && !f.press).count();
        assert_eq!(presses, releases, "{key:?} must not be left held");
    }
}

#[test]
fn uinput_every_pressed_key_is_released() {
    let frames = ctrl_v_frames();
    for key in [evdev::KeyCode::KEY_LEFTCTRL.0, evdev::KeyCode::KEY_V.0] {
        let presses = frames.iter().filter(|f| f.key == key && f.press).count();
        let releases = frames.iter().filter(|f| f.key == key && !f.press).count();
        assert_eq!(presses, releases, "{key:?} must not be left held");
    }
}

#[test]
fn paste_keys_frames_only_use_declared_keys() {
    for f in ctrl_v_frames() {
        assert!(
            f.key == KEY_LEFTCTRL || f.key == KEY_V,
            "{f:?} is not in the device's declared capability set"
        );
    }
}

#[test]
fn uinput_frames_only_use_declared_keys() {
    for f in ctrl_v_frames() {
        assert!(
            f.key == evdev::KeyCode::KEY_LEFTCTRL.0 || f.key == evdev::KeyCode::KEY_V.0,
            "{f:?} is not in the device's declared capability set"
        );
    }
}

#[test]
fn a_failed_frame_is_followed_by_the_releases() {
    assert_eq!(
        next_frame(0, false),
        SendStep::Emit {
            frame: frame(KEY_LEFTCTRL, true),
            pause_before: false,
        }
    );
    assert_eq!(
        next_frame(3, false),
        SendStep::Emit {
            frame: frame(KEY_LEFTCTRL, false),
            pause_before: true,
        }
    );
    assert_eq!(next_frame(4, false), SendStep::Done);
    assert_eq!(next_frame(2, true), SendStep::Release);
    assert_eq!(
        release_frames(),
        [frame(KEY_V, false), frame(KEY_LEFTCTRL, false)]
    );
}

#[test]
fn a_system_that_takes_fewer_events_than_sent_has_failed() {
    assert_eq!(events_accepted(4, 4), Ok(()));
    assert_eq!(
        events_accepted(3, 4),
        Err(PasteKeyError::Rejected {
            sent: 3,
            expected: 4,
        })
    );
    assert!(WindowsPasteKeys::new().is_ok());
}

#[test]
fn history_position_serde_round_trips_lowercase() {
    assert_eq!(
        serde_json::to_string(HistoryPosition::Top.as_word()).unwrap(),
        r#""top""#
    );
    assert_eq!(
        serde_json::to_string(HistoryPosition::Bottom.as_word()).unwrap(),
        r#""bottom""#
    );
    let read = |text: &str| HistoryPosition::from_word(&serde_json::from_str::<String>(text).unwrap());
    assert_eq!(read(r#""top""#), HistoryPosition::Top);
    assert_eq!(read(r#""bottom""#), HistoryPosition::Bottom);
}

#[test]
fn history_position_unknown_value_falls_back_to_bottom() {
    let word = serde_json::from_str::<String>(r#""middle""#).unwrap();
    assert_eq!(HistoryPosition::from_word(&word), HistoryPosition::Bottom);
}

#[test]
fn only_the_first_of_many_attempts_gets_the_receiver() {
    let mut ch: TakeOnceChannel<u32> = TakeOnceChannel::default();
    let early = ch.sender();
    let rx = ch.try_take().unwrap();
    for _ in 0..5 {
        assert!(ch.try_take().is_none());
    }
    let late = ch.sender();
    early.send(1).unwrap();
    late.send(2).unwrap();
    assert_eq!((rx.recv(), rx.recv()), (Ok(1), Ok(2)), "it gets what any sender sends");
}

#[test]
fn a_wiped_secret_holds_nothing() {
    let mut s = secret("hunter2");
    assert_eq!(s.expose_secret(), "hunter2");
    s.zeroize();
    assert_eq!(s.expose_secret(), "");
}

#[test]
fn after_a_rejected_keystroke_ctrl_is_released() {
    assert_eq!(rejected_release(), vec![KeyFrame { key: KEY_LEFTCTRL, press: false }]);
}
