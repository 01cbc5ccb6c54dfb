use std::sync::mpsc::Receiver;

use fastpaste::clipboard::{ClipboardError, ClipboardPayload, NullClipboard};
use fastpaste::clipboard_history::ClipboardHistory;
use fastpaste::context::{AppContext, StartupError, StartupProbe};
use fastpaste::crypto::EncryptionState;
use fastpaste::database::Database;
use fastpaste::devices::{CallLog, Clipboard, PasteKeys};
use fastpaste::error::DataError;
use fastpaste::hotkey::NullGlobalHotkey;
use fastpaste::item::Item;
use fastpaste::paste_keys::PasteKeyError;
use fastpaste::paster::{PasteError, PasteGate, Paster};
use fastpaste::secret_store::NullSecretStore;
use fastpaste::settings::Settings;

/// A clipboard and a keyboard that record what they are asked, and fail when told to.
struct Device {
    inner: NullClipboard,
    announced: Vec<String>,
    writes: Vec<String>,
    pauses: Vec<u64>,
    keystrokes: u32,
    available: bool,
    fail_keys: bool,
    fail_read: bool,
    empty_read: bool,
    fail_write: bool,
}

impl Device {
    fn new(available: bool) -> Self {
        Device {
            inner: NullClipboard::new(),
            announced: Vec::new(),
            writes: Vec::new(),
            pauses: Vec::new(),
            keystrokes: 0,
            available,
            fail_keys: false,
            fail_read: false,
            empty_read: false,
            fail_write: false,
        }
    }

    fn failing() -> Self {
        Device {
            fail_keys: true,
            ..Device::new(true)
        }
    }

    fn holding(mut self, text: &str) -> Self {
        self.inner.set_text(text).unwrap();
        self
    }

    fn held(&self) -> String {
        self.inner.last_set_text().unwrap_or_default()
    }
}

impl CallLog for Device {}

impl Clipboard for Device {
    fn set_text(&mut self, text: &str) -> Result<(), ClipboardError> {
        if self.fail_write {
            return Err(ClipboardError::Access("refused".to_string()));
        }
        self.writes.push(text.to_owned());
        self.inner.set_text(text)
    }

    fn text(&mut self) -> Result<String, ClipboardError> {
        if self.fail_read {
            return Err(ClipboardError::Access("no owner".to_string()));
        }
        if self.empty_read {
            return Err(ClipboardError::Empty);
        }
        self.inner.text()
    }

    fn changes(&mut self) -> Receiver<ClipboardPayload> {
        self.inner.changes()
    }

    fn suppress_text(&mut self, text: &str) {
        self.announced.push(text.to_owned());
    }
}

impl PasteKeys for Device {
    fn available(&mut self) -> bool {
        self.available
    }

    fn settle(&mut self, delay_ms: u64) {
        self.pauses.push(delay_ms);
    }

    fn send_ctrl_v(&mut self) -> Result<(), PasteKeyError> {
        self.keystrokes += 1;
        if self.fail_keys {
            return Err(PasteKeyError::Poisoned);
        }
        Ok(())
    }
}

#[test]
fn paste_sets_clipboard_then_emits_ctrl_v() {
    let mut paster = Paster::new(Device::new(true).holding("orig"), 0, true);
    paster.paste_text("payload").unwrap();
    assert_eq!(
        paster.device().keystrokes,
        1,
        "send_ctrl_v must fire exactly once"
    );
    assert_eq!(paster.device().held(), "orig");
}

#[test]
fn paste_without_restore_leaves_payload_on_clipboard() {
    let mut paster = Paster::new(Device::new(true), 0, false);
    paster.paste_text("payload").unwrap();
    assert_eq!(paster.device().held(), "payload");
    assert_eq!(paster.device().keystrokes, 1);
}

#[test]
fn paste_with_unavailable_uinput_skips_ctrl_v_and_warns() {
    let mut paster = Paster::new(Device::new(false), 0, false);
    paster.paste_text("payload").unwrap();
    assert_eq!(
        paster.device().keystrokes,
        0,
        "must NOT fire send_ctrl_v when unavailable"
    );
    assert_eq!(
        paster.device().held(),
        "payload",
        "payload must still be on clipboard for manual Ctrl+V"
    );
}

#[test]
fn every_write_is_announced_and_nothing_else_is() {
    let mut paster = Paster::new(Device::new(true).holding("orig"), 0, true);
    paster.paste_text("payload").unwrap();
    assert_eq!(paster.device().writes, vec!["payload", "orig"]);
    assert_eq!(
        paster.device().announced,
        paster.device().writes,
        "announcements must correspond exactly to writes"
    );
}

#[test]
fn without_restore_only_the_payload_is_announced() {
    let mut paster = Paster::new(Device::new(true), 0, false);
    paster.paste_text("payload").unwrap();
    assert_eq!(paster.device().writes, vec!["payload"]);
    assert_eq!(paster.device().announced, vec!["payload"]);
}

#[test]
fn an_unreadable_clipboard_does_not_over_announce() {
    let device = Device {
        fail_read: true,
        ..Device::new(true)
    };
    let mut paster = Paster::new(device, 0, true);
    paster.paste_text("payload").unwrap();
    assert_eq!(paster.device().writes, vec!["payload"], "nothing to restore");
    assert_eq!(
        paster.device().announced,
        vec!["payload"],
        "and nothing over-announced"
    );
}

#[test]
fn an_empty_clipboard_is_not_treated_as_a_failure() {
    let device = Device {
        empty_read: true,
        ..Device::new(true)
    };
    let mut paster = Paster::new(device, 0, true);
    paster
        .paste_text("payload")
        .expect("an empty clipboard is normal");
    assert_eq!(paster.device().announced, vec!["payload"]);
}

#[test]
fn unavailable_uinput_leaves_the_payload_on_the_clipboard_even_with_restore() {
    let mut paster = Paster::new(Device::new(false).holding("orig"), 0, true);
    paster.paste_text("payload").unwrap();
    assert_eq!(paster.device().keystrokes, 0);
    assert_eq!(
        paster.device().held(),
        "payload",
        "no keystroke was sent, so the payload must stay for a manual Ctrl+V"
    );
}

#[test]
fn a_failed_keystroke_still_restores_the_clipboard() {
    let mut paster = Paster::new(Device::failing().holding("something precious"), 0, true);
    let err = paster.paste_text("payload").unwrap_err();
    assert!(
        matches!(err, PasteError::Uinput(_)),
        "the failure is reported"
    );
    assert_eq!(
        paster.device().held(),
        "something precious",
        "the user's clipboard must survive a failed paste"
    );
}

#[test]
fn a_failed_keystroke_announces_the_restore_too() {
    let mut paster = Paster::new(Device::failing().holding("orig"), 0, true);
    let _ = paster.paste_text("payload");
    assert_eq!(paster.device().writes, vec!["payload", "orig"]);
    assert_eq!(paster.device().announced, paster.device().writes);
}

#[test]
fn set_config_retunes_the_sequence() {
    let mut paster = Paster::new(Device::new(true).holding("orig"), 0, false);
    paster.paste_text("a").unwrap();
    assert_eq!(paster.device().held(), "a", "no restore yet");

    paster.set_config(0, true);
    paster.paste_text("b").unwrap();
    assert_eq!(paster.device().held(), "a", "restore is live now");
}

#[test]
fn the_delay_comes_before_the_keystroke_and_only_if_there_is_one() {
    let mut paster = Paster::new(Device::new(true), 70, true);
    paster.paste_text("payload").unwrap();
    assert_eq!(paster.device().pauses.first(), Some(&70));
    let mut paster = Paster::new(Device::new(true), 0, false);
    paster.paste_text("payload").unwrap();
    assert!(paster.device().pauses.is_empty());
}

#[test]
fn a_clipboard_that_cannot_be_written_stops_the_paste() {
    let device = Device {
        fail_write: true,
        ..Device::new(true)
    };
    let mut paster = Paster::new(device, 0, false);
    assert_eq!(
        paster.paste_text("payload"),
        Err(PasteError::Clipboard(ClipboardError::Access(
            "refused".to_string()
        )))
    );
    assert_eq!(paster.device().keystrokes, 0);
}

// ---- the history --------------------------------------------------------

fn payload(text: &str) -> ClipboardPayload {
    ClipboardPayload {
        text: text.to_string(),
        source_process: String::new(),
    }
}

fn texts(h: &ClipboardHistory) -> Vec<String> {
    h.entries().into_iter().map(|e| e.text).collect()
}

#[test]
fn insert_puts_newest_first() {
    let mut h = ClipboardHistory::new(10, true);
    h.on_clipboard_changed(payload("first"));
    h.on_clipboard_changed(payload("second"));
    h.on_clipboard_changed(payload("third"));
    assert_eq!(texts(&h), vec!["third", "second", "first"]);
}

#[test]
fn dedup_skips_repeated_copy_of_newest() {
    let mut h = ClipboardHistory::new(10, true);
    h.on_clipboard_changed(payload("a"));
    h.on_clipboard_changed(payload("a"));
    h.on_clipboard_changed(payload("a"));

    let entries = h.entries();
    assert_eq!(entries.len(), 1, "duplicate of newest must be skipped");
    assert_eq!(entries[0].text, "a");
}

#[test]
fn dedup_allows_repromote_of_older_item() {
    let mut h = ClipboardHistory::new(10, true);
    h.on_clipboard_changed(payload("x"));
    h.on_clipboard_changed(payload("y"));
    h.on_clipboard_changed(payload("x"));
    assert_eq!(
        texts(&h),
        vec!["x", "y"],
        "older item should re-promote, not dedup"
    );
}

#[test]
fn trim_respects_max_items() {
    let mut h = ClipboardHistory::new(3, true);
    for i in 0..10 {
        h.on_clipboard_changed(payload(&format!("item-{i}")));
    }
    let entries = h.entries();
    assert_eq!(entries.len(), 3, "must trim to max_items");
    assert_eq!(entries[0].text, "item-9");
    assert_eq!(entries[1].text, "item-8");
    assert_eq!(entries[2].text, "item-7");
}

#[test]
fn empty_text_is_skipped() {
    let mut h = ClipboardHistory::new(10, true);
    h.on_clipboard_changed(payload(""));
    h.on_clipboard_changed(payload("real"));
    let entries = h.entries();
    assert_eq!(entries.len(), 1);
    assert_eq!(entries[0].text, "real");
}

#[test]
fn disabled_state_skips_capture() {
    let mut h = ClipboardHistory::new(10, false);
    h.on_clipboard_changed(payload("while-disabled"));
    assert!(h.entries().is_empty(), "disabled history must not capture");

    h.set_enabled(true);
    h.on_clipboard_changed(payload("after-enable"));
    let entries = h.entries();
    assert_eq!(entries.len(), 1);
    assert_eq!(entries[0].text, "after-enable");
}

#[test]
fn set_enabled_does_not_clear_entries() {
    let mut h = ClipboardHistory::new(10, true);
    h.on_clipboard_changed(payload("captured"));
    h.set_enabled(false);
    h.set_enabled(true);
    let entries = h.entries();
    assert_eq!(entries.len(), 1, "disabling must not drop existing entries");
    assert_eq!(entries[0].text, "captured");
}

#[test]
fn insert_reports_true_and_skips_report_false() {
    let mut h = ClipboardHistory::new(10, true);
    assert!(h.on_clipboard_changed(payload("hello")));
    assert!(!h.on_clipboard_changed(payload("hello")));
    assert!(!h.on_clipboard_changed(payload("")));
    assert!(h.on_clipboard_changed(payload("world")));
    assert!(h.on_clipboard_changed(payload("hello")));
}

#[test]
fn disabled_capture_reports_false() {
    let mut h = ClipboardHistory::new(10, false);
    assert!(!h.on_clipboard_changed(payload("x")));
    assert!(h.entries().is_empty());
}

#[test]
fn default_matches_settings_defaults() {
    let h = ClipboardHistory::default();
    assert_eq!(h.max_items(), 10);
    assert!(h.enabled());
}

// ---- the parts together -------------------------------------------------

type Context = AppContext<Device, NullGlobalHotkey, NullSecretStore, &'static str>;

fn ctx(settings: Settings) -> Context {
    AppContext::new(
        Database::new(Some(1)),
        Device::new(false),
        NullGlobalHotkey::new(),
        settings,
        None,
        "t.sqlite".to_string(),
        NullSecretStore::new(),
    )
}

#[test]
fn services_are_wired_from_settings_at_construction() {
    let mut s = Settings::default();
    s.clipboard_history.max_items = 25;
    s.clipboard_history.enabled = false;
    let ctx = ctx(s);
    assert_eq!(ctx.clipboard_history.max_items(), 25);
    assert!(!ctx.clipboard_history.enabled());
}

#[test]
fn set_settings_reaches_every_service_backed_field() {
    let mut ctx = ctx(Settings::default());
    assert_eq!(ctx.clipboard_history.max_items(), 10);
    assert!(ctx.clipboard_history.enabled());

    let mut changed = Settings::default();
    changed.clipboard_history.max_items = 3;
    changed.clipboard_history.enabled = false;
    changed.paste.delay_ms = 250;
    changed.paste.restore_clipboard = false;
    ctx.set_settings(changed.clone());

    assert_eq!(
        ctx.clipboard_history.max_items(),
        3,
        "max_items applies live"
    );
    assert!(!ctx.clipboard_history.enabled(), "enabled applies live");
    assert_eq!(ctx.settings(), changed, "and the snapshot is updated");
}

#[test]
fn shrinking_max_items_through_settings_trims_existing_entries() {
    let mut ctx = ctx(Settings::default());
    for i in 0..8 {
        ctx.clipboard_history
            .on_clipboard_changed(payload(&format!("item{i}")));
    }
    assert_eq!(ctx.clipboard_history.entries().len(), 8);

    let mut smaller = Settings::default();
    smaller.clipboard_history.max_items = 2;
    ctx.set_settings(smaller);

    assert_eq!(ctx.clipboard_history.entries().len(), 2);
}

#[test]
fn paste_settings_reach_the_paster() {
    let mut ctx: Context = AppContext::new(
        Database::new(Some(1)),
        Device::new(false).holding("orig"),
        NullGlobalHotkey::new(),
        Settings::default(),
        None,
        "t.sqlite".to_string(),
        NullSecretStore::new(),
    );
    ctx.paster.paste_text("payload").unwrap();
    assert_eq!(ctx.paster.device().held(), "payload");

    let mut s = Settings::default();
    s.paste.restore_clipboard = false;
    s.paste.delay_ms = 0;
    ctx.set_settings(s);
    ctx.paster.paste_text("second").unwrap();
    assert_eq!(ctx.paster.device().held(), "second");
}

#[test]
fn settings_snapshot_is_a_clone_not_a_borrow() {
    let ctx = ctx(Settings::default());
    let mut snapshot = ctx.settings();
    snapshot.general.language = "ru".into();
    assert_eq!(
        ctx.settings().general.language,
        "system",
        "mutating a snapshot must not touch the live settings"
    );
}

fn probe(encryption: EncryptionState) -> StartupProbe<&'static str> {
    StartupProbe {
        encryption,
        settings: Settings::default(),
        data_dir: "data".to_string(),
        db_path: "data/fastpaste.sqlite".to_string(),
        single_instance: Some("guard"),
    }
}

fn build(
    probe: &mut StartupProbe<&'static str>,
    db: Result<Database, DataError>,
) -> Result<Context, StartupError> {
    AppContext::build_unlocked_from(
        probe,
        db,
        Ok(Device::new(false)),
        NullGlobalHotkey::new(),
        NullSecretStore::new(),
    )
}

#[test]
fn probe_then_build_unlocked_produces_a_working_context() {
    let mut probe = probe(EncryptionState::Absent);
    let ctx = match build(&mut probe, Ok(Database::new(Some(1)))) {
        Ok(ctx) => ctx,
        Err(e) => panic!("{e:?}"),
    };
    assert_eq!(ctx.db_path, "data/fastpaste.sqlite");
    assert!(
        ctx.db.load_all().unwrap().is_empty(),
        "a fresh database opens with no items"
    );
    assert_eq!(ctx.single_instance, Some("guard"));
}

#[test]
fn a_failed_attempt_leaves_the_guard_for_a_retry_that_then_succeeds() {
    let mut probe = probe(EncryptionState::Encrypted);
    assert_eq!(
        build(&mut probe, Err(DataError::WrongPassphrase)).err(),
        Some(StartupError::Data(DataError::WrongPassphrase)),
        "the wrong passphrase must not open the database"
    );

    let mut db = Database::new(Some(1));
    let mut item = Item::new_plain(0, "T", "B");
    db.insert(&mut item).unwrap();
    let ctx = match build(&mut probe, Ok(db)) {
        Ok(ctx) => ctx,
        Err(e) => panic!("{e:?}"),
    };
    let loaded = ctx.db.load_all().unwrap();
    assert_eq!(loaded[0].body_plain, "B");
}

#[test]
fn a_second_build_from_the_same_probe_is_reported_as_an_error() {
    let mut probe = probe(EncryptionState::Absent);
    let _ctx = build(&mut probe, Ok(Database::new(Some(1))));
    assert_eq!(
        build(&mut probe, Ok(Database::new(Some(1)))).err(),
        Some(StartupError::AlreadyConsumed)
    );
}

#[test]
fn without_a_clipboard_there_is_no_application() {
    let mut probe = probe(EncryptionState::Plaintext);
    let failed: Result<Context, StartupError> = AppContext::build_unlocked_from(
        &mut probe,
        Ok(Database::new(Some(1))),
        Err("no display".to_string()),
        NullGlobalHotkey::new(),
        NullSecretStore::new(),
    );
    assert_eq!(
        failed.err(),
        Some(StartupError::Clipboard("no display".to_string()))
    );
    assert_eq!(probe.single_instance, Some("guard"));
    assert_eq!(probe.require_unencrypted(), Ok(()));
}

#[test]
fn a_second_paste_is_dropped_while_one_is_under_way() {
    let mut gate = PasteGate::new();
    assert!(gate.enter());
    assert!(!gate.enter(), "dropped");
    assert!(!gate.enter(), "and not put off");
    gate.leave();
    assert!(gate.enter());
}

#[test]
fn a_request_that_finds_a_paste_under_way_is_answered_and_does_nothing() {
    let mut gate = PasteGate::new();
    assert!(gate.enter(), "another paste is under way");
    let mut paster = Paster::new(Device::new(true).holding("original"), 0, true);
    let free = gate.enter();
    assert_eq!(paster.paste_if_free(free, "dropped"), Ok(()));
    assert!(paster.device().writes.is_empty());
    assert!(paster.device().announced.is_empty());
    assert_eq!(paster.device().keystrokes, 0);
    assert_eq!(paster.device().held(), "original");
}

#[test]
fn pastes_one_after_the_other_write_pairs_and_leave_the_original() {
    let mut gate = PasteGate::new();
    let mut paster = Paster::new(Device::new(true).holding("original"), 0, true);
    for text in ["one", "two", "three"] {
        let free = gate.enter();
        assert!(free);
        assert_eq!(paster.paste_if_free(free, text), Ok(()));
        gate.leave();
    }
    assert_eq!(
        paster.device().writes,
        ["one", "original", "two", "original", "three", "original"]
    );
    assert_eq!(paster.device().held(), "original");
}

#[test]
fn a_history_stays_in_order_whatever_is_called() {
    let mut h = ClipboardHistory::new(3, true);
    for text in ["a", "", "b", "a", "c", "d", "b"] {
        h.on_clipboard_changed(payload(text));
        assert!(h.entries().len() <= 3);
        assert!(h.entries().iter().all(|e| !e.text.is_empty()));
    }
    assert_eq!(texts(&h), ["b", "d", "c"]);
    h.set_enabled(false);
    h.on_clipboard_changed(payload("unseen"));
    h.set_enabled(true);
    assert_eq!(texts(&h), ["b", "d", "c"]);
    h.set_max_items(1);
    assert_eq!(texts(&h), ["b"]);
}
