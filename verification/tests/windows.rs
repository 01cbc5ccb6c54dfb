use fastpaste::hotkey::{HotkeyError, OPEN_DIALOG_ID};
use fastpaste::windows_hotkey::{
    dispatch, next_pump_phase, parse_sequence, MessageAction, PumpPhase, PumpResult,
    WindowsGlobalHotkey, ERROR_HOTKEY_ALREADY_REGISTERED, MOD_ALT, MOD_CONTROL, MOD_NOREPEAT,
    MOD_SHIFT, MOD_WIN, WM_HOTKEY, WM_QUIT,
};

const VK_F5: u32 = 0x74;
const VK_SPACE: u32 = 0x20;
const VK_OEM_PERIOD: u32 = 0xBE;

#[test]
fn parses_the_shipped_defaults() {
    let dialog = parse_sequence("Ctrl+Alt+V").expect("default must parse");
    let main = parse_sequence("Ctrl+Alt+M").expect("default must parse");
    assert_eq!(dialog.modifiers, main.modifiers);
    assert_ne!(dialog.vk, main.vk, "the defaults differ by key");
    assert_eq!(dialog.vk, 'V' as u32);
}

#[test]
fn autorepeat_is_off() {
    let a = parse_sequence("Ctrl+Alt+V").unwrap();
    assert_ne!(a.modifiers & MOD_NOREPEAT, 0);
}

#[test]
fn a_bare_key_is_rejected() {
    assert!(parse_sequence("V").is_none());
    assert!(parse_sequence("F5").is_none());
}

#[test]
fn the_modifier_grammar_matches_the_x11_backend() {
    let a = parse_sequence("Ctrl+Shift+Alt+Super+K").unwrap();
    for m in [MOD_CONTROL, MOD_SHIFT, MOD_ALT, MOD_WIN] {
        assert_ne!(a.modifiers & m, 0);
    }
    assert!(parse_sequence("Hyper+K").is_none(), "unknown modifier");
}

#[test]
fn named_and_punctuation_keys_resolve() {
    assert_eq!(parse_sequence("Ctrl+F5").unwrap().vk, VK_F5);
    assert_eq!(parse_sequence("Ctrl+Space").unwrap().vk, VK_SPACE);
    assert_eq!(parse_sequence("Ctrl+.").unwrap().vk, VK_OEM_PERIOD);
    assert_eq!(parse_sequence("Ctrl+7").unwrap().vk, '7' as u32);
}

#[test]
fn an_id_in_use_is_released_before_it_moves() {
    let mut h = WindowsGlobalHotkey::new();
    let (accel, release_first) = h.prepare(OPEN_DIALOG_ID, "Ctrl+Alt+V").unwrap();
    assert!(!release_first);
    assert_eq!(h.register_one(OPEN_DIALOG_ID, "Ctrl+Alt+V", accel, None), Ok(()));
    let (moved, release_first) = h.prepare(OPEN_DIALOG_ID, "Ctrl+Alt+M").unwrap();
    assert!(release_first);
    assert_eq!(h.register_one(OPEN_DIALOG_ID, "Ctrl+Alt+M", moved, None), Ok(()));
    assert_eq!(h.to_restore(OPEN_DIALOG_ID), Some(moved));
    assert_eq!(h.release_all(), vec![OPEN_DIALOG_ID], "an id is held once");
}

#[test]
fn a_refused_shortcut_leaves_the_earlier_one() {
    let mut h = WindowsGlobalHotkey::new();
    assert_eq!(h.to_restore(OPEN_DIALOG_ID), None);
    let (first, _) = h.prepare(OPEN_DIALOG_ID, "Ctrl+Alt+V").unwrap();
    h.register_one(OPEN_DIALOG_ID, "Ctrl+Alt+V", first, None).unwrap();
    let (second, _) = h.prepare(OPEN_DIALOG_ID, "Ctrl+Alt+M").unwrap();
    for code in [ERROR_HOTKEY_ALREADY_REGISTERED, 5] {
        let refused = h.register_one(OPEN_DIALOG_ID, "Ctrl+Alt+M", second, Some(code));
        assert!(matches!(
            refused,
            Err(HotkeyError::AlreadyGrabbed { .. } | HotkeyError::GrabFailed { .. })
        ));
        assert_eq!(h.to_restore(OPEN_DIALOG_ID), Some(first), "still bound to the earlier one");
    }
    assert!(h.unregister_one(OPEN_DIALOG_ID), "and still held");
    assert_eq!(h.to_restore(OPEN_DIALOG_ID), None);
}

#[test]
fn a_refused_id_that_was_never_bound_is_not_held() {
    let mut h = WindowsGlobalHotkey::new();
    let (accel, _) = h.prepare(OPEN_DIALOG_ID, "Ctrl+Alt+V").unwrap();
    let refused = h.register_one(
        OPEN_DIALOG_ID,
        "Ctrl+Alt+V",
        accel,
        Some(ERROR_HOTKEY_ALREADY_REGISTERED),
    );
    assert!(matches!(refused, Err(HotkeyError::AlreadyGrabbed { .. })));
    assert_eq!(h.to_restore(OPEN_DIALOG_ID), None);
    assert!(!h.unregister_one(OPEN_DIALOG_ID));
}

#[test]
fn another_error_of_the_system_is_reported_by_its_number() {
    let mut h = WindowsGlobalHotkey::new();
    let (accel, _) = h.prepare(7, "Ctrl+K").unwrap();
    assert_eq!(
        h.register_one(7, "Ctrl+K", accel, Some(5)),
        Err(HotkeyError::GrabFailed {
            key: "Ctrl+K".to_string(),
            mods: (MOD_CONTROL | MOD_NOREPEAT) as u16,
            detail: "RegisterHotKey failed with error 5".to_string(),
        })
    );
    assert!(matches!(h.prepare(7, "K"), Err(HotkeyError::BadSequence(_))));
}

#[test]
fn stopping_releases_everything() {
    let mut h = WindowsGlobalHotkey::new();
    for id in [1, 2] {
        let (accel, _) = h.prepare(id, "Ctrl+K").unwrap();
        h.register_one(id, "Ctrl+K", accel, None).unwrap();
    }
    assert_eq!(h.release_all(), vec![1, 2]);
    assert_eq!(h.release_all(), Vec::<u32>::new());
}

#[test]
fn messages_are_told_apart() {
    assert_eq!(dispatch(WM_HOTKEY, 2), MessageAction::Fire(2));
    assert_eq!(dispatch(WM_QUIT, 0), MessageAction::Quit);
    assert_ne!(dispatch(0x0400, 0), MessageAction::Quit);
}

#[test]
fn the_pump_takes_commands_before_it_blocks() {
    assert_eq!(
        next_pump_phase(PumpPhase::TakeCommand, PumpResult::CommandDone),
        PumpPhase::TakeCommand
    );
}
