use std::time::Duration;

use evdev::KeyCode;
use fastpaste::grabs::{
    claimed_combos, classify_grab_error, combos_to_retire, match_registration, GrabReply,
    ReaderState, RegisterStep, Registration,
};
use fastpaste::hotkey::{
    GlobalHotkey, HotkeyError, NullGlobalHotkey, OPEN_DIALOG_ID, OPEN_MAIN_WINDOW_ID,
};
use fastpaste::key_names::kernel_name;
use fastpaste::reader::{
    dispatch, next_phase, poll_outcome, reconnect_step, wake_step, Dispatch, Phase, PhaseResult,
    PollOutcome, ReconnectStep, ServerEvent, WakeRead, WakeStep,
};
use fastpaste::replay::{Replay, ReplayStep};
use fastpaste::x11::{
    parse_sequence, server_code, KeyboardTables, ModifierLayout, CONTROL, LOCK, M1, M2, M3, M4, SHIFT,
};

/// Every word that names a key, with the kernel's name for it.
const NAMED_KEYS: &[(&str, &str)] = &[
    ("f1", "KEY_F1"),
    ("f2", "KEY_F2"),
    ("f3", "KEY_F3"),
    ("f4", "KEY_F4"),
    ("f5", "KEY_F5"),
    ("f6", "KEY_F6"),
    ("f7", "KEY_F7"),
    ("f8", "KEY_F8"),
    ("f9", "KEY_F9"),
    ("f10", "KEY_F10"),
    ("f11", "KEY_F11"),
    ("f12", "KEY_F12"),
    ("space", "KEY_SPACE"),
    ("tab", "KEY_TAB"),
    ("esc", "KEY_ESC"),
    ("escape", "KEY_ESC"),
    ("enter", "KEY_ENTER"),
    ("return", "KEY_ENTER"),
    ("backspace", "KEY_BACKSPACE"),
    ("insert", "KEY_INSERT"),
    ("delete", "KEY_DELETE"),
    ("home", "KEY_HOME"),
    ("end", "KEY_END"),
    ("pageup", "KEY_PAGEUP"),
    ("pagedown", "KEY_PAGEDOWN"),
    ("up", "KEY_UP"),
    ("down", "KEY_DOWN"),
    ("left", "KEY_LEFT"),
    ("right", "KEY_RIGHT"),
    ("minus", "KEY_MINUS"),
    ("-", "KEY_MINUS"),
    ("equal", "KEY_EQUAL"),
    ("=", "KEY_EQUAL"),
    ("comma", "KEY_COMMA"),
    (",", "KEY_COMMA"),
    ("period", "KEY_DOT"),
    (".", "KEY_DOT"),
    ("slash", "KEY_SLASH"),
    ("/", "KEY_SLASH"),
    ("semicolon", "KEY_SEMICOLON"),
    (";", "KEY_SEMICOLON"),
    ("apostrophe", "KEY_APOSTROPHE"),
    ("grave", "KEY_GRAVE"),
    ("`", "KEY_GRAVE"),
    ("backslash", "KEY_BACKSLASH"),
    ("leftbracket", "KEY_LEFTBRACE"),
    ("[", "KEY_LEFTBRACE"),
    ("rightbracket", "KEY_RIGHTBRACE"),
    ("]", "KEY_RIGHTBRACE"),
];

fn test_layout() -> ModifierLayout {
    ModifierLayout {
        lock_mods: LOCK | M2,
        alt_mod: M1,
        super_mod: M4,
    }
}

fn reg(id: u32, sequence: &str, layout: &ModifierLayout) -> Registration {
    let (keycode, base_mods) = parse_sequence(sequence, layout).unwrap();
    Registration {
        id,
        sequence: sequence.to_string(),
        keycode,
        base_mods,
    }
}

#[test]
fn null_register_is_no_op() {
    let mut h = NullGlobalHotkey::new();
    h.register(OPEN_DIALOG_ID, "Ctrl+U").unwrap();
    h.unregister(OPEN_DIALOG_ID);
}

#[test]
fn null_fire_is_observable_via_events() {
    let mut h = NullGlobalHotkey::new();
    let rx = h.events();
    h.fire(OPEN_DIALOG_ID);
    assert_eq!(
        rx.recv_timeout(Duration::from_millis(100)),
        Ok(OPEN_DIALOG_ID)
    );
}

#[test]
fn a_closed_wake_pipe_stops_the_reader() {
    assert_eq!(
        wake_step(WakeRead::Bytes(0)),
        WakeStep::Closed,
        "EOF must end the loop"
    );
    assert_eq!(
        next_phase(Phase::DrainWake, PhaseResult::Wake { open: false }),
        Phase::Exit
    );
}

#[test]
fn an_empty_wake_pipe_keeps_going() {
    assert_eq!(wake_step(WakeRead::WouldBlock), WakeStep::Quiet);
    assert_eq!(
        next_phase(Phase::DrainWake, PhaseResult::Wake { open: true }),
        Phase::TakeCommand
    );
}

#[test]
fn pending_wake_bytes_are_fully_drained() {
    // 200 bytes arrive as three full reads and a short one.
    for n in [64, 64, 64] {
        assert_eq!(wake_step(WakeRead::Bytes(n)), WakeStep::ReadAgain);
    }
    assert_eq!(wake_step(WakeRead::Bytes(8)), WakeStep::Quiet);
}

#[test]
fn poll_outcome_classifies_each_fd() {
    // Ordinary readability.
    assert_eq!(poll_outcome(libc::POLLIN, 0), PollOutcome::Continue);
    assert_eq!(poll_outcome(0, libc::POLLIN), PollOutcome::Continue);
    assert_eq!(poll_outcome(0, 0), PollOutcome::Continue);

    // A dead X fd means reconnect, not spin.
    for bad in [libc::POLLHUP, libc::POLLERR, libc::POLLNVAL] {
        assert_eq!(poll_outcome(bad, 0), PollOutcome::Reconnect, "x revents {bad:#x}");
        // Even alongside readable data.
        assert_eq!(poll_outcome(bad | libc::POLLIN, 0), PollOutcome::Reconnect);
    }

    // A dead wake pipe means the owner is gone: exit.
    for bad in [libc::POLLHUP, libc::POLLERR, libc::POLLNVAL] {
        assert_eq!(poll_outcome(0, bad), PollOutcome::Exit, "wake revents {bad:#x}");
    }

    // Both dead: exiting wins — there is nobody left to serve.
    assert_eq!(poll_outcome(libc::POLLHUP, libc::POLLHUP), PollOutcome::Exit);
}

#[test]
fn matches_a_plain_registration() {
    let layout = test_layout();
    let regs = vec![reg(OPEN_DIALOG_ID, "Ctrl+U", &layout)];
    let ctrl = CONTROL;
    assert_eq!(
        match_registration(&regs, regs[0].keycode, ctrl, &layout),
        Some(OPEN_DIALOG_ID)
    );
}

#[test]
fn lock_bits_in_the_event_state_are_ignored() {
    let layout = test_layout();
    let regs = vec![reg(OPEN_DIALOG_ID, "Ctrl+U", &layout)];
    let ctrl = CONTROL;
    for lock in [
        LOCK,
        M2,
        LOCK | M2,
    ] {
        assert_eq!(
            match_registration(&regs, regs[0].keycode, ctrl | lock, &layout),
            Some(OPEN_DIALOG_ID),
            "CapsLock/NumLock state must not break matching"
        );
    }
}

#[test]
fn pointer_button_bits_do_not_break_matching() {
    let layout = test_layout();
    let regs = vec![reg(OPEN_DIALOG_ID, "Ctrl+U", &layout)];
    let ctrl = CONTROL;
    for button_bit in 8..=12 {
        let state = ctrl | (1 << button_bit);
        assert_eq!(
            match_registration(&regs, regs[0].keycode, state, &layout),
            Some(OPEN_DIALOG_ID),
            "button bit {button_bit} must be masked off"
        );
    }
}

#[test]
fn keyboard_group_bits_do_not_break_matching() {
    let layout = test_layout();
    let regs = vec![reg(OPEN_DIALOG_ID, "Ctrl+U", &layout)];
    let ctrl = CONTROL;
    for group in 1..=3u16 {
        let state = ctrl | (group << 13);
        assert_eq!(
            match_registration(&regs, regs[0].keycode, state, &layout),
            Some(OPEN_DIALOG_ID),
            "group {group} must be masked off"
        );
    }
}

#[test]
fn a_genuinely_different_modifier_does_not_match() {
    let layout = test_layout();
    let regs = vec![reg(OPEN_DIALOG_ID, "Ctrl+U", &layout)];
    let shift_u = SHIFT;
    assert_eq!(
        match_registration(&regs, regs[0].keycode, shift_u, &layout),
        None
    );
    // Ctrl+Shift+U must not fire the Ctrl+U registration either.
    let both = CONTROL | SHIFT;
    assert_eq!(
        match_registration(&regs, regs[0].keycode, both, &layout),
        None
    );
}

#[test]
fn the_two_default_shortcuts_stay_distinct() {
    let layout = test_layout();
    let regs = vec![
        reg(OPEN_DIALOG_ID, "Ctrl+U", &layout),
        reg(OPEN_MAIN_WINDOW_ID, "Ctrl+Shift+U", &layout),
    ];
    let ctrl = CONTROL;
    let ctrl_shift = ctrl | SHIFT;
    let kc = regs[0].keycode;
    assert_eq!(
        match_registration(&regs, kc, ctrl, &layout),
        Some(OPEN_DIALOG_ID)
    );
    assert_eq!(
        match_registration(&regs, kc, ctrl_shift, &layout),
        Some(OPEN_MAIN_WINDOW_ID)
    );
}

#[test]
fn swapping_two_shortcuts_never_retires_the_others_grab() {
    let layout = test_layout();
    let combos = layout.lock_combos();

    // Start: id1 = Ctrl+U, id2 = Ctrl+Shift+U.
    let id1_old = reg(OPEN_DIALOG_ID, "Ctrl+U", &layout);
    let id2_old = reg(OPEN_MAIN_WINDOW_ID, "Ctrl+Shift+U", &layout);

    // Step 1: id1 moves onto Ctrl+Shift+U (id2 still holds it).
    let (kc1, mods1) = parse_sequence("Ctrl+Shift+U", &layout).unwrap();
    let new1: Vec<u16> = combos.iter().map(|l| mods1 | l).collect();
    let retire1 = combos_to_retire(
        &id1_old,
        kc1,
        &new1,
        &combos,
        std::slice::from_ref(&id2_old),
    );
    // It gives up its own Ctrl+U ...
    assert!(
        retire1
            .iter()
            .all(|(_, m)| m & SHIFT == 0)
    );
    assert_eq!(retire1.len(), combos.len());

    // Step 2: id2 moves onto Ctrl+U, while id1 now owns Ctrl+Shift+U.
    let id1_new = reg(OPEN_DIALOG_ID, "Ctrl+Shift+U", &layout);
    let (kc2, mods2) = parse_sequence("Ctrl+U", &layout).unwrap();
    let new2: Vec<u16> = combos.iter().map(|l| mods2 | l).collect();
    let retire2 = combos_to_retire(&id2_old, kc2, &new2, &combos, &[id1_new]);
    assert!(
        retire2.is_empty(),
        "id2's old combos are all owned by id1 now; retiring them would \
         kill a live shortcut: {retire2:?}"
    );
}

#[test]
fn a_rollback_never_releases_a_combination_someone_still_owns() {
    let layout = test_layout();
    let combos = layout.lock_combos();
    let id2 = reg(OPEN_MAIN_WINDOW_ID, "Ctrl+Shift+U", &layout);

    // id1 is being moved onto id2's sequence and the grab fails
    // partway: every combination it managed to take is one id2 holds.
    let claimed = claimed_combos(std::slice::from_ref(&id2), &combos);
    for l in &combos {
        assert!(
            claimed.contains(&(id2.keycode, id2.base_mods | l)),
            "the guard must see every lock-variant id2 owns"
        );
    }
    // And it must not over-claim a combination nobody holds.
    let (kc, other) = parse_sequence("Alt+J", &layout).unwrap();
    assert!(!claimed.contains(&(kc, other)));
}

#[test]
fn re_registering_the_same_sequence_keeps_its_grab() {
    let layout = test_layout();
    let combos = layout.lock_combos();
    let old = reg(OPEN_DIALOG_ID, "Ctrl+U", &layout);
    let (kc, mods) = parse_sequence("Ctrl+U", &layout).unwrap();
    let new: Vec<u16> = combos.iter().map(|l| mods | l).collect();
    assert!(
        combos_to_retire(&old, kc, &new, &combos, &[]).is_empty(),
        "an unchanged sequence must not release its own grab"
    );
}

#[test]
fn a_changed_sequence_releases_every_old_combo() {
    let layout = test_layout();
    let combos = layout.lock_combos();
    let old = reg(OPEN_DIALOG_ID, "Ctrl+U", &layout);
    let (kc, mods) = parse_sequence("Alt+J", &layout).unwrap();
    let new: Vec<u16> = combos.iter().map(|l| mods | l).collect();
    let retire = combos_to_retire(&old, kc, &new, &combos, &[]);
    assert_eq!(retire.len(), combos.len());
    assert!(retire.iter().all(|(k, _)| *k == old.keycode));
}

#[test]
fn parse_sequence_accepts_function_keys() {
    let layout = test_layout();
    for (seq, name) in [
        ("Ctrl+F1", "KEY_F1"),
        ("Ctrl+F5", "KEY_F5"),
        ("Ctrl+Shift+F12", "KEY_F12"),
    ] {
        let (keycode, _) =
            parse_sequence(seq, &layout).unwrap_or_else(|| panic!("{seq} must parse"));
        let expected = name.parse::<KeyCode>().unwrap().0 as u8 + 8;
        assert_eq!(keycode, expected, "{seq}");
    }
}

#[test]
fn parse_sequence_accepts_named_and_punctuation_keys() {
    let layout = test_layout();
    for (seq, name) in [
        ("Ctrl+Space", "KEY_SPACE"),
        ("Alt+Tab", "KEY_TAB"),
        ("Ctrl+Esc", "KEY_ESC"),
        ("Ctrl+Escape", "KEY_ESC"),
        ("Ctrl+Insert", "KEY_INSERT"),
        ("Ctrl+.", "KEY_DOT"),
        ("Ctrl+Period", "KEY_DOT"),
        ("Ctrl+[", "KEY_LEFTBRACE"),
    ] {
        let (keycode, _) =
            parse_sequence(seq, &layout).unwrap_or_else(|| panic!("{seq} must parse"));
        let expected = name.parse::<KeyCode>().unwrap().0 as u8 + 8;
        assert_eq!(keycode, expected, "{seq}");
    }
}

#[test]
fn the_shipped_default_sequences_parse() {
    let layout = test_layout();
    let dialog = parse_sequence("Ctrl+Alt+V", &layout)
        .expect("the default selection-dialog hotkey must parse");
    let main = parse_sequence("Ctrl+Alt+M", &layout)
        .expect("the default main-window hotkey must parse");

    // The defaults differ by KEY, not by modifier. A pair separated
    // only by Shift collapses wherever something normalises Shift
    // away, and the two actions become one.
    assert_ne!(dialog.0, main.0, "the defaults must differ by keycode");
    assert_eq!(
        dialog.1, main.1,
        "…and share their modifiers, so neither can shadow the other"
    );

    // Whatever the lock state, neither grab can be mistaken for the
    // other: the keycodes differ, so no combination of lock bits
    // makes them equal.
    for combo in layout.lock_combos() {
        assert_ne!((dialog.0, dialog.1 | combo), (main.0, main.1 | combo));
    }
}

#[test]
fn named_keys_are_case_insensitive() {
    let layout = test_layout();
    assert_eq!(
        parse_sequence("Ctrl+f5", &layout),
        parse_sequence("Ctrl+F5", &layout)
    );
}

#[test]
fn every_named_key_resolves_to_a_real_kernel_code() {
    // The table is hand-written; a typo would be a runtime
    // BadSequence for a key the options dialog advertises.
    for (alias, name) in NAMED_KEYS {
        let key = name
            .parse::<KeyCode>()
            .unwrap_or_else(|_| panic!("{alias} -> {name} is not a kernel key name"));
        assert!(
            u8::try_from(key.0).is_ok(),
            "{name} does not fit an X keycode"
        );
    }
}

#[test]
fn parse_sequence_maps_letters_to_real_x_keycodes() {
    let cases = [('a', 38), ('i', 31), ('n', 57), ('u', 30), ('z', 52)];
    for (letter, x_keycode) in cases {
        let seq = format!("Ctrl+{letter}");
        let (keycode, _) =
            parse_sequence(&seq, &test_layout()).unwrap_or_else(|| panic!("{seq} must parse"));
        assert_eq!(keycode, x_keycode, "wrong keycode for {seq}");
    }
}

#[test]
fn parse_sequence_combines_modifiers() {
    let l = test_layout();
    let (_, mods) = parse_sequence("Ctrl+Shift+U", &l).unwrap();
    assert_eq!(
        mods,
        CONTROL | SHIFT
    );
    let (_, mods) = parse_sequence("alt + m", &l).unwrap();
    assert_eq!(mods, M1);
    // Super maps to Mod4 (the Options dialog hint documents it).
    let (_, mods) = parse_sequence("Super+U", &l).unwrap();
    assert_eq!(mods, M4);
}

#[test]
fn parse_maps_alt_via_layout() {
    let odd_layout = ModifierLayout {
        lock_mods: LOCK,
        alt_mod: M3,
        super_mod: M4,
    };
    let (_, mods) = parse_sequence("Alt+M", &odd_layout).unwrap();
    assert_eq!(mods, M3);
}

#[test]
fn fallback_layout_is_conventional() {
    let f = ModifierLayout::fallback();
    assert_eq!(
        f.lock_mods,
        LOCK | M2
    );
    assert_eq!(f.alt_mod, M1);
    assert_eq!(f.super_mod, M4);
    let (_, mods) = parse_sequence("Alt+M", &f).unwrap();
    assert_eq!(mods, M1);
}

#[test]
fn sanitized_drops_lock_bits_colliding_with_alt() {
    let pathological = ModifierLayout {
        lock_mods: LOCK | M1,
        alt_mod: M1,
        super_mod: M4,
    }
    .sanitized();
    assert_eq!(pathological.lock_mods, LOCK);
    assert_eq!(pathological.alt_mod, M1);
}

#[test]
fn lock_combos_is_the_powerset() {
    let l = ModifierLayout {
        lock_mods: LOCK | M2,
        alt_mod: M1,
        super_mod: M4,
    };
    assert_eq!(
        l.lock_combos(),
        vec![
            0,
            LOCK,
            M2,
            LOCK | M2,
        ]
    );

    let none = ModifierLayout { lock_mods: 0, ..l };
    assert_eq!(none.lock_combos(), vec![0]);
}

#[test]
fn parse_sequence_maps_digits_to_real_x_keycodes() {
    let cases = [('1', 10), ('9', 18), ('0', 19)];
    for (digit, x_keycode) in cases {
        let seq = format!("Ctrl+{digit}");
        let (keycode, _) =
            parse_sequence(&seq, &test_layout()).unwrap_or_else(|| panic!("{seq} must parse"));
        assert_eq!(keycode, x_keycode, "wrong keycode for {seq}");
    }
}

#[test]
fn parse_sequence_rejects_unsupported_sequences() {
    let l = test_layout();
    assert!(parse_sequence("Ctrl+Ф", &l).is_none()); // non-Latin key
    assert!(parse_sequence("Ctrl+ab", &l).is_none()); // multi-letter key
    assert!(parse_sequence("U", &l).is_none()); // no modifier
    assert!(parse_sequence("Ctrl", &l).is_none()); // key without modifier
    assert!(parse_sequence("", &l).is_none()); // empty
}

#[test]
fn a_failed_read_of_the_wake_pipe_ends_the_thread_and_an_interrupted_one_does_not() {
    assert_eq!(wake_step(WakeRead::Failed), WakeStep::Closed);
    assert_eq!(wake_step(WakeRead::Interrupted), WakeStep::ReadAgain);
}

#[test]
fn a_lost_connection_is_tried_five_times() {
    assert_eq!(reconnect_step(1, false), ReconnectStep::Retry(2));
    assert_eq!(reconnect_step(4, false), ReconnectStep::Retry(5));
    assert_eq!(reconnect_step(5, false), ReconnectStep::GiveUp);
    assert_eq!(reconnect_step(5, true), ReconnectStep::Connected);
}

#[test]
fn the_reader_waits_only_with_nothing_to_do() {
    assert_eq!(
        next_phase(Phase::TakeCommand, PhaseResult::CommandDone),
        Phase::TakeCommand
    );
    assert_eq!(
        next_phase(Phase::TakeCommand, PhaseResult::NoCommand),
        Phase::DrainEvents
    );
    assert_eq!(
        next_phase(Phase::DrainEvents, PhaseResult::Events { alive: true }),
        Phase::Wait
    );
    assert_eq!(
        next_phase(Phase::DrainEvents, PhaseResult::Events { alive: false }),
        Phase::Reconnect
    );
    assert_eq!(
        next_phase(Phase::Wait, PhaseResult::PollFailed { interrupted: false }),
        Phase::Pause
    );
}

#[test]
fn every_word_of_the_table_has_the_kernels_name() {
    for (alias, name) in NAMED_KEYS {
        assert_eq!(kernel_name(alias), Some(*name), "{alias}");
    }
    assert_eq!(kernel_name("hyper"), None);
}

#[test]
fn the_layout_is_read_from_the_servers_tables() {
    // One key per row: Shift, Lock, Control, Mod1 to Mod5.
    let tables = KeyboardTables {
        min_keycode: 8,
        max_keycode: 12,
        keycodes_per_modifier: 1,
        modifier_keycodes: vec![0, 8, 0, 9, 10, 11, 12, 0],
        keysyms_per_keycode: 1,
        // Caps Lock, Alt, Num Lock, Super, Scroll Lock.
        keysyms: vec![0xffe5, 0xffe9, 0xff7f, 0xffeb, 0xff14],
    };
    let layout = ModifierLayout::resolve(Some(&tables));
    assert_eq!(layout.alt_mod, M1);
    assert_eq!(layout.super_mod, M3);
    assert_eq!(layout.lock_mods, LOCK | M2 | M4);
    assert_eq!(ModifierLayout::resolve(None), ModifierLayout::fallback());
}

#[test]
fn a_registration_grabs_every_lock_state_and_then_fires() {
    let mut state = ReaderState::new(test_layout());
    let plan = state.plan_register(OPEN_DIALOG_ID, "Ctrl+U").unwrap();
    assert_eq!(plan.combos, vec![CONTROL, CONTROL | LOCK, CONTROL | M2, CONTROL | LOCK | M2]);
    for granted in 0..3 {
        match state.register_step(&plan, granted, GrabReply::Granted) {
            RegisterStep::Grab(keycode, mods) => {
                assert_eq!((keycode, mods), (plan.keycode, plan.combos[granted + 1]));
            }
            other => panic!("expected the next grab, got {other:?}"),
        }
    }
    match state.register_step(&plan, 3, GrabReply::Granted) {
        RegisterStep::Done { release, result } => {
            assert!(release.is_empty());
            assert_eq!(result, Ok(()));
        }
        other => panic!("expected the end, got {other:?}"),
    }
    assert_eq!(state.matching(plan.keycode, CONTROL | LOCK), Some(OPEN_DIALOG_ID));
    match dispatch(
        &state,
        ServerEvent::KeyPress {
            keycode: plan.keycode,
            state: CONTROL,
        },
    ) {
        Dispatch::Fire(id) => assert_eq!(id, OPEN_DIALOG_ID),
        other => panic!("expected the id to fire, got {other:?}"),
    }
}

#[test]
fn a_refused_grab_gives_back_what_was_granted() {
    let mut state = ReaderState::new(test_layout());
    let plan = state.plan_register(OPEN_DIALOG_ID, "Ctrl+U").unwrap();
    let _ = state.register_step(&plan, 0, GrabReply::Granted);
    match state.register_step(&plan, 1, GrabReply::Taken) {
        RegisterStep::Done { release, result } => {
            assert_eq!(release, vec![(plan.keycode, CONTROL)]);
            assert_eq!(
                result,
                Err(HotkeyError::AlreadyGrabbed {
                    key: "Ctrl+U".to_string(),
                    mods: CONTROL | LOCK,
                })
            );
        }
        other => panic!("expected the end, got {other:?}"),
    }
    assert_eq!(state.matching(plan.keycode, CONTROL), None);
}

#[test]
fn a_sequence_that_means_nothing_is_refused() {
    let state = ReaderState::new(test_layout());
    assert_eq!(
        state.plan_register(OPEN_DIALOG_ID, "Ctrl+ab").err(),
        Some(HotkeyError::BadSequence("Ctrl+ab".to_string()))
    );
}

#[test]
fn grab_errors_are_told_apart() {
    assert_eq!(classify_grab_error("Ctrl+U", 4, GrabReply::Granted), None);
    assert_eq!(
        classify_grab_error("Ctrl+U", 4, GrabReply::Failed("no".to_string())),
        Some(HotkeyError::GrabFailed {
            key: "Ctrl+U".to_string(),
            mods: 4,
            detail: "no".to_string(),
        })
    );
}

#[test]
fn the_servers_key_codes_are_the_kernels_and_eight() {
    assert_eq!(server_code(0), Some(8));
    assert_eq!(server_code(30), Some(38));
    assert_eq!(server_code(247), Some(255));
    assert_eq!(server_code(256), None);
    assert_eq!(server_code(u16::MAX), None);
}

#[test]
fn lock_states_are_all_different_and_begin_with_none() {
    for lock_mods in [0, LOCK, LOCK | M2, LOCK | M2 | M3, LOCK | M2 | M3 | M4] {
        let layout = ModifierLayout { lock_mods, alt_mod: M1, super_mod: M4 };
        let states = layout.lock_combos();
        assert_eq!(states[0], 0);
        assert_eq!(states.len(), 1 << lock_mods.count_ones().min(3));
        for (i, a) in states.iter().enumerate() {
            assert_eq!(a & !lock_mods, 0);
            assert!(!states[i + 1..].contains(a));
        }
    }
}

/// A table of these shortcuts, all granted.
fn table_of(layout: ModifierLayout, shortcuts: &[(u32, &str)]) -> ReaderState {
    let mut state = ReaderState::new(layout);
    for (id, sequence) in shortcuts {
        let plan = state.plan_register(*id, sequence).unwrap();
        for granted in 0..plan.combos.len() {
            state.register_step(&plan, granted, GrabReply::Granted);
        }
    }
    state
}

#[test]
fn registering_anew_reads_every_sequence_under_the_new_layout() {
    let old = ModifierLayout { alt_mod: M1, super_mod: M4, lock_mods: LOCK };
    let new = ModifierLayout { alt_mod: M3, super_mod: M4, lock_mods: 0 };
    let mut state = table_of(old, &[(1, "Alt+V"), (2, "Alt+M")]);
    let (mut replay, grabs) = Replay::start(&mut state, true);
    assert_eq!(grabs.len(), 4, "two lock states for each");
    let (v, _) = parse_sequence("Alt+V", &new).unwrap();
    let (m, _) = parse_sequence("Alt+M", &new).unwrap();
    let step = replay.begin(&mut state, new);
    assert_eq!(step.grab, Some((v, M3)));
    let step = replay.answered(&mut state, GrabReply::Granted);
    assert_eq!(step.grab, Some((m, M3)));
    assert!(step.release.is_empty() && step.failed.is_empty());
    assert_eq!(state.matching(v, M3), Some(1), "the first one works already");
    let step = replay.answered(&mut state, GrabReply::Granted);
    assert_eq!(step.grab, None);
    assert_eq!(state.matching(m, M3), Some(2));
}

#[test]
fn registering_anew_keeps_what_is_refused_or_cannot_be_read() {
    let old = ModifierLayout { alt_mod: M1, super_mod: M4, lock_mods: LOCK };
    let bare = ModifierLayout { alt_mod: 0, super_mod: M4, lock_mods: LOCK };
    let mut state = table_of(old, &[(1, "Ctrl+V"), (2, "Alt+M"), (3, "Ctrl+K")]);
    let (mut replay, grabs) = Replay::start(&mut state, false);
    assert!(grabs.is_empty(), "the server has dropped them");
    let (v, _) = parse_sequence("Ctrl+V", &bare).unwrap();
    let (k, _) = parse_sequence("Ctrl+K", &bare).unwrap();
    let ReplayStep { grab, .. } = replay.begin(&mut state, bare);
    assert_eq!(grab, Some((v, CONTROL)));
    let step = replay.answered(&mut state, GrabReply::Granted);
    assert_eq!(step.grab, Some((v, CONTROL | LOCK)));
    let step = replay.answered(&mut state, GrabReply::Taken);
    assert_eq!(step.release, vec![(v, CONTROL)], "what was granted is given back");
    assert_eq!(step.failed.len(), 2);
    assert!(matches!(&step.failed[0], (1, HotkeyError::AlreadyGrabbed { .. })));
    assert!(matches!(&step.failed[1], (2, HotkeyError::BadSequence(s)) if s == "Alt+M"));
    assert_eq!(step.grab, Some((k, CONTROL)));
    replay.answered(&mut state, GrabReply::Granted);
    let step = replay.answered(&mut state, GrabReply::Granted);
    assert_eq!(step.grab, None);
    let (_, entries) = state.take_all();
    let ids: Vec<u32> = entries.iter().map(|e| e.id).collect();
    assert_eq!(ids, [1, 2, 3], "nothing is lost");
}

#[test]
fn fired_ids_arrive_once_each_and_in_order() {
    let mut h = NullGlobalHotkey::default();
    h.fire(9);
    let rx = h.events();
    h.register(OPEN_DIALOG_ID, "Ctrl+U").unwrap();
    h.fire(OPEN_DIALOG_ID);
    h.fire(9);
    let arrived: Vec<u32> = rx.try_iter().collect();
    assert_eq!(arrived, [9, OPEN_DIALOG_ID, 9], "registered or not");
}

#[test]
fn a_later_events_channel_is_disconnected() {
    let mut h = NullGlobalHotkey::new();
    let _first = h.events();
    let later = h.events();
    h.fire(OPEN_DIALOG_ID);
    assert_eq!(
        later.recv_timeout(Duration::from_millis(20)),
        Err(std::sync::mpsc::RecvTimeoutError::Disconnected)
    );
}
