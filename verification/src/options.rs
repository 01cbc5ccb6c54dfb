//! The options dialog: its fields, what they mean as settings, and how a change is applied.
use crate::hotkey::{
    GlobalHotkey, HotkeyError, RegisterCall, OPEN_DIALOG_ID, OPEN_MAIN_WINDOW_ID,
};
use crate::item::HistoryPosition;
use crate::settings::{
    clamped_settings, in_range, HistoryOptions, HotkeySettings, HotkeyTexts, PasteOptions,
    Settings, SettingsView, DELAY_MS_RANGE, MAX_ITEMS_RANGE,
};
use crate::text::{same_text, trim, trimmed};
use vstd::prelude::*;

verus! {

// ---- languages ----------------------------------------------------------

/// How many languages the dialog offers.
pub const LANGUAGE_COUNT: usize = 6;

/// The code of language `i` of the dialog. The first one follows the system, and is the one
/// that an unknown code is shown as.
pub open spec fn language_code(i: int) -> Option<Seq<char>> {
    if i == 0 {
        Some("system"@)
    } else if i == 1 {
        Some("en"@)
    } else if i == 2 {
        Some("ru"@)
    } else if i == 3 {
        Some("de"@)
    } else if i == 4 {
        Some("es"@)
    } else if i == 5 {
        Some("zh_CN"@)
    } else {
        None
    }
}

/// The label of language `i` of the dialog: its own name for itself.
pub open spec fn language_label(i: int) -> Seq<char> {
    if i == 0 {
        "System default"@
    } else if i == 1 {
        "English"@
    } else if i == 2 {
        "Русский"@
    } else if i == 3 {
        "Deutsch"@
    } else if i == 4 {
        "Español"@
    } else {
        "中文 (简体)"@
    }
}

/// Code and label of each language that the dialog offers, in the dialog's order.
pub fn language_at(i: usize) -> (r: Option<(&'static str, &'static str)>)
    ensures
        match r {
            Some((code, label)) => language_code(i as int) == Some(code@) && label@
                == language_label(i as int),
            None => language_code(i as int) is None,
        },
        r is Some <==> i < LANGUAGE_COUNT,
{
    if i == 0 {
        Some(("system", "System default"))
    } else if i == 1 {
        Some(("en", "English"))
    } else if i == 2 {
        Some(("ru", "Русский"))
    } else if i == 3 {
        Some(("de", "Deutsch"))
    } else if i == 4 {
        Some(("es", "Español"))
    } else if i == 5 {
        Some(("zh_CN", "中文 (简体)"))
    } else {
        None
    }
}

/// Is `code` one that the dialog offers?
pub open spec fn is_offered(code: Seq<char>) -> bool {
    exists|i: int| #[trigger] language_code(i) == Some(code)
}

/// No two languages have the same code.
pub proof fn language_codes_differ(i: int, j: int)
    requires
        language_code(i) is Some,
        language_code(i) == language_code(j),
    ensures
        i == j,
{
    reveal_strlit("system");
    reveal_strlit("en");
    reveal_strlit("ru");
    reveal_strlit("de");
    reveal_strlit("es");
    reveal_strlit("zh_CN");
    if i != j {
        let a = language_code(i)->0;
        let b = language_code(j)->0;
        assert(a.len() == b.len() && a[0] == b[0] && a[1] == b[1]);
        assert(false);
    }
}

/// The place of a language in the dialog; an unknown code has that of the system's language.
pub fn lang_index_for_code(code: &str) -> (r: usize)
    ensures
        r < LANGUAGE_COUNT,
        is_offered(code@) ==> language_code(r as int) == Some(code@),
        !is_offered(code@) ==> r == 0,
{
    let mut i: usize = 0;
    while i < LANGUAGE_COUNT
        invariant
            i <= LANGUAGE_COUNT,
            forall|j: int| 0 <= j < i ==> #[trigger] language_code(j) != Some(code@),
        decreases LANGUAGE_COUNT - i,
    {
        if let Some((known, _)) = language_at(i) {
            if same_text(known, code) {
                assert(language_code(i as int) == Some(code@));
                return i;
            }
        }
        i = i + 1;
    }
    assert(!is_offered(code@));
    0
}

// ---- the dialog's fields ------------------------------------------------

/// What the dialog holds.
#[derive(Debug, PartialEq, Eq)]
pub struct OptionsForm {
    pub language_index: i32,
    pub hotkey_open_dialog: String,
    pub hotkey_open_main_window: String,
    pub history_enabled: bool,
    pub history_max_items: i32,
    /// 0 is the top of the tree, 1 its bottom.
    pub history_position_index: i32,
    pub paste_delay_ms: i32,
    pub paste_restore_clipboard: bool,
}

/// The bounds of the dialog's two numbers, which are those of the settings.
#[derive(Debug, PartialEq, Eq)]
pub struct FormLimits {
    pub max_items_min: i32,
    pub max_items_max: i32,
    pub delay_min: i32,
    pub delay_max: i32,
}

/// The bounds of the dialog's two numbers.
pub fn form_limits() -> (r: FormLimits)
    ensures
        r.max_items_min == MAX_ITEMS_RANGE.0,
        r.max_items_max == MAX_ITEMS_RANGE.1,
        r.delay_min == DELAY_MS_RANGE.0,
        r.delay_max == DELAY_MS_RANGE.1,
{
    FormLimits {
        max_items_min: MAX_ITEMS_RANGE.0 as i32,
        max_items_max: MAX_ITEMS_RANGE.1 as i32,
        delay_min: DELAY_MS_RANGE.0 as i32,
        delay_max: DELAY_MS_RANGE.1 as i32,
    }
}

/// The value of an [`OptionsForm`].
pub struct FormView {
    pub language_index: i32,
    pub hotkey_open_dialog: Seq<char>,
    pub hotkey_open_main_window: Seq<char>,
    pub history_enabled: bool,
    pub history_max_items: i32,
    pub history_position_index: i32,
    pub paste_delay_ms: i32,
    pub paste_restore_clipboard: bool,
}

impl View for OptionsForm {
    type V = FormView;

    open spec fn view(&self) -> FormView {
        FormView {
            language_index: self.language_index,
            hotkey_open_dialog: self.hotkey_open_dialog@,
            hotkey_open_main_window: self.hotkey_open_main_window@,
            history_enabled: self.history_enabled,
            history_max_items: self.history_max_items,
            history_position_index: self.history_position_index,
            paste_delay_ms: self.paste_delay_ms,
            paste_restore_clipboard: self.paste_restore_clipboard,
        }
    }
}

/// Is this what the dialog shows of the settings?
pub open spec fn shows_settings(form: FormView, s: SettingsView) -> bool {
    &&& 0 <= form.language_index < LANGUAGE_COUNT
    &&& is_offered(s.language) ==> language_code(form.language_index as int) == Some(s.language)
    &&& !is_offered(s.language) ==> form.language_index == 0
    &&& form.hotkey_open_dialog == s.hotkeys.open_dialog
    &&& form.hotkey_open_main_window == s.hotkeys.open_main_window
    &&& form.history_enabled == s.clipboard_history.enabled
    &&& form.history_max_items == s.clipboard_history.max_items as i32
    &&& form.history_position_index == (if s.clipboard_history.position
        == HistoryPosition::Bottom {
        1i32
    } else {
        0i32
    })
    &&& form.paste_delay_ms == s.paste.delay_ms as i32
    &&& form.paste_restore_clipboard == s.paste.restore_clipboard
}

/// Fills the dialog from the settings. This is done every time the dialog opens: fields left
/// over from a cancelled edit would otherwise be taken for what the user wants.
pub fn seed_options_dialog(s: &Settings) -> (r: OptionsForm)
    ensures
        shows_settings(r@, s@),
{
    OptionsForm {
        language_index: lang_index_for_code(s.general.language.as_str()) as i32,
        hotkey_open_dialog: s.hotkeys.open_dialog.clone(),
        hotkey_open_main_window: s.hotkeys.open_main_window.clone(),
        history_enabled: s.clipboard_history.enabled,
        history_max_items: s.clipboard_history.max_items as i32,
        history_position_index: if s.clipboard_history.position == HistoryPosition::Bottom {
            1
        } else {
            0
        },
        paste_delay_ms: s.paste.delay_ms as i32,
        paste_restore_clipboard: s.paste.restore_clipboard,
    }
}

/// The settings that the dialog's fields ask for, on top of the current ones.
pub open spec fn form_settings(current: SettingsView, form: FormView) -> SettingsView {
    clamped_settings(
        SettingsView {
            language: match language_code(form.language_index as int) {
                Some(code) => code,
                None => current.language,
            },
            hotkeys: HotkeyTexts {
                open_dialog: trimmed(form.hotkey_open_dialog),
                open_main_window: trimmed(form.hotkey_open_main_window),
            },
            clipboard_history: HistoryOptions {
                enabled: form.history_enabled,
                max_items: if form.history_max_items > 0 {
                    form.history_max_items as u32
                } else {
                    0
                },
                position: if form.history_position_index == 0 {
                    HistoryPosition::Top
                } else {
                    HistoryPosition::Bottom
                },
            },
            paste: PasteOptions {
                delay_ms: if form.paste_delay_ms > 0 {
                    form.paste_delay_ms as u64
                } else {
                    0
                },
                restore_clipboard: form.paste_restore_clipboard,
            },
        },
    )
}

/// Reads the dialog's fields. Whatever they hold, the result is in range.
pub fn settings_from_dialog(current: &Settings, form: &OptionsForm) -> (r: Settings)
    ensures
        r@ == form_settings(current@, form@),
        in_range(r@),
{
    let mut s = current.clone();
    if form.language_index >= 0 {
        if let Some((code, _)) = language_at(form.language_index as usize) {
            s.general.language = code.to_owned();
        }
    }
    s.hotkeys.open_dialog = trim(form.hotkey_open_dialog.as_str());
    s.hotkeys.open_main_window = trim(form.hotkey_open_main_window.as_str());
    s.clipboard_history.enabled = form.history_enabled;
    s.clipboard_history.max_items = if form.history_max_items > 0 {
        form.history_max_items as u32
    } else {
        0
    };
    s.clipboard_history.position = if form.history_position_index == 0 {
        HistoryPosition::Top
    } else {
        HistoryPosition::Bottom
    };
    s.paste.delay_ms = if form.paste_delay_ms > 0 {
        form.paste_delay_ms as u64
    } else {
        0
    };
    s.paste.restore_clipboard = form.paste_restore_clipboard;
    s.clamp();
    s
}

/// Pressing OK in a dialog that nobody has touched changes nothing, for settings in range
/// whose language is offered and whose hotkeys have no blanks around them.
pub proof fn untouched_dialog_changes_nothing(s: SettingsView, form: FormView)
    requires
        in_range(s),
        is_offered(s.language),
        trimmed(s.hotkeys.open_dialog) == s.hotkeys.open_dialog,
        trimmed(s.hotkeys.open_main_window) == s.hotkeys.open_main_window,
        shows_settings(form, s),
    ensures
        form_settings(s, form) == s,
{
}

// ---- hotkeys ------------------------------------------------------------

/// The message for a hotkey that was refused.
pub open spec fn refusal_message(e: HotkeyError) -> Seq<char> {
    match e {
        HotkeyError::AlreadyGrabbed { .. } => "options-error-hotkey-taken"@,
        _ => "options-error-hotkey-invalid"@,
    }
}

fn message_for(e: &HotkeyError) -> (r: &'static str)
    ensures
        r@ == refusal_message(*e),
{
    match e {
        HotkeyError::AlreadyGrabbed { .. } => "options-error-hotkey-taken",
        _ => "options-error-hotkey-invalid",
    }
}

/// Registers `wanted` and, where that is refused, `fallback`. Gives the sequence that is live;
/// `wanted` also where neither is.
pub fn register_hotkey_with_fallback<H: GlobalHotkey>(
    hotkey: &mut H,
    id: u32,
    wanted: &str,
    fallback: &str,
) -> (r: String)
    ensures
        ({
            let before = old(hotkey).requests();
            let after = final(hotkey).requests();
            let first = after[before.len() as int];
            let second = after[before.len() as int + 1];
            &&& after.take(before.len() as int) == before
            &&& first.id == id && first.sequence == wanted@
            &&& after.len() == before.len() + (if first.outcome is Ok {
                1int
            } else {
                2int
            })
            &&& first.outcome is Err ==> second.id == id && second.sequence == fallback@
            &&& r@ == (if first.outcome is Err && second.outcome is Ok {
                fallback@
            } else {
                wanted@
            })
        }),
{
    let ghost before = hotkey.requests();
    match hotkey.register(id, wanted) {
        Ok(()) => {
            assert(hotkey.requests().take(before.len() as int) =~= before);
            wanted.to_owned()
        },
        Err(_) => {
            let second = hotkey.register(id, fallback);
            assert(hotkey.requests().take(before.len() as int) =~= before);
            match second {
                Ok(()) => fallback.to_owned(),
                Err(_) => wanted.to_owned(),
            }
        },
    }
}

/// What moving the hotkeys asks of the backend, and what it reports: the requests in order and
/// the message for the user, if any. `dialog`, `main` and `back` are the backend's answers to
/// the first, second and third request.
pub open spec fn reregistration(
    current: HotkeyTexts,
    wanted: HotkeyTexts,
    dialog: Result<(), HotkeyError>,
    main: Result<(), HotkeyError>,
    back: Result<(), HotkeyError>,
) -> (Seq<RegisterCall>, Option<Seq<char>>) {
    let to_dialog = RegisterCall {
        id: OPEN_DIALOG_ID,
        sequence: wanted.open_dialog,
        outcome: dialog,
    };
    let to_main = RegisterCall {
        id: OPEN_MAIN_WINDOW_ID,
        sequence: wanted.open_main_window,
        outcome: main,
    };
    let roll_back = RegisterCall {
        id: OPEN_DIALOG_ID,
        sequence: current.open_dialog,
        outcome: back,
    };
    if wanted.open_dialog == wanted.open_main_window {
        (Seq::empty(), Some("options-error-hotkey-duplicate"@))
    } else {
        match (dialog, main) {
            (Err(e), _) => (seq![to_dialog], Some(refusal_message(e))),
            (Ok(()), Err(e)) => (seq![to_dialog, to_main, roll_back], Some(refusal_message(e))),
            (Ok(()), Ok(())) => (seq![to_dialog, to_main], None),
        }
    }
}

/// Did moving the hotkeys go as [`reregistration`] says, for some answers of the backend?
pub open spec fn reregistered(
    before: Seq<RegisterCall>,
    after: Seq<RegisterCall>,
    current: HotkeyTexts,
    wanted: HotkeyTexts,
    message: Option<Seq<char>>,
) -> bool {
    exists|dialog: Result<(), HotkeyError>, main: Result<(), HotkeyError>, back: Result<
        (),
        HotkeyError,
    >|
        {
            let r = #[trigger] reregistration(current, wanted, dialog, main, back);
            after == before + r.0 && message == r.1
        }
}

pub open spec fn message_view(message: Option<&'static str>) -> Option<Seq<char>> {
    match message {
        Some(m) => Some(m@),
        None => None,
    }
}

/// Moves both hotkeys. Where the second is refused, the first goes back to what it was. Gives
/// the key of the message for the user, or none on success. One shortcut for both is refused
/// outright: only the first of the two would ever fire.
pub fn reregister_hotkeys<H: GlobalHotkey>(
    hotkey: &mut H,
    current: &HotkeySettings,
    wanted: &HotkeySettings,
) -> (r: Option<&'static str>)
    ensures
        reregistered(
            old(hotkey).requests(),
            final(hotkey).requests(),
            current@,
            wanted@,
            message_view(r),
        ),
{
    let ghost before = hotkey.requests();
    let ghost fine = Ok::<(), HotkeyError>(());
    if same_text(wanted.open_dialog.as_str(), wanted.open_main_window.as_str()) {
        proof {
            let r = reregistration(current@, wanted@, fine, fine, fine);
            assert(before =~= before + r.0);
        }
        return Some("options-error-hotkey-duplicate");
    }
    let dialog = hotkey.register(OPEN_DIALOG_ID, wanted.open_dialog.as_str());
    if let Err(e) = &dialog {
        proof {
            let r = reregistration(current@, wanted@, dialog, fine, fine);
            assert(hotkey.requests() =~= before + r.0);
        }
        return Some(message_for(e));
    }
    let main = hotkey.register(OPEN_MAIN_WINDOW_ID, wanted.open_main_window.as_str());
    if let Err(e) = &main {
        let back = hotkey.register(OPEN_DIALOG_ID, current.open_dialog.as_str());
        proof {
            let r = reregistration(current@, wanted@, dialog, main, back);
            assert(hotkey.requests() =~= before + r.0);
        }
        return Some(message_for(e));
    }
    proof {
        let r = reregistration(current@, wanted@, dialog, main, fine);
        assert(hotkey.requests() =~= before + r.0);
    }
    None
}

/// The sequences that are live after the requests: a request that succeeds moves its id, one
/// that fails changes nothing.
pub open spec fn live_sequences(
    start: Map<u32, Seq<char>>,
    requests: Seq<RegisterCall>,
) -> Map<u32, Seq<char>>
    decreases requests.len(),
{
    if requests.len() == 0 {
        start
    } else {
        let earlier = live_sequences(start, requests.drop_last());
        let last = requests.last();
        if last.outcome is Ok {
            earlier.insert(last.id, last.sequence)
        } else {
            earlier
        }
    }
}

/// After an attempt to move the hotkeys, the live ones are those wanted if there is no message.
/// If there is one they are those of before, unless the backend refuses to take one of its
/// own back.
pub proof fn hotkeys_end_as_wanted_or_as_before(
    start: Map<u32, Seq<char>>,
    current: HotkeyTexts,
    wanted: HotkeyTexts,
    dialog: Result<(), HotkeyError>,
    main: Result<(), HotkeyError>,
    back: Result<(), HotkeyError>,
)
    requires
        start.dom().contains(OPEN_DIALOG_ID),
        start.dom().contains(OPEN_MAIN_WINDOW_ID),
        start[OPEN_DIALOG_ID] == current.open_dialog,
        start[OPEN_MAIN_WINDOW_ID] == current.open_main_window,
    ensures
        ({
            let r = reregistration(current, wanted, dialog, main, back);
            let live = live_sequences(start, r.0);
            &&& r.1 is None ==> live == start.insert(OPEN_DIALOG_ID, wanted.open_dialog).insert(
                OPEN_MAIN_WINDOW_ID,
                wanted.open_main_window,
            )
            &&& r.1 is Some && back is Ok ==> live == start
            &&& r.1 is Some ==> live[OPEN_MAIN_WINDOW_ID] == current.open_main_window
        }),
{
    let r = reregistration(current, wanted, dialog, main, back);
    reveal_with_fuel(live_sequences, 4);
    let a = r.0;
    if a.len() == 1 {
        assert(a.drop_last() =~= Seq::<RegisterCall>::empty());
    } else if a.len() == 2 {
        assert(a.drop_last() =~= seq![a[0]]);
        assert(a.drop_last().drop_last() =~= Seq::<RegisterCall>::empty());
    } else if a.len() == 3 {
        assert(a.drop_last() =~= seq![a[0], a[1]]);
        assert(a.drop_last().drop_last() =~= seq![a[0]]);
        assert(a.drop_last().drop_last().drop_last() =~= Seq::<RegisterCall>::empty());
    }
    if r.1 is Some && back is Ok {
        assert(live_sequences(start, r.0) =~= start);
    }
}

// ---- applying -----------------------------------------------------------

/// A change of settings on its way: what to put in force, before it is known whether it could
/// be saved.
pub struct OptionsPlan {
    /// What to put in force and to save.
    pub settings: Settings,
    /// Is there anything to put in force?
    pub changed: bool,
    /// Did the hotkeys go back to what they were?
    pub hotkeys_reverted: bool,
    /// The key of the message for the user.
    pub message: Option<&'static str>,
    /// What the dialog's two numbers are to show: what was accepted.
    pub shown_max_items: i32,
    pub shown_delay_ms: i32,
}

/// The plan for a dialog, where `message` is what moving the hotkeys reported.
pub open spec fn is_plan(
    plan: OptionsPlan,
    current: SettingsView,
    candidate: SettingsView,
    message: Option<Seq<char>>,
) -> bool {
    let reverted = message is Some;
    let settings = if reverted {
        SettingsView { hotkeys: current.hotkeys, ..candidate }
    } else {
        candidate
    };
    &&& plan.settings@ == settings
    &&& plan.changed == (settings != current)
    &&& plan.hotkeys_reverted == reverted
    &&& message_view(plan.message) == message
    &&& plan.shown_max_items == candidate.clipboard_history.max_items
    &&& plan.shown_delay_ms == candidate.paste.delay_ms
}

/// Works out what the dialog's fields ask for and moves the hotkeys if they changed. A refused
/// hotkey takes back the hotkeys only: the user's other changes stay.
pub fn plan_options<H: GlobalHotkey>(hotkey: &mut H, current: &Settings, form: &OptionsForm) -> (r:
    OptionsPlan)
    ensures
        ({
            let candidate = form_settings(current@, form@);
            if candidate.hotkeys == current@.hotkeys {
                is_plan(r, current@, candidate, None) && final(hotkey).requests() == old(
                    hotkey,
                ).requests()
            } else {
                is_plan(r, current@, candidate, message_view(r.message)) && reregistered(
                    old(hotkey).requests(),
                    final(hotkey).requests(),
                    current@.hotkeys,
                    candidate.hotkeys,
                    message_view(r.message),
                )
            }
        }),
        in_range(current@) ==> in_range(r.settings@),
{
    let mut settings = settings_from_dialog(current, form);
    let shown_max_items: i32 = settings.clipboard_history.max_items as i32;
    let shown_delay_ms: i32 = settings.paste.delay_ms as i32;
    let mut message: Option<&'static str> = None;
    let mut hotkeys_reverted = false;
    if !settings.hotkeys.same_as(&current.hotkeys) {
        message = reregister_hotkeys(hotkey, &current.hotkeys, &settings.hotkeys);
        if message.is_some() {
            settings.hotkeys = current.hotkeys.clone();
            hotkeys_reverted = true;
        }
    }
    let changed = !settings.same_as(current);
    OptionsPlan {
        settings,
        changed,
        hotkeys_reverted,
        message,
        shown_max_items,
        shown_delay_ms,
    }
}

/// What is left to do once the settings of a plan are in force.
#[derive(Debug, PartialEq, Eq)]
pub struct OptionsOutcome {
    /// The key of the message for the user.
    pub message: Option<&'static str>,
    /// Must every open window change its language?
    pub relocalize: bool,
    /// Must the tree be built again? The label and the place of the history folder are rows of
    /// it.
    pub refresh_tree: bool,
}

/// Settles a plan that changes something, once it is known whether the settings were saved.
/// If not they are in force for this session, and the user is told so unless there is already
/// something to tell.
pub fn finish_options(plan: &OptionsPlan, current: &Settings, saved: bool) -> (r: OptionsOutcome)
    ensures
        message_view(r.message) == (if plan.message is None && !saved {
            Some("options-error-save-failed"@)
        } else {
            message_view(plan.message)
        }),
        r.relocalize == (plan.settings@.language != current@.language),
        r.refresh_tree == (plan.settings@.language != current@.language
            || plan.settings@.clipboard_history != current@.clipboard_history),
{
    let relocalize = !same_text(
        plan.settings.general.language.as_str(),
        current.general.language.as_str(),
    );
    let history_changed = !plan.settings.clipboard_history.same_as(&current.clipboard_history);
    let message = match plan.message {
        Some(m) => Some(m),
        None => if saved {
            None
        } else {
            Some("options-error-save-failed")
        },
    };
    OptionsOutcome { message, relocalize, refresh_tree: relocalize || history_changed }
}

} // verus!
