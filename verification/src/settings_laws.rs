//! What the settings, the options dialog and the choice of a language are for.
use crate::context::key_tail;
use crate::hotkey::{HotkeyError, RegisterCall, OPEN_DIALOG_ID, OPEN_MAIN_WINDOW_ID};
use crate::i18n::{
    is_choice, is_meant, is_shipped, label_picture, language_tag_of, shipped, TagView,
};
use crate::item::HistoryPosition;
use crate::options::{
    form_settings, is_offered, is_plan, language_code, language_codes_differ, language_label,
    message_view, refusal_message, reregistered, reregistration, shows_settings, FormView,
    OptionsPlan,
};
use crate::settings::{clamped_settings, default_settings, in_range, HotkeyTexts, SettingsView};
use crate::text::{is_ascii_alnum, trimmed};
use vstd::prelude::*;

verus! {

// ---- settings -----------------------------------------------------------

/// Law: the settings that a new installation starts with.
pub proof fn the_defaults()
    ensures
        default_settings().language == "system"@,
        default_settings().hotkeys.open_dialog == "Ctrl+Alt+V"@,
        default_settings().hotkeys.open_main_window == "Ctrl+Alt+M"@,
        default_settings().clipboard_history.enabled,
        default_settings().clipboard_history.max_items == 10,
        default_settings().clipboard_history.position == HistoryPosition::Bottom,
        default_settings().paste.delay_ms == 70,
        default_settings().paste.restore_clipboard,
        OPEN_DIALOG_ID == 1,
        OPEN_MAIN_WINDOW_ID == 2,
{
}

/// Law: a number that is out of range becomes the nearest one in it, and everything else stays.
/// A history has 1 to 500 entries, and a delay up to 5000 milliseconds.
pub proof fn numbers_are_brought_into_range(s: SettingsView)
    ensures
        ({
            let c = clamped_settings(s);
            &&& c.clipboard_history.max_items == (if s.clipboard_history.max_items < 1 {
                1u32
            } else if s.clipboard_history.max_items > 500 {
                500u32
            } else {
                s.clipboard_history.max_items
            })
            &&& c.paste.delay_ms == (if s.paste.delay_ms > 5000 {
                5000u64
            } else {
                s.paste.delay_ms
            })
            &&& c.language == s.language
            &&& c.hotkeys == s.hotkeys
            &&& c.clipboard_history.enabled == s.clipboard_history.enabled
            &&& c.clipboard_history.position == s.clipboard_history.position
            &&& c.paste.restore_clipboard == s.paste.restore_clipboard
        }),
        in_range(s) <==> 1 <= s.clipboard_history.max_items <= 500 && s.paste.delay_ms <= 5000,
{
}

// ---- the options dialog -------------------------------------------------

/// Law: the languages that the dialog offers, with their codes and their own names.
pub proof fn offered_languages(i: int)
    ensures
        language_code(0) == Some("system"@) && language_label(0) == "System default"@,
        language_code(1) == Some("en"@) && language_label(1) == "English"@,
        language_code(2) == Some("ru"@) && language_label(2) == "Русский"@,
        language_code(3) == Some("de"@) && language_label(3) == "Deutsch"@,
        language_code(4) == Some("es"@) && language_label(4) == "Español"@,
        language_code(5) == Some("zh_CN"@) && language_label(5) == "中文 (简体)"@,
        i < 0 || i > 5 ==> language_code(i) is None,
{
}

/// Law: what the dialog shows is what is in force, field by field.
pub proof fn the_dialog_shows_what_is_in_force(form: FormView, s: SettingsView)
    requires
        shows_settings(form, s),
        in_range(s),
    ensures
        form.hotkey_open_dialog == s.hotkeys.open_dialog,
        form.hotkey_open_main_window == s.hotkeys.open_main_window,
        form.history_enabled == s.clipboard_history.enabled,
        form.history_max_items == s.clipboard_history.max_items,
        form.history_position_index == 0 <==> s.clipboard_history.position == HistoryPosition::Top,
        form.history_position_index == 1 <==> s.clipboard_history.position
            == HistoryPosition::Bottom,
        form.paste_delay_ms == s.paste.delay_ms,
        form.paste_restore_clipboard == s.paste.restore_clipboard,
        s.language == "system"@ ==> form.language_index == 0,
        s.language == "en"@ ==> form.language_index == 1,
        s.language == "ru"@ ==> form.language_index == 2,
        s.language == "de"@ ==> form.language_index == 3,
        s.language == "es"@ ==> form.language_index == 4,
        s.language == "zh_CN"@ ==> form.language_index == 5,
        s.language != "system"@ && s.language != "en"@ && s.language != "ru"@ && s.language
            != "de"@ && s.language != "es"@ && s.language != "zh_CN"@ ==> form.language_index
            == 0,
{
    offered_languages(0);
    let at = form.language_index as int;
    if is_offered(s.language) {
        let i = choose|i: int| #[trigger] language_code(i) == Some(s.language);
        language_codes_differ(at, i);
        if s.language == "system"@ {
            language_codes_differ(at, 0);
        }
        if s.language == "en"@ {
            language_codes_differ(at, 1);
        }
        if s.language == "ru"@ {
            language_codes_differ(at, 2);
        }
        if s.language == "de"@ {
            language_codes_differ(at, 3);
        }
        if s.language == "es"@ {
            language_codes_differ(at, 4);
        }
        if s.language == "zh_CN"@ {
            language_codes_differ(at, 5);
        }
    } else {
        assert(language_code(0) != Some(s.language));
        assert(language_code(1) != Some(s.language));
        assert(language_code(2) != Some(s.language));
        assert(language_code(3) != Some(s.language));
        assert(language_code(4) != Some(s.language));
        assert(language_code(5) != Some(s.language));
    }
}

/// Law: what the dialog holds is what is put in force, field by field, with blanks around the
/// hotkeys taken off and the numbers brought into range. A language that is none of those
/// offered leaves the current one.
pub proof fn the_dialog_is_put_in_force(current: SettingsView, form: FormView)
    ensures
        ({
            let s = form_settings(current, form);
            &&& s.hotkeys.open_dialog == trimmed(form.hotkey_open_dialog)
            &&& s.hotkeys.open_main_window == trimmed(form.hotkey_open_main_window)
            &&& s.clipboard_history.enabled == form.history_enabled
            &&& s.clipboard_history.max_items == (if form.history_max_items < 1 {
                1
            } else if form.history_max_items > 500 {
                500
            } else {
                form.history_max_items as int
            })
            &&& form.history_position_index == 0 ==> s.clipboard_history.position
                == HistoryPosition::Top
            &&& form.history_position_index != 0 ==> s.clipboard_history.position
                == HistoryPosition::Bottom
            &&& s.paste.delay_ms == (if form.paste_delay_ms < 0 {
                0
            } else if form.paste_delay_ms > 5000 {
                5000
            } else {
                form.paste_delay_ms as int
            })
            &&& s.paste.restore_clipboard == form.paste_restore_clipboard
            &&& form.language_index == 0 ==> s.language == "system"@
            &&& form.language_index == 1 ==> s.language == "en"@
            &&& form.language_index == 2 ==> s.language == "ru"@
            &&& form.language_index == 3 ==> s.language == "de"@
            &&& form.language_index == 4 ==> s.language == "es"@
            &&& form.language_index == 5 ==> s.language == "zh_CN"@
            &&& form.language_index < 0 || form.language_index > 5 ==> s.language
                == current.language
        }),
{
}

/// Law: how the two hotkeys are moved. Two of one sequence are refused without asking. Else the
/// dialog's goes first, then the main window's, and where the second is refused the first goes
/// back. The user is told of a refusal, and of nothing else.
pub proof fn how_hotkeys_are_moved(
    current: HotkeyTexts,
    wanted: HotkeyTexts,
    dialog: Result<(), HotkeyError>,
    main: Result<(), HotkeyError>,
    back: Result<(), HotkeyError>,
)
    ensures
        ({
            let (asked, message) = reregistration(current, wanted, dialog, main, back);
            let one = RegisterCall { id: 1, sequence: wanted.open_dialog, outcome: dialog };
            let two = RegisterCall { id: 2, sequence: wanted.open_main_window, outcome: main };
            let undo = RegisterCall { id: 1, sequence: current.open_dialog, outcome: back };
            let same = wanted.open_dialog == wanted.open_main_window;
            &&& same ==> asked.len() == 0 && message == Some("options-error-hotkey-duplicate"@)
            &&& !same && dialog is Err ==> asked == seq![one] && message is Some
            &&& !same && dialog is Ok && main is Ok ==> asked == seq![one, two] && message is None
            &&& !same && dialog is Ok && main is Err ==> asked == seq![one, two, undo]
                && message is Some
            &&& !same && dialog is Err ==> message == Some(
                if dialog->Err_0 is AlreadyGrabbed {
                    "options-error-hotkey-taken"@
                } else {
                    "options-error-hotkey-invalid"@
                },
            )
            &&& !same && dialog is Ok && main is Err ==> message == Some(
                if main->Err_0 is AlreadyGrabbed {
                    "options-error-hotkey-taken"@
                } else {
                    "options-error-hotkey-invalid"@
                },
            )
        }),
{
}

/// Law: an attempt to move the hotkeys makes the requests that the answers call for, behind
/// those made before, and reports what follows from the answers.
pub proof fn moving_hotkeys_asks_and_reports(
    before: Seq<RegisterCall>,
    after: Seq<RegisterCall>,
    current: HotkeyTexts,
    wanted: HotkeyTexts,
    message: Option<Seq<char>>,
)
    requires
        reregistered(before, after, current, wanted, message),
        wanted.open_dialog != wanted.open_main_window,
    ensures
        ({
            let n = before.len() as int;
            &&& after.len() > n
            &&& after.take(n) == before
            &&& after[n].id == 1 && after[n].sequence == wanted.open_dialog
            &&& after[n].outcome is Err ==> after.len() == n + 1 && message is Some
            &&& after[n].outcome is Ok ==> {
                &&& after.len() > n + 1
                &&& after[n + 1].id == 2 && after[n + 1].sequence == wanted.open_main_window
                &&& after[n + 1].outcome is Ok ==> after.len() == n + 2 && message is None
                &&& after[n + 1].outcome is Err ==> after.len() == n + 3 && message is Some
                    && after[n + 2].id == 1 && after[n + 2].sequence == current.open_dialog
            }
        }),
{
    let (dialog, main, back) = choose|
        dialog: Result<(), HotkeyError>,
        main: Result<(), HotkeyError>,
        back: Result<(), HotkeyError>,
    |
        {
            let r = #[trigger] reregistration(current, wanted, dialog, main, back);
            after == before + r.0 && message == r.1
        };
    let r = reregistration(current, wanted, dialog, main, back);
    assert(after == before + r.0);
    assert(after.take(before.len() as int) =~= before);
}

/// Law: a refused hotkey takes back the hotkeys and nothing else; all other changes of the
/// dialog go into force. The dialog shows the numbers that were accepted.
pub proof fn a_refused_hotkey_costs_the_hotkeys_only(
    plan: OptionsPlan,
    current: SettingsView,
    candidate: SettingsView,
    message: Option<Seq<char>>,
)
    requires
        is_plan(plan, current, candidate, message),
    ensures
        plan.settings@.language == candidate.language,
        plan.settings@.clipboard_history == candidate.clipboard_history,
        plan.settings@.paste == candidate.paste,
        message is None ==> plan.settings@.hotkeys == candidate.hotkeys,
        message is Some ==> plan.settings@.hotkeys == current.hotkeys,
        plan.hotkeys_reverted <==> message is Some,
        plan.changed <==> plan.settings@ != current,
        plan.message is Some <==> message is Some,
        plan.message is Some ==> plan.message->0@ == message->0,
        plan.shown_max_items == candidate.clipboard_history.max_items,
        plan.shown_delay_ms == candidate.paste.delay_ms,
{
}

/// Law: what the user is told of a refused hotkey.
pub proof fn messages_of_refused_hotkeys(e: HotkeyError)
    ensures
        e is AlreadyGrabbed ==> refusal_message(e) == "options-error-hotkey-taken"@,
        !(e is AlreadyGrabbed) ==> refusal_message(e) == "options-error-hotkey-invalid"@,
        message_view(None) is None,
{
}

// ---- one instance -------------------------------------------------------

/// Law: an instance key keeps the last 180 characters of the path, or all of it if there are
/// no more, each letter and digit as it is and an underscore for everything else.
pub proof fn what_an_instance_key_keeps(path: Seq<char>, i: int)
    ensures
        key_tail(path).len() == (if path.len() > 180 {
            180
        } else {
            path.len()
        }),
        0 <= i < key_tail(path).len() ==> {
            let c = path[path.len() - key_tail(path).len() + i];
            key_tail(path)[i] == (if is_ascii_alnum(c) {
                c
            } else {
                '_'
            })
        },
{
}

// ---- languages ----------------------------------------------------------

/// Law: the languages that are shipped.
pub proof fn shipped_languages(i: int)
    ensures
        shipped(0) == Some(TagView { canonical: "de"@, language: "de"@ }),
        shipped(1) == Some(TagView { canonical: "en"@, language: "en"@ }),
        shipped(2) == Some(TagView { canonical: "es"@, language: "es"@ }),
        shipped(3) == Some(TagView { canonical: "ru"@, language: "ru"@ }),
        shipped(4) == Some(TagView { canonical: "zh-CN"@, language: "zh"@ }),
        i < 0 || i > 4 ==> shipped(i) is None,
{
}

/// Law: which texts are the tag of a shipped language.
pub proof fn shipped_tags(canonical: Seq<char>)
    ensures
        is_shipped(canonical) <==> canonical == "de"@ || canonical == "en"@ || canonical == "es"@
            || canonical == "ru"@ || canonical == "zh-CN"@,
{
    shipped_languages(0);
    if is_shipped(canonical) {
        let i = choose|i: int| (#[trigger] shipped(i)) matches Some(s) && s.canonical == canonical;
        shipped_languages(i);
        assert(0 <= i <= 4);
    }
    assert(shipped(0)->0.canonical == "de"@);
    assert(shipped(1)->0.canonical == "en"@);
    assert(shipped(2)->0.canonical == "es"@);
    assert(shipped(3)->0.canonical == "ru"@);
    assert(shipped(4)->0.canonical == "zh-CN"@);
}

/// Law: which language a setting means. A shipped one means itself; one that follows the system
/// means the shipped one of the system's language, whatever its country; anything else means
/// English.
pub proof fn which_language_is_meant(
    tag: Option<TagView>,
    system: bool,
    os: Option<TagView>,
    r: Seq<char>,
)
    requires
        is_choice(tag, system, os, r),
    ensures
        ({
            let named = tag is Some && (tag->0.canonical == "de"@ || tag->0.canonical == "en"@
                || tag->0.canonical == "es"@ || tag->0.canonical == "ru"@ || tag->0.canonical
                == "zh-CN"@);
            &&& named ==> r == tag->0.canonical
            &&& !named && !system ==> r == "en"@
            &&& !named && system && os is None ==> r == "en"@
            &&& !named && system && os is Some ==> {
                let l = os->0.language;
                &&& l == "de"@ ==> r == "de"@
                &&& l == "en"@ ==> r == "en"@
                &&& l == "es"@ ==> r == "es"@
                &&& l == "ru"@ ==> r == "ru"@
                &&& l == "zh"@ ==> r == "zh-CN"@
                &&& l != "de"@ && l != "en"@ && l != "es"@ && l != "ru"@ && l != "zh"@ ==> r
                    == "en"@
            }
        }),
{
    reveal_strlit("de");
    reveal_strlit("en");
    reveal_strlit("es");
    reveal_strlit("ru");
    reveal_strlit("zh");
    assert("de"@[0] == 'd' && "en"@[0] == 'e' && "es"@[0] == 'e' && "ru"@[0] == 'r' && "zh"@[0]
        == 'z');
    assert("en"@[1] == 'n' && "es"@[1] == 's');
    if tag is Some {
        shipped_tags(tag->0.canonical);
    }
    shipped_languages(0);
    if os is Some {
        let l = os->0.language;
        assert(shipped(0)->0.language == "de"@);
        assert(shipped(1)->0.language == "en"@);
        assert(shipped(2)->0.language == "es"@);
        assert(shipped(3)->0.language == "ru"@);
        assert(shipped(4)->0.language == "zh"@);
        assert(l == "de"@ ==> crate::i18n::is_shipped_for(l, "de"@));
        assert(l == "en"@ ==> crate::i18n::is_shipped_for(l, "en"@));
        assert(l == "es"@ ==> crate::i18n::is_shipped_for(l, "es"@));
        assert(l == "ru"@ ==> crate::i18n::is_shipped_for(l, "ru"@));
        assert(l == "zh"@ ==> crate::i18n::is_shipped_for(l, "zh-CN"@));
        if crate::i18n::is_shipped_for(l, r) {
            let i = choose|i: int|
                (#[trigger] shipped(i)) matches Some(s) && s.language == l && s.canonical == r;
            shipped_languages(i);
            assert(0 <= i <= 4);
        }
    }
}

/// Law: a setting is taken for what it reads as, follows the system if it says `system`, and
/// the system's language for what that reads as.
pub proof fn how_a_setting_is_read(language: Seq<char>, os: Option<Seq<char>>, r: Seq<char>)
    ensures
        os is Some ==> (is_meant(language, os, r) <==> is_choice(
            language_tag_of(language),
            language == "system"@,
            language_tag_of(os->0),
            r,
        )),
        os is None ==> (is_meant(language, os, r) <==> is_choice(
            language_tag_of(language),
            language == "system"@,
            None,
            r,
        )),
{
}

/// Law: three buttons have a picture in front of their label, and no other label has.
pub proof fn pictures_of_labels(key: Seq<char>)
    ensures
        label_picture("toolbar-add-folder"@) == "📁 "@,
        label_picture("toolbar-add-snippet"@) == "📄 "@,
        label_picture("toolbar-delete"@) == "🗑 "@,
        key != "toolbar-add-folder"@ && key != "toolbar-add-snippet"@ && key != "toolbar-delete"@
            ==> label_picture(key).len() == 0,
{
    reveal_strlit("toolbar-add-folder");
    reveal_strlit("toolbar-add-snippet");
    reveal_strlit("toolbar-delete");
    assert("toolbar-add-folder"@.len() != "toolbar-add-snippet"@.len());
    assert("toolbar-add-folder"@.len() != "toolbar-delete"@.len());
    assert("toolbar-delete"@.len() != "toolbar-add-snippet"@.len());
}

} // verus!
