use fastpaste::clipboard_history::HistoryEntry;
use fastpaste::database::Database;
use fastpaste::editor::{commit_edit, mirror_selection_to_editor, EditQueue, PendingEdit};
use fastpaste::hotkey::{GlobalHotkey, HotkeyError, NullGlobalHotkey, OPEN_DIALOG_ID};
use fastpaste::i18n::{
    choose_locale, is_supported_tag, label_text, shipped_at, surface_keys, I18n, LanguageTag,
    SHIPPED_COUNT,
};
use fastpaste::item::{HistoryPosition, Item, ItemKind, Timestamp, HISTORY_FOLDER_ID};
use fastpaste::options::{
    finish_options, form_limits, lang_index_for_code, language_at, plan_options,
    register_hotkey_with_fallback, reregister_hotkeys, seed_options_dialog, settings_from_dialog,
    LANGUAGE_COUNT,
};
use fastpaste::paste_dialog::{paste_candidates, selected_text, stays_listed};
use fastpaste::settings::{
    HotkeySettings, Settings, SettingsFile, DELAY_MS_RANGE, MAX_ITEMS_RANGE,
};
use fastpaste::tree_builder::TreeItem;
use fastpaste::ui_state::{
    closing_quits, has_tray, hotkey_action, keep_main_window, keep_options, keep_selection,
    keep_tray, loop_mode, release_all, toggle_main_window, with_tray, HotkeyAction, LoopMode, Ui,
    WindowStep,
};
use std::sync::mpsc::Receiver;

// ---- settings -----------------------------------------------------------

#[test]
fn defaults_are_sensible() {
    let s = Settings::default();

    assert_eq!(s.general.language, "system");

    assert_eq!(s.hotkeys.open_dialog, "Ctrl+Alt+V");
    assert_eq!(s.hotkeys.open_main_window, "Ctrl+Alt+M");

    assert!(s.clipboard_history.enabled, "`enabled` must default true");
    assert_eq!(s.clipboard_history.max_items, 10);
    assert_eq!(s.clipboard_history.position, HistoryPosition::Bottom);

    assert_eq!(s.paste.delay_ms, 70);
    assert!(
        s.paste.restore_clipboard,
        "`restore_clipboard` must default true"
    );
}

#[test]
fn zero_max_items_is_clamped_up() {
    let mut s = Settings::default();
    s.clipboard_history.max_items = 0;
    s.clamp();
    assert_eq!(s.clipboard_history.max_items, MAX_ITEMS_RANGE.0);
}

#[test]
fn clamp_leaves_in_range_values_alone() {
    let mut s = Settings::default();
    let before = s.clone();
    s.clamp();
    assert_eq!(s, before);

    let mut s = Settings::default();
    s.clipboard_history.max_items = 250;
    s.paste.delay_ms = 3_000;
    s.clamp();
    assert_eq!(s.clipboard_history.max_items, 250);
    assert_eq!(s.paste.delay_ms, 3_000);
}

#[test]
fn defaults_are_inside_the_accepted_ranges() {
    let d = Settings::default();
    assert!((MAX_ITEMS_RANGE.0..=MAX_ITEMS_RANGE.1).contains(&d.clipboard_history.max_items));
    assert!((DELAY_MS_RANGE.0..=DELAY_MS_RANGE.1).contains(&d.paste.delay_ms));
}

#[test]
fn out_of_range_values_are_clamped_on_load() {
    let mut s = Settings::default();
    s.clipboard_history.max_items = 4000000000;
    s.paste.delay_ms = 999999999;
    let loaded = Settings::load(SettingsFile::Read(s));
    assert_eq!(loaded.settings.clipboard_history.max_items, MAX_ITEMS_RANGE.1);
    assert_eq!(loaded.settings.paste.delay_ms, DELAY_MS_RANGE.1);
    assert!(!loaded.move_aside);
    assert_eq!((MAX_ITEMS_RANGE.1, DELAY_MS_RANGE.1), (500, 5_000));
}

#[test]
fn a_missing_file_loads_defaults_without_creating_it() {
    let loaded = Settings::load(SettingsFile::Missing);
    assert_eq!(loaded.settings, Settings::default());
    assert!(!loaded.move_aside);
}

#[test]
fn a_corrupt_config_is_moved_aside_and_defaults_are_used() {
    let loaded = Settings::load(SettingsFile::Unreadable);
    assert_eq!(loaded.settings, Settings::default());
    assert!(loaded.move_aside, "the unreadable file must be preserved");
}

// ---- languages ----------------------------------------------------------

#[test]
fn language_codes_map_to_their_combobox_rows() {
    for i in 0..LANGUAGE_COUNT {
        let (code, _) = language_at(i).unwrap();
        assert_eq!(lang_index_for_code(code), i, "{code}");
    }
    assert!(language_at(LANGUAGE_COUNT).is_none());
    assert_eq!(language_at(2), Some(("ru", "Русский")));
}

#[test]
fn an_unknown_language_code_falls_back_to_system() {
    assert_eq!(lang_index_for_code("kl"), 0);
    assert_eq!(lang_index_for_code(""), 0);
    assert_eq!(
        language_at(0).unwrap().0,
        "system",
        "index 0 must stay `system`"
    );
}

#[test]
fn loader_embeds_the_five_shipped_locales() {
    let mut tags: Vec<&str> = (0..SHIPPED_COUNT)
        .map(|i| shipped_at(i).unwrap().0)
        .collect();
    tags.sort_unstable();
    assert_eq!(tags, vec!["de", "en", "es", "ru", "zh-CN"]);
}

#[test]
fn unknown_language_falls_back_to_english() {
    assert_eq!(I18n::new("klingon").locale(), "en");
    assert_eq!(I18n::new("").locale(), "en");
    assert_eq!(I18n::for_setting("").locale(), "en");
}

#[test]
fn underscore_chinese_tag_resolves_to_the_shipped_locale() {
    assert_eq!(I18n::new("zh_CN").locale(), "zh-CN");
    assert!(is_supported_tag("zh_CN"));
    assert!(!is_supported_tag("zh_TW"));
    assert!(!is_supported_tag("not a tag"));
}

#[test]
fn system_resolves_to_a_supported_locale() {
    let i18n = I18n::new("system");
    let supported: Vec<&str> = (0..SHIPPED_COUNT)
        .map(|i| shipped_at(i).unwrap().0)
        .collect();
    assert!(
        supported.contains(&i18n.locale().as_str()),
        "system resolved to {:?}, expected one of {:?}",
        i18n.locale(),
        supported
    );
}

#[test]
fn the_system_language_is_matched_by_its_language_alone() {
    let on = |os: &str| I18n::with_system("system", Some(os.to_string())).locale();
    assert_eq!(on("ru-RU"), "ru");
    assert_eq!(on("de-CH"), "de");
    assert_eq!(on("zh-Hant-TW"), "zh-CN");
    assert_eq!(on("fr-FR"), "en");
    assert_eq!(on("???"), "en");
    assert_eq!(I18n::with_system("system", None).locale(), "en");
    assert_eq!(
        I18n::with_system("ru", Some("de-DE".to_string())).locale(),
        "ru",
        "an explicit language wins"
    );
}

#[test]
fn a_tag_with_more_than_its_language_is_shipped_only_as_it_is() {
    let tag = |canonical: &str, language: &str| {
        Some(LanguageTag {
            canonical: canonical.to_string(),
            language: language.to_string(),
        })
    };
    assert_eq!(choose_locale(tag("en-US", "en"), false, None), "en");
    assert_eq!(choose_locale(tag("es", "es"), false, None), "es");
    assert_eq!(choose_locale(tag("system", "system"), true, tag("es-MX", "es")), "es");
}

#[test]
fn a_message_that_nobody_has_is_its_key() {
    let i18n = I18n::new("en");
    assert_eq!(
        i18n.msg("this-key-does-not-exist", None),
        "this-key-does-not-exist"
    );
    assert_eq!(i18n.msg("options-ok", Some("OK".to_string())), "OK");
}

#[test]
fn some_labels_carry_a_picture() {
    assert_eq!(label_text("toolbar-add-folder", "Folder"), "📁 Folder");
    assert_eq!(label_text("toolbar-add-snippet", "Snippet"), "📄 Snippet");
    assert_eq!(label_text("toolbar-delete", "Delete"), "🗑 Delete");
    assert_eq!(label_text("options-ok", "OK"), "OK");
    let keys = surface_keys();
    assert_eq!(keys.len(), 42);
    assert_eq!(keys[0], "app-title");
    assert_eq!(keys[41], "clipboard-history-folder");
}

// ---- options ------------------------------------------------------------

/// Hotkeys that refuse what they are told to.
struct Picky {
    refused: Vec<(u32, &'static str, HotkeyError)>,
    asked: Vec<(u32, String)>,
}

impl Picky {
    fn new(refused: Vec<(u32, &'static str, HotkeyError)>) -> Self {
        Picky {
            refused,
            asked: Vec::new(),
        }
    }
}

impl GlobalHotkey for Picky {
    fn register(&mut self, id: u32, sequence: &str) -> Result<(), HotkeyError> {
        self.asked.push((id, sequence.to_string()));
        match self
            .refused
            .iter()
            .position(|(i, s, _)| *i == id && *s == sequence)
        {
            Some(i) => Err(self.refused.remove(i).2),
            None => Ok(()),
        }
    }

    fn unregister(&mut self, _id: u32) {}

    fn events(&mut self) -> Receiver<u32> {
        std::sync::mpsc::channel().1
    }
}

fn taken(key: &str) -> HotkeyError {
    HotkeyError::AlreadyGrabbed {
        key: key.to_string(),
        mods: 0,
    }
}

fn hotkeys(open_dialog: &str, open_main_window: &str) -> HotkeySettings {
    HotkeySettings {
        open_dialog: open_dialog.to_string(),
        open_main_window: open_main_window.to_string(),
    }
}

#[test]
fn a_refused_hotkey_falls_back_to_the_default() {
    let mut h = Picky::new(vec![(1, "nonsense", HotkeyError::BadSequence(String::new()))]);
    assert_eq!(
        register_hotkey_with_fallback(&mut h, 1, "nonsense", "Ctrl+Alt+V"),
        "Ctrl+Alt+V"
    );
    let mut h = Picky::new(vec![
        (1, "nonsense", HotkeyError::BadSequence(String::new())),
        (1, "Ctrl+Alt+V", taken("Ctrl+Alt+V")),
    ]);
    assert_eq!(
        register_hotkey_with_fallback(&mut h, 1, "nonsense", "Ctrl+Alt+V"),
        "nonsense",
        "neither is live"
    );
    let mut h = NullGlobalHotkey::new();
    assert_eq!(
        register_hotkey_with_fallback(&mut h, OPEN_DIALOG_ID, "Ctrl+U", "Ctrl+Alt+V"),
        "Ctrl+U"
    );
}

#[test]
fn moving_the_hotkeys_is_all_or_nothing() {
    let current = hotkeys("Ctrl+1", "Ctrl+2");
    let wanted = hotkeys("Ctrl+3", "Ctrl+4");
    let mut h = Picky::new(Vec::new());
    assert_eq!(reregister_hotkeys(&mut h, &current, &wanted), None);
    assert_eq!(
        h.asked,
        vec![(1, "Ctrl+3".to_string()), (2, "Ctrl+4".to_string())]
    );

    let mut h = Picky::new(vec![(2, "Ctrl+4", taken("Ctrl+4"))]);
    assert_eq!(
        reregister_hotkeys(&mut h, &current, &wanted),
        Some("options-error-hotkey-taken")
    );
    assert_eq!(
        h.asked.last(),
        Some(&(1, "Ctrl+1".to_string())),
        "the first goes back"
    );

    let mut h = Picky::new(vec![(1, "Ctrl+3", HotkeyError::BadSequence(String::new()))]);
    assert_eq!(
        reregister_hotkeys(&mut h, &current, &wanted),
        Some("options-error-hotkey-invalid")
    );
    assert_eq!(h.asked.len(), 1);

    let mut h = Picky::new(Vec::new());
    assert_eq!(
        reregister_hotkeys(&mut h, &current, &hotkeys("Ctrl+5", "Ctrl+5")),
        Some("options-error-hotkey-duplicate")
    );
    assert!(h.asked.is_empty());
}

#[test]
fn an_untouched_dialog_changes_nothing() {
    let current = Settings::default();
    let form = seed_options_dialog(&current);
    assert_eq!(settings_from_dialog(&current, &form), current);
    let mut h = Picky::new(Vec::new());
    let plan = plan_options(&mut h, &current, &form);
    assert!(!plan.changed);
    assert!(h.asked.is_empty());
}

#[test]
fn the_dialogs_fields_are_read_in_range() {
    let current = Settings::default();
    let mut form = seed_options_dialog(&current);
    form.language_index = 2;
    form.hotkey_open_dialog = "  Ctrl+K ".to_string();
    form.history_max_items = -5;
    form.history_position_index = 0;
    form.paste_delay_ms = 90_000;
    let s = settings_from_dialog(&current, &form);
    assert_eq!(s.general.language, "ru");
    assert_eq!(s.hotkeys.open_dialog, "Ctrl+K");
    assert_eq!(s.clipboard_history.max_items, 1);
    assert_eq!(s.clipboard_history.position, HistoryPosition::Top);
    assert_eq!(s.paste.delay_ms, 5_000);
    form.language_index = 77;
    assert_eq!(settings_from_dialog(&current, &form).general.language, "system");
    form.language_index = -1;
    assert_eq!(settings_from_dialog(&current, &form).general.language, "system");
    let limits = form_limits();
    assert_eq!((limits.max_items_min, limits.max_items_max), (1, 500));
    assert_eq!((limits.delay_min, limits.delay_max), (0, 5_000));
}

#[test]
fn a_refused_hotkey_does_not_take_the_other_changes_with_it() {
    let current = Settings::default();
    let mut form = seed_options_dialog(&current);
    form.hotkey_open_dialog = "Ctrl+K".to_string();
    form.language_index = 1;
    let mut h = Picky::new(vec![(1, "Ctrl+K", taken("Ctrl+K"))]);
    let plan = plan_options(&mut h, &current, &form);
    assert!(plan.changed);
    assert!(plan.hotkeys_reverted);
    assert_eq!(plan.settings.hotkeys, current.hotkeys);
    assert_eq!(plan.settings.general.language, "en");
    let outcome = finish_options(&plan, &current, false);
    assert_eq!(outcome.message, Some("options-error-hotkey-taken"));
    assert!(outcome.relocalize);
    assert!(outcome.refresh_tree);
}

#[test]
fn settings_that_could_not_be_saved_are_reported() {
    let current = Settings::default();
    let mut form = seed_options_dialog(&current);
    form.paste_delay_ms = 10;
    let mut h = Picky::new(Vec::new());
    let plan = plan_options(&mut h, &current, &form);
    assert_eq!(plan.shown_delay_ms, 10);
    let outcome = finish_options(&plan, &current, false);
    assert_eq!(outcome.message, Some("options-error-save-failed"));
    assert!(!outcome.relocalize && !outcome.refresh_tree);
    assert_eq!(finish_options(&plan, &current, true).message, None);
}

// ---- the editor ---------------------------------------------------------

#[test]
fn typing_adds_up_and_another_row_is_stored_first() {
    let mut queue = EditQueue::new();
    assert_eq!(queue.queue_edit(1, Some("a".to_string()), None), None);
    assert_eq!(queue.queue_edit(1, Some("ab".to_string()), None), None);
    assert_eq!(queue.queue_edit(1, None, Some("body".to_string())), None);
    assert_eq!(
        queue.queue_edit(2, Some("x".to_string()), None),
        Some(PendingEdit {
            id: 1,
            title: Some("ab".to_string()),
            body: Some("body".to_string()),
        })
    );
    assert_eq!(queue.flush_pending_edit().map(|e| e.id), Some(2));
    assert_eq!(queue.flush_pending_edit(), None);
}

#[test]
fn a_change_is_stored_unless_its_row_is_gone() {
    let mut db = Database::new(Some(1));
    let mut item = Item::new_plain(0, "old", "body");
    db.insert(&mut item).unwrap();
    let edit = |id| PendingEdit {
        id,
        title: Some("new".to_string()),
        body: None,
    };
    assert_eq!(commit_edit(&mut db, edit(item.id.unwrap())), Ok(true));
    let stored = db.get(item.id.unwrap()).unwrap().unwrap();
    assert_eq!(stored.title, "new");
    assert_eq!(stored.body_plain, "body");
    assert_eq!(commit_edit(&mut db, edit(4242)), Ok(false));
}

fn tree_row(id: i32, kind: ItemKind, text: &str, user_data: &str) -> TreeItem {
    let mut r = TreeItem::leaf(id, -1, 0, text, user_data);
    r.item_type = kind.as_i64() as i32;
    r
}

#[test]
fn the_editor_shows_what_is_stored() {
    let mut db = Database::new(Some(1));
    let mut item = Item::new_plain(0, "fresh title", "fresh body");
    db.insert(&mut item).unwrap();
    let mut f = Item::new_folder(0, "folder");
    db.insert(&mut f).unwrap();
    let rows = vec![
        tree_row(item.id.unwrap() as i32, ItemKind::Plain, "stale title", "stale"),
        tree_row(f.id.unwrap() as i32, ItemKind::Folder, "folder", ""),
        tree_row(-2, ItemKind::Plain, "label", "the whole text"),
        tree_row(HISTORY_FOLDER_ID as i32, ItemKind::Folder, "History", ""),
    ];
    let pane = mirror_selection_to_editor(&rows, 0, &db);
    assert_eq!((pane.title.as_str(), pane.body.as_str()), ("fresh title", "fresh body"));
    assert!(pane.title_enabled && pane.body_enabled);
    let pane = mirror_selection_to_editor(&rows, 1, &db);
    assert!(pane.title_enabled && !pane.body_enabled, "a folder can be renamed");
    let pane = mirror_selection_to_editor(&rows, 2, &db);
    assert_eq!((pane.title.as_str(), pane.body.as_str()), ("label", "the whole text"));
    assert!(!pane.title_enabled && !pane.body_enabled, "the history is a preview");
    let pane = mirror_selection_to_editor(&rows, 3, &db);
    assert_eq!(pane.title, "History");
    assert!(!pane.title_enabled && !pane.body_enabled);
    let pane = mirror_selection_to_editor(&rows, -1, &db);
    assert_eq!((pane.title.as_str(), pane.body.as_str()), ("", ""));
    assert!(!pane.title_enabled && !pane.body_enabled);
}

// ---- quick paste --------------------------------------------------------

fn entry(text: &str) -> HistoryEntry {
    HistoryEntry {
        text: text.to_string(),
        timestamp: Timestamp::now(),
    }
}

#[test]
fn captured_texts_come_before_snippets() {
    let history = vec![entry("two\nlines"), entry("")];
    let items = vec![
        Item::new_folder(0, "folder"),
        Item::new_plain(0, "Greeting", "Hello,\nWorld"),
    ];
    let all = paste_candidates(&history, &items, "history", "");
    assert_eq!(all.len(), 2);
    assert_eq!(all[0].title, "two lines");
    assert_eq!(all[0].tag, "history");
    assert_eq!(all[0].text, "two\nlines");
    assert_eq!(all[0].preview, "");
    assert_eq!(all[1].title, "Greeting");
    assert_eq!(all[1].preview, "Hello, World");
    assert_eq!(all[1].tag, "");
    assert_eq!(selected_text(&all, 1), Some("Hello,\nWorld".to_string()));
    assert_eq!(selected_text(&all, 2), None);
    assert_eq!(selected_text(&all, -1), None);
}

#[test]
fn the_filter_ignores_case_and_blanks() {
    let items = vec![
        Item::new_plain(0, "Greeting", "HELLO"),
        Item::new_plain(0, "Address", "1 High St"),
        Item::new_plain(0, "ПРИВЕТ", ""),
    ];
    let titles = |filter: &str| -> Vec<String> {
        paste_candidates(&[], &items, "", filter)
            .into_iter()
            .map(|c| c.title)
            .collect()
    };
    assert_eq!(titles("  hello "), ["Greeting"]);
    assert_eq!(titles("GREET"), ["Greeting"]);
    assert_eq!(titles("привет"), ["ПРИВЕТ"]);
    assert_eq!(titles("e"), ["Greeting", "Address"]);
    assert_eq!(titles("nothing"), Vec::<String>::new());
    assert_eq!(titles("   ").len(), 3);
    assert!(stays_listed("greeting", "", "eet"));
    assert!(!stays_listed("greeting", "hello", "x"));
    assert!(stays_listed("", "", ""));
}

// ---- windows ------------------------------------------------------------

type Windows = Ui<&'static str, &'static str, &'static str, &'static str>;

#[test]
fn windows_are_kept_until_released() {
    let mut ui: Windows = Ui::default();
    assert!(!has_tray(&ui));
    assert_eq!(loop_mode(&ui), LoopMode::UntilQuit);
    assert!(closing_quits(&ui));
    assert_eq!(with_tray(&ui, |t: &&'static str| t.len()), None);
    assert_eq!(toggle_main_window(&ui, false), WindowStep::Build);
    keep_tray(&mut ui, "tray");
    keep_main_window(&mut ui, "main");
    keep_options(&mut ui, "options");
    keep_selection(&mut ui, "selection");
    assert!(has_tray(&ui));
    assert_eq!(loop_mode(&ui), LoopMode::UntilClosed);
    assert!(!closing_quits(&ui));
    assert_eq!(with_tray(&ui, |t: &&'static str| t.len()), Some(4));
    assert_eq!(toggle_main_window(&ui, true), WindowStep::Hide);
    assert_eq!(toggle_main_window(&ui, false), WindowStep::Show);
    let released = release_all(&mut ui);
    assert_eq!(released.main_window, Some("main"));
    assert_eq!(released.options, Some("options"));
    assert_eq!(released.selection, Some("selection"));
    assert_eq!(released.tray, Some("tray"));
    assert!(ui.main_window.is_none() && !has_tray(&ui));
}

#[test]
fn hotkeys_open_their_windows() {
    assert_eq!(hotkey_action(1), Some(HotkeyAction::OpenDialog));
    assert_eq!(hotkey_action(2), Some(HotkeyAction::ToggleMainWindow));
    assert_eq!(hotkey_action(3), None);
}
