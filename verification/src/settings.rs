//! The application settings: defaults, accepted ranges, and what a settings file amounts to.
use crate::item::HistoryPosition;
use crate::text::same_text;
use vstd::prelude::*;

verus! {

/// Least and greatest accepted number of history entries. An unbounded number would turn a
/// typing error into a failed allocation; none at all would switch the history off silently.
pub const MAX_ITEMS_RANGE: (u32, u32) = (1, 500);

/// Least and greatest accepted paste delay, in milliseconds.
pub const DELAY_MS_RANGE: (u64, u64) = (0, 5000);

/// The language of the user interface.
#[derive(Debug, PartialEq, Eq)]
pub struct GeneralSettings {
    /// `system` follows the operating system; anything else is a language tag.
    pub language: String,
}

/// The global hotkeys.
#[derive(Debug, PartialEq, Eq)]
pub struct HotkeySettings {
    pub open_dialog: String,
    pub open_main_window: String,
}

/// The clipboard history.
#[derive(Debug, PartialEq, Eq)]
pub struct ClipboardHistorySettings {
    /// Are copies recorded?
    pub enabled: bool,
    pub max_items: u32,
    /// Where the history folder stands in the tree.
    pub position: HistoryPosition,
}

/// The paste sequence.
#[derive(Debug, PartialEq, Eq)]
pub struct PasteSettings {
    /// Milliseconds between writing the clipboard and sending the keystroke.
    pub delay_ms: u64,
    /// Does the clipboard get back what it held?
    pub restore_clipboard: bool,
}

/// Everything that is kept in the settings file.
#[derive(Debug, PartialEq, Eq)]
pub struct Settings {
    pub general: GeneralSettings,
    pub hotkeys: HotkeySettings,
    pub clipboard_history: ClipboardHistorySettings,
    pub paste: PasteSettings,
}

/// The value of [`HotkeySettings`].
pub struct HotkeyTexts {
    pub open_dialog: Seq<char>,
    pub open_main_window: Seq<char>,
}

/// The value of [`ClipboardHistorySettings`].
pub struct HistoryOptions {
    pub enabled: bool,
    pub max_items: u32,
    pub position: HistoryPosition,
}

/// The value of [`PasteSettings`].
pub struct PasteOptions {
    pub delay_ms: u64,
    pub restore_clipboard: bool,
}

/// The value of [`Settings`].
pub struct SettingsView {
    pub language: Seq<char>,
    pub hotkeys: HotkeyTexts,
    pub clipboard_history: HistoryOptions,
    pub paste: PasteOptions,
}

impl View for HotkeySettings {
    type V = HotkeyTexts;

    open spec fn view(&self) -> HotkeyTexts {
        HotkeyTexts { open_dialog: self.open_dialog@, open_main_window: self.open_main_window@ }
    }
}

impl View for ClipboardHistorySettings {
    type V = HistoryOptions;

    open spec fn view(&self) -> HistoryOptions {
        HistoryOptions {
            enabled: self.enabled,
            max_items: self.max_items,
            position: self.position,
        }
    }
}

impl View for PasteSettings {
    type V = PasteOptions;

    open spec fn view(&self) -> PasteOptions {
        PasteOptions { delay_ms: self.delay_ms, restore_clipboard: self.restore_clipboard }
    }
}

impl View for Settings {
    type V = SettingsView;

    open spec fn view(&self) -> SettingsView {
        SettingsView {
            language: self.general.language@,
            hotkeys: self.hotkeys@,
            clipboard_history: self.clipboard_history@,
            paste: self.paste@,
        }
    }
}

// ---- defaults -----------------------------------------------------------

/// The defaults. The two hotkeys differ by their key, not by a modifier: what drops a modifier
/// on the way cannot make one of them trigger the other.
pub open spec fn default_settings() -> SettingsView {
    SettingsView {
        language: "system"@,
        hotkeys: HotkeyTexts { open_dialog: "Ctrl+Alt+V"@, open_main_window: "Ctrl+Alt+M"@ },
        clipboard_history: HistoryOptions {
            enabled: true,
            max_items: 10,
            position: HistoryPosition::Bottom,
        },
        paste: PasteOptions { delay_ms: 70, restore_clipboard: true },
    }
}

impl Default for GeneralSettings {
    fn default() -> (r: Self)
        ensures
            r.language@ == default_settings().language,
    {
        GeneralSettings { language: "system".to_owned() }
    }
}

impl Default for HotkeySettings {
    fn default() -> (r: Self)
        ensures
            r@ == default_settings().hotkeys,
    {
        HotkeySettings {
            open_dialog: "Ctrl+Alt+V".to_owned(),
            open_main_window: "Ctrl+Alt+M".to_owned(),
        }
    }
}

impl Default for ClipboardHistorySettings {
    fn default() -> (r: Self)
        ensures
            r@ == default_settings().clipboard_history,
    {
        ClipboardHistorySettings {
            enabled: true,
            max_items: 10,
            position: HistoryPosition::Bottom,
        }
    }
}

impl Default for PasteSettings {
    fn default() -> (r: Self)
        ensures
            r@ == default_settings().paste,
    {
        PasteSettings { delay_ms: 70, restore_clipboard: true }
    }
}

impl Default for Settings {
    fn default() -> (r: Self)
        ensures
            r@ == default_settings(),
    {
        Settings {
            general: GeneralSettings::default(),
            hotkeys: HotkeySettings::default(),
            clipboard_history: ClipboardHistorySettings::default(),
            paste: PasteSettings::default(),
        }
    }
}

// ---- copies and comparison ----------------------------------------------

impl Clone for HotkeySettings {
    fn clone(&self) -> (r: Self)
        ensures
            r@ == self@,
    {
        HotkeySettings {
            open_dialog: self.open_dialog.clone(),
            open_main_window: self.open_main_window.clone(),
        }
    }
}

impl Clone for Settings {
    fn clone(&self) -> (r: Self)
        ensures
            r@ == self@,
    {
        Settings {
            general: GeneralSettings { language: self.general.language.clone() },
            hotkeys: self.hotkeys.clone(),
            clipboard_history: ClipboardHistorySettings {
                enabled: self.clipboard_history.enabled,
                max_items: self.clipboard_history.max_items,
                position: self.clipboard_history.position,
            },
            paste: PasteSettings {
                delay_ms: self.paste.delay_ms,
                restore_clipboard: self.paste.restore_clipboard,
            },
        }
    }
}

impl HotkeySettings {
    /// Are these the same hotkeys?
    pub fn same_as(&self, other: &Self) -> (r: bool)
        ensures
            r == (self@ == other@),
    {
        same_text(self.open_dialog.as_str(), other.open_dialog.as_str()) && same_text(
            self.open_main_window.as_str(),
            other.open_main_window.as_str(),
        )
    }
}

impl ClipboardHistorySettings {
    /// Are these the same options?
    pub fn same_as(&self, other: &Self) -> (r: bool)
        ensures
            r == (self@ == other@),
    {
        self.enabled == other.enabled && self.max_items == other.max_items && self.position
            == other.position
    }
}

impl Settings {
    /// Are these the same settings?
    pub fn same_as(&self, other: &Self) -> (r: bool)
        ensures
            r == (self@ == other@),
    {
        same_text(self.general.language.as_str(), other.general.language.as_str())
            && self.hotkeys.same_as(&other.hotkeys) && self.clipboard_history.same_as(
            &other.clipboard_history,
        ) && self.paste.delay_ms == other.paste.delay_ms && self.paste.restore_clipboard
            == other.paste.restore_clipboard
    }
}

// ---- ranges -------------------------------------------------------------

/// `v` brought into `low..=high`.
pub open spec fn clamped(v: int, low: int, high: int) -> int {
    if v < low {
        low
    } else if v > high {
        high
    } else {
        v
    }
}

/// Do the numbers lie in their accepted ranges?
pub open spec fn in_range(s: SettingsView) -> bool {
    &&& MAX_ITEMS_RANGE.0 <= s.clipboard_history.max_items <= MAX_ITEMS_RANGE.1
    &&& DELAY_MS_RANGE.0 <= s.paste.delay_ms <= DELAY_MS_RANGE.1
}

/// The settings with their numbers brought into the accepted ranges.
pub open spec fn clamped_settings(s: SettingsView) -> SettingsView {
    SettingsView {
        clipboard_history: HistoryOptions {
            max_items: clamped(
                s.clipboard_history.max_items as int,
                MAX_ITEMS_RANGE.0 as int,
                MAX_ITEMS_RANGE.1 as int,
            ) as u32,
            ..s.clipboard_history
        },
        paste: PasteOptions {
            delay_ms: clamped(
                s.paste.delay_ms as int,
                DELAY_MS_RANGE.0 as int,
                DELAY_MS_RANGE.1 as int,
            ) as u64,
            ..s.paste
        },
        ..s
    }
}

/// What reading the settings file gave.
pub enum SettingsFile {
    /// There is no file.
    Missing,
    /// There is a file, and it makes no sense.
    Unreadable,
    /// The file says this; what it leaves out has its default.
    Read(Settings),
}

/// The settings to start with, and whether the file is to be moved aside.
pub struct LoadedSettings {
    pub settings: Settings,
    pub move_aside: bool,
}

impl Settings {
    /// Brings numbers that are out of range into it. The settings file can be edited by hand,
    /// so the options dialog is not the only place a value comes from.
    pub fn clamp(&mut self)
        ensures
            final(self)@ == clamped_settings(old(self)@),
            in_range(final(self)@),
            in_range(old(self)@) ==> final(self)@ == old(self)@,
    {
        if self.clipboard_history.max_items < MAX_ITEMS_RANGE.0 {
            self.clipboard_history.max_items = MAX_ITEMS_RANGE.0;
        } else if self.clipboard_history.max_items > MAX_ITEMS_RANGE.1 {
            self.clipboard_history.max_items = MAX_ITEMS_RANGE.1;
        }
        if self.paste.delay_ms < DELAY_MS_RANGE.0 {
            self.paste.delay_ms = DELAY_MS_RANGE.0;
        } else if self.paste.delay_ms > DELAY_MS_RANGE.1 {
            self.paste.delay_ms = DELAY_MS_RANGE.1;
        }
    }

    /// The settings that a settings file amounts to. A file that makes no sense does not stop
    /// the application: it is kept aside and the defaults are used.
    pub fn load(file: SettingsFile) -> (r: LoadedSettings)
        ensures
            r.settings@ == (match file {
                SettingsFile::Read(s) => clamped_settings(s@),
                _ => default_settings(),
            }),
            r.move_aside == (file is Unreadable),
            in_range(r.settings@),
    {
        match file {
            SettingsFile::Missing => LoadedSettings {
                settings: Settings::default(),
                move_aside: false,
            },
            SettingsFile::Unreadable => LoadedSettings {
                settings: Settings::default(),
                move_aside: true,
            },
            SettingsFile::Read(s) => {
                let mut settings = s;
                settings.clamp();
                LoadedSettings { settings, move_aside: false }
            },
        }
    }
}

/// Bringing settings into range leaves them in range, changes nothing the second time, and
/// touches nothing but the two numbers. The defaults are in range.
pub proof fn clamping_settles(s: SettingsView)
    ensures
        in_range(clamped_settings(s)),
        clamped_settings(clamped_settings(s)) == clamped_settings(s),
        clamped_settings(s).language == s.language,
        clamped_settings(s).hotkeys == s.hotkeys,
        clamped_settings(s).clipboard_history.enabled == s.clipboard_history.enabled,
        clamped_settings(s).clipboard_history.position == s.clipboard_history.position,
        clamped_settings(s).paste.restore_clipboard == s.paste.restore_clipboard,
        in_range(s) <==> clamped_settings(s) == s,
        in_range(default_settings()),
{
}

} // verus!
