//! Snippet manager: stored items, clipboard history, paste sequence, hotkeys and the
//! rules of the user interface, with the behaviour of each stated and proved.

pub mod clipboard;
pub mod clipboard_history;
pub mod clipboard_laws;
pub mod context;
pub mod crypto;
pub mod database;
pub mod devices;
pub mod dialog_laws;
pub mod editor;
pub mod editor_laws;
pub mod error;
pub mod file_laws;
pub mod grab_laws;
pub mod grabs;
pub mod history_laws;
pub mod hotkey;
pub mod i18n;
pub mod item;
pub mod key_laws;
pub mod key_names;
pub mod main_window;
pub mod opening;
pub mod options;
pub mod ordering;
pub mod paste_dialog;
pub mod paste_keys;
pub mod paste_laws;
pub mod paster;
pub mod reader;
pub mod replay;
pub mod row_laws;
pub mod secret_store;
pub mod settings;
pub mod settings_laws;
pub mod shortcut_laws;
pub mod store_laws;
pub mod table;
pub mod take_once;
pub mod text;
pub mod text_laws;
pub mod tree_builder;
pub mod tree_closing_laws;
pub mod tree_laws;
pub mod tree_view;
pub mod tree_view_laws;
pub mod ui_state;
pub mod uinput;
pub mod value_laws;
pub mod windows_hotkey;
pub mod x11;
