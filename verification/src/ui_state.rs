//! The open windows. A window that is hidden is kept: showing it again must not build it anew,
//! and lose its size and what was typed into it.
use vstd::prelude::*;

verus! {

/// The windows and the tray icon that are there. `M`, `O`, `S` and `T` are the handles of the
/// main window, the options dialog, the selection dialog and the tray icon.
#[derive(Debug)]
pub struct Ui<M, O, S, T> {
    pub main_window: Option<M>,
    pub options: Option<O>,
    pub selection: Option<S>,
    pub tray: Option<T>,
}

impl<M, O, S, T> Default for Ui<M, O, S, T> {
    fn default() -> (r: Self)
        ensures
            r == (Ui::<M, O, S, T> { main_window: None, options: None, selection: None, tray: None }),
    {
        Ui { main_window: None, options: None, selection: None, tray: None }
    }
}

/// Keeps the main window.
pub fn keep_main_window<M, O, S, T>(ui: &mut Ui<M, O, S, T>, win: M)
    ensures
        *final(ui) == (Ui { main_window: Some(win), ..*old(ui) }),
{
    ui.main_window = Some(win);
}

/// Keeps the options dialog.
pub fn keep_options<M, O, S, T>(ui: &mut Ui<M, O, S, T>, dialog: O)
    ensures
        *final(ui) == (Ui { options: Some(dialog), ..*old(ui) }),
{
    ui.options = Some(dialog);
}

/// Keeps the selection dialog.
pub fn keep_selection<M, O, S, T>(ui: &mut Ui<M, O, S, T>, dialog: S)
    ensures
        *final(ui) == (Ui { selection: Some(dialog), ..*old(ui) }),
{
    ui.selection = Some(dialog);
}

/// Keeps the tray icon.
pub fn keep_tray<M, O, S, T>(ui: &mut Ui<M, O, S, T>, tray: T)
    ensures
        *final(ui) == (Ui { tray: Some(tray), ..*old(ui) }),
{
    ui.tray = Some(tray);
}

/// Is there a tray icon?
pub fn has_tray<M, O, S, T>(ui: &Ui<M, O, S, T>) -> (r: bool)
    ensures
        r == (ui.tray is Some),
{
    ui.tray.is_some()
}

/// Hands `f` the tray icon, if there is one.
pub fn with_tray<M, O, S, T, R, F: FnOnce(&T) -> R>(ui: &Ui<M, O, S, T>, f: F) -> (r: Option<R>)
    requires
        ui.tray matches Some(tray) ==> call_requires(f, (&tray,)),
    ensures
        match r {
            Some(out) => ui.tray is Some && call_ensures(f, (&ui.tray->0,), out),
            None => ui.tray is None,
        },
{
    match &ui.tray {
        Some(tray) => Some(f(tray)),
        None => None,
    }
}

/// Hands out everything that is kept, and keeps nothing.
pub fn release_all<M, O, S, T>(ui: &mut Ui<M, O, S, T>) -> (r: Ui<M, O, S, T>)
    ensures
        r == *old(ui),
        *final(ui) == (Ui::<M, O, S, T> {
            main_window: None,
            options: None,
            selection: None,
            tray: None,
        }),
{
    Ui {
        main_window: ui.main_window.take(),
        options: ui.options.take(),
        selection: ui.selection.take(),
        tray: ui.tray.take(),
    }
}

/// What the event loop waits for.
#[derive(Clone, Copy, PartialEq, Eq, Debug, Structural)]
pub enum LoopMode {
    /// Until the last window and the tray icon are gone.
    UntilClosed,
    /// Until told to quit. Without a tray icon there is nothing open at the start, and the loop
    /// would end at once and take the hotkeys with it.
    UntilQuit,
}

/// How to run the event loop.
pub fn loop_mode<M, O, S, T>(ui: &Ui<M, O, S, T>) -> (r: LoopMode)
    ensures
        r == (if ui.tray is Some {
            LoopMode::UntilClosed
        } else {
            LoopMode::UntilQuit
        }),
{
    if has_tray(ui) {
        LoopMode::UntilClosed
    } else {
        LoopMode::UntilQuit
    }
}

/// Does closing the main window end the application? It does where nothing else could bring it
/// back.
pub fn closing_quits<M, O, S, T>(ui: &Ui<M, O, S, T>) -> (r: bool)
    ensures
        r == (ui.tray is None),
{
    !has_tray(ui)
}

/// What showing the main window comes to.
#[derive(Clone, Copy, PartialEq, Eq, Debug, Structural)]
pub enum WindowStep {
    /// There is none yet: build it, keep it, show it and fill it.
    Build,
    /// It is there and hidden: show it and bring it up to date.
    Show,
    /// It is in view: hide it.
    Hide,
}

/// What a click on the tray icon or the main window's hotkey comes to. `visible` is said of a
/// window that is there.
pub fn toggle_main_window<M, O, S, T>(ui: &Ui<M, O, S, T>, visible: bool) -> (r: WindowStep)
    ensures
        r == (if ui.main_window is None {
            WindowStep::Build
        } else if visible {
            WindowStep::Hide
        } else {
            WindowStep::Show
        }),
{
    if ui.main_window.is_none() {
        WindowStep::Build
    } else if visible {
        WindowStep::Hide
    } else {
        WindowStep::Show
    }
}

/// What a hotkey does.
#[derive(Clone, Copy, PartialEq, Eq, Debug, Structural)]
pub enum HotkeyAction {
    OpenDialog,
    ToggleMainWindow,
}

/// What the hotkey with this id does; nothing for an id that nobody registered.
pub fn hotkey_action(id: u32) -> (r: Option<HotkeyAction>)
    ensures
        r == (if id == crate::hotkey::OPEN_DIALOG_ID {
            Some(HotkeyAction::OpenDialog)
        } else if id == crate::hotkey::OPEN_MAIN_WINDOW_ID {
            Some(HotkeyAction::ToggleMainWindow)
        } else {
            None
        }),
{
    if id == crate::hotkey::OPEN_DIALOG_ID {
        Some(HotkeyAction::OpenDialog)
    } else if id == crate::hotkey::OPEN_MAIN_WINDOW_ID {
        Some(HotkeyAction::ToggleMainWindow)
    } else {
        None
    }
}

} // verus!
