//! Stable application events: the widgets and the shell are written
//! against `AppEvent`/`AppKey`, never against a terminal crate, so a
//! change of backend touches only the translation layer.

use vstd::prelude::*;

verus! {

/// Logical key.
#[derive(Clone, Copy, Debug, PartialEq, Eq, Structural)]
pub enum AppKey {
    Char(char),
    Enter,
    Esc,
    Tab,
    Backspace,
    Delete,
    Up,
    Down,
    Left,
    Right,
    Home,
    End,
    PageUp,
    PageDown,
    F(u8),
    Unknown,
}

/// Application event.
#[derive(Clone, Copy, Debug, PartialEq, Eq, Structural)]
pub enum AppEvent {
    Key { key: AppKey, alt: bool, ctrl: bool },
    Resize(u16, u16),
}

impl AppEvent {
    /// A key press without modifiers.
    pub fn key(key: AppKey) -> (r: Self)
        ensures
            r == (AppEvent::Key { key, alt: false, ctrl: false }),
    {
        AppEvent::Key { key, alt: false, ctrl: false }
    }

    /// Whether this is the `Esc` key (with any modifiers).
    pub fn is_esc(self) -> (r: bool)
        ensures
            r == (self matches AppEvent::Key { key: AppKey::Esc, .. }),
    {
        match self {
            AppEvent::Key { key: AppKey::Esc, .. } => true,
            _ => false,
        }
    }
}

/// The event of a key with its modifiers: Alt sets `alt`; Control, Super
/// and Hyper all count as `ctrl`.
pub fn key_event(key: AppKey, alt: bool, control: bool, super_key: bool, hyper: bool) -> (r: AppEvent)
    ensures
        r == (AppEvent::Key { key, alt, ctrl: control || super_key || hyper }),
{
    AppEvent::Key { key, alt, ctrl: control || super_key || hyper }
}

/// A key press or repeat gives its event; a key release gives none.
pub fn press_event(key: AppKey, alt: bool, control: bool, super_key: bool, hyper: bool, release: bool) -> (r: Option<AppEvent>)
    ensures
        release ==> r is None,
        !release ==> r == Some(AppEvent::Key { key, alt, ctrl: control || super_key || hyper }),
{
    if release {
        None
    } else {
        Some(key_event(key, alt, control, super_key, hyper))
    }
}

} // verus!
