//! `tui90`: a hand-made 90s text UI in the style of CA-Clipper.
//!
//! * `engine`: cells, colours, rectangles, the buffer with its diff, the
//!   screen with its save/restore stack, themes and the backend trait.
//! * `prim`: labels with hotkeys, buttons, windows, shadows, bars, icons
//!   and the sub-cell canvas.
//! * `widgets`: one-call controls (menus, lists, dialogs, forms, tables,
//!   calendar, ...) with pure key handling.
//! * `app`: the shell (events, focus, layout, function keys, `App`).

use vstd::prelude::*;

pub mod app;
pub mod engine;
pub mod prim;
pub mod text;
pub mod widgets;

pub use app::app::{App, ShellContent, menu_title_x, test_app};
pub use app::events::{AppEvent, AppKey};
pub use app::fkeys::{FKeyDef, draw_fkeys, match_fkey};
pub use app::focus::{Focus, Layer};
pub use app::layout::{DesktopLayout, centered as app_centered, desktop as app_desktop, popup as app_popup};
pub use engine::{
    Attr, Backend, Buffer, Cell, Color, DrawOp, Rect, Screen, ScreenStack, Snapshot, TestBackend, Theme,
    WidgetStyle,
};
pub use prim::button::{button, button_draw, button_width};
pub use prim::label::{HotAttrs, draw_hot_label, draw_text, fit_text, hot_key_of, parse_hotkey, visible_len};
pub use prim::separator::hsep;
pub use prim::shadow::{ShadowStyle, shadow, shadow_offset, shadow_solid, shadow_stipple, shadow_styled};
pub use prim::title::{status_bar, top_bar};
pub use prim::window::{WindowOpts, window};

verus! {

/// Version of the crate.
pub const VERSION: &'static str = "0.1.0";

} // verus!
