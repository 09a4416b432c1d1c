//! Core: virtual video memory (cells, rects, back-buffer with diff,
//! save/restore stack and colour themes).

pub mod cell;
pub mod color;
pub mod rect;
pub mod buffer;
pub mod style;
pub mod theme;
pub mod screen;
pub mod backend;

pub use backend::{Backend, TestBackend};
pub use buffer::{Buffer, DrawOp, Snapshot};
pub use cell::Cell;
pub use color::{Attr, Color};
pub use rect::Rect;
pub use screen::{Screen, ScreenStack};
pub use style::WidgetStyle;
pub use theme::Theme;
