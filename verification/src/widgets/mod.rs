//! One-call controls: menus, lists, dialogs, progress, forms, tables.

pub mod calendar;
pub mod chart;
pub mod checkradio;
pub mod common;
pub mod dialog;
pub mod dropdown;
pub mod filedialog;
pub mod list;
pub mod focus;
pub mod form;
pub mod grid;
pub mod hyperlink;
pub mod input;
pub mod listbox;
pub mod popup;
pub mod menubar;
pub mod msgbox;
pub mod progress;
pub mod progressbar;
pub mod statusbar;
pub mod table;
pub mod tabs;
pub mod textarea;
