//! Colour themes: Clipper pastel by default, Turbo high contrast opt-in.
//! Widgets never hard-code colours: everything comes from here.

use vstd::prelude::*;

use super::cell::Cell;
use super::color::{Attr, Color};

verus! {

/// The full palette of the library.
#[derive(Clone, Copy, Debug, PartialEq, Eq, Structural)]
pub struct Theme {
    pub desktop: Color,
    pub work: Color,
    pub work_text: Color,
    pub navy: Color,
    pub teal: Color,
    pub popup: Color,
    pub popup_text: Color,
    pub hot: Color,
    pub select_bg: Color,
    pub select_fg: Color,
    pub button_bg: Color,
    pub button_fg: Color,
    pub shadow: Color,
    pub dialog: Color,
    pub dialog_text: Color,
    pub form_bg: Color,
    pub form_text: Color,
    pub field_bg: Color,
    pub window_bg: Color,
    pub status_bg: Color,
    pub status_fg: Color,
}

impl Theme {
    pub open spec fn spec_clipper() -> Theme {
        Theme {
            desktop: Color::Cyan,
            work: Color::White,
            work_text: Color::Black,
            navy: Color::Navy,
            teal: Color::Teal,
            popup: Color::Blue,
            popup_text: Color::White,
            hot: Color::Yellow,
            select_bg: Color::Grey,
            select_fg: Color::Black,
            button_bg: Color::Teal,
            button_fg: Color::White,
            shadow: Color::Black,
            dialog: Color::Mint,
            dialog_text: Color::Black,
            form_bg: Color::Black,
            form_text: Color::White,
            field_bg: Color::Grey,
            window_bg: Color::Grey,
            status_bg: Color::Navy,
            status_fg: Color::White,
        }
    }

    pub open spec fn spec_turbo() -> Theme {
        Theme {
            desktop: Color::DarkGrey,
            work: Color::Blue,
            work_text: Color::White,
            navy: Color::Navy,
            teal: Color::Teal,
            popup: Color::Grey,
            popup_text: Color::Black,
            hot: Color::Red,
            select_bg: Color::Black,
            select_fg: Color::White,
            button_bg: Color::Grey,
            button_fg: Color::Black,
            shadow: Color::Black,
            dialog: Color::Cyan,
            dialog_text: Color::Black,
            form_bg: Color::Blue,
            form_text: Color::White,
            field_bg: Color::Cyan,
            window_bg: Color::Grey,
            status_bg: Color::Navy,
            status_fg: Color::White,
        }
    }

    /// CA-Clipper pastel palette: cyan desktop, white work area, navy bars,
    /// teal menus, mid-blue popups, yellow hotkeys, grey+black selection,
    /// teal buttons, mint dialogs, black forms, hard black shadows.
    #[verifier::when_used_as_spec(spec_clipper)]
    pub fn clipper() -> (r: Self)
        ensures
            r == Theme::spec_clipper(),
    {
        Theme {
            desktop: Color::Cyan,
            work: Color::White,
            work_text: Color::Black,
            navy: Color::Navy,
            teal: Color::Teal,
            popup: Color::Blue,
            popup_text: Color::White,
            hot: Color::Yellow,
            select_bg: Color::Grey,
            select_fg: Color::Black,
            button_bg: Color::Teal,
            button_fg: Color::White,
            shadow: Color::Black,
            dialog: Color::Mint,
            dialog_text: Color::Black,
            form_bg: Color::Black,
            form_text: Color::White,
            field_bg: Color::Grey,
            window_bg: Color::Grey,
            status_bg: Color::Navy,
            status_fg: Color::White,
        }
    }

    /// Turbo Vision nostalgia: classic high contrast. Explicit opt-in.
    #[verifier::when_used_as_spec(spec_turbo)]
    pub fn turbo() -> (r: Self)
        ensures
            r == Theme::spec_turbo(),
    {
        Theme {
            desktop: Color::DarkGrey,
            work: Color::Blue,
            work_text: Color::White,
            navy: Color::Navy,
            teal: Color::Teal,
            popup: Color::Grey,
            popup_text: Color::Black,
            hot: Color::Red,
            select_bg: Color::Black,
            select_fg: Color::White,
            button_bg: Color::Grey,
            button_fg: Color::Black,
            shadow: Color::Black,
            dialog: Color::Cyan,
            dialog_text: Color::Black,
            form_bg: Color::Blue,
            form_text: Color::White,
            field_bg: Color::Cyan,
            window_bg: Color::Grey,
            status_bg: Color::Navy,
            status_fg: Color::White,
        }
    }

    pub open spec fn spec_desktop_attr(self) -> Attr {
        Attr { fg: self.desktop, bg: self.desktop, bold: false, dim: false }
    }

    #[verifier::when_used_as_spec(spec_desktop_attr)]
    pub fn desktop_attr(self) -> (r: Attr)
        ensures
            r == self.spec_desktop_attr(),
    {
        Attr::new(self.desktop, self.desktop)
    }

    pub open spec fn spec_work_attr(self) -> Attr {
        Attr { fg: self.work_text, bg: self.work, bold: false, dim: false }
    }

    #[verifier::when_used_as_spec(spec_work_attr)]
    pub fn work_attr(self) -> (r: Attr)
        ensures
            r == self.spec_work_attr(),
    {
        Attr::new(self.work_text, self.work)
    }

    pub open spec fn spec_top_attr(self) -> Attr {
        Attr { fg: self.status_fg, bg: self.navy, bold: true, dim: false }
    }

    #[verifier::when_used_as_spec(spec_top_attr)]
    pub fn top_attr(self) -> (r: Attr)
        ensures
            r == self.spec_top_attr(),
    {
        Attr::bold(self.status_fg, self.navy)
    }

    pub open spec fn spec_status_attr(self) -> Attr {
        Attr { fg: self.status_fg, bg: self.status_bg, bold: true, dim: false }
    }

    #[verifier::when_used_as_spec(spec_status_attr)]
    pub fn status_attr(self) -> (r: Attr)
        ensures
            r == self.spec_status_attr(),
    {
        Attr::bold(self.status_fg, self.status_bg)
    }

    pub open spec fn spec_popup_attr(self) -> Attr {
        Attr { fg: self.popup_text, bg: self.popup, bold: false, dim: false }
    }

    #[verifier::when_used_as_spec(spec_popup_attr)]
    pub fn popup_attr(self) -> (r: Attr)
        ensures
            r == self.spec_popup_attr(),
    {
        Attr::new(self.popup_text, self.popup)
    }

    pub open spec fn spec_popup_sel_attr(self) -> Attr {
        Attr { fg: self.select_fg, bg: self.select_bg, bold: true, dim: false }
    }

    #[verifier::when_used_as_spec(spec_popup_sel_attr)]
    pub fn popup_sel_attr(self) -> (r: Attr)
        ensures
            r == self.spec_popup_sel_attr(),
    {
        Attr::bold(self.select_fg, self.select_bg)
    }

    /// Selection bar of a work list: blue bar, white text.
    pub open spec fn spec_list_sel_attr(self) -> Attr {
        Attr { fg: self.popup_text, bg: self.popup, bold: true, dim: false }
    }

    #[verifier::when_used_as_spec(spec_list_sel_attr)]
    pub fn list_sel_attr(self) -> (r: Attr)
        ensures
            r == self.spec_list_sel_attr(),
    {
        Attr::bold(self.popup_text, self.popup)
    }

    pub open spec fn spec_hot_attr(self) -> Attr {
        Attr { fg: self.hot, bg: self.popup, bold: true, dim: false }
    }

    #[verifier::when_used_as_spec(spec_hot_attr)]
    pub fn hot_attr(self) -> (r: Attr)
        ensures
            r == self.spec_hot_attr(),
    {
        Attr::bold(self.hot, self.popup)
    }

    pub open spec fn spec_button_attr(self) -> Attr {
        Attr { fg: self.button_fg, bg: self.button_bg, bold: true, dim: false }
    }

    #[verifier::when_used_as_spec(spec_button_attr)]
    pub fn button_attr(self) -> (r: Attr)
        ensures
            r == self.spec_button_attr(),
    {
        Attr::bold(self.button_fg, self.button_bg)
    }

    pub open spec fn spec_dialog_attr(self) -> Attr {
        Attr { fg: self.dialog_text, bg: self.dialog, bold: false, dim: false }
    }

    #[verifier::when_used_as_spec(spec_dialog_attr)]
    pub fn dialog_attr(self) -> (r: Attr)
        ensures
            r == self.spec_dialog_attr(),
    {
        Attr::new(self.dialog_text, self.dialog)
    }

    pub open spec fn spec_form_attr(self) -> Attr {
        Attr { fg: self.form_text, bg: self.form_bg, bold: false, dim: false }
    }

    #[verifier::when_used_as_spec(spec_form_attr)]
    pub fn form_attr(self) -> (r: Attr)
        ensures
            r == self.spec_form_attr(),
    {
        Attr::new(self.form_text, self.form_bg)
    }

    pub open spec fn spec_field_attr(self) -> Attr {
        Attr { fg: Color::Black, bg: self.field_bg, bold: true, dim: false }
    }

    #[verifier::when_used_as_spec(spec_field_attr)]
    pub fn field_attr(self) -> (r: Attr)
        ensures
            r == self.spec_field_attr(),
    {
        Attr::bold(Color::Black, self.field_bg)
    }

    pub open spec fn spec_menu_attr(self, active: bool) -> Attr {
        if active {
            Attr { fg: Color::White, bg: Color::Black, bold: true, dim: false }
        } else {
            Attr { fg: Color::White, bg: self.teal, bold: true, dim: false }
        }
    }

    /// Menubar title: black bar when active, teal otherwise.
    #[verifier::when_used_as_spec(spec_menu_attr)]
    pub fn menu_attr(self, active: bool) -> (r: Attr)
        ensures
            r == self.spec_menu_attr(active),
    {
        if active {
            Attr::bold(Color::White, Color::Black)
        } else {
            Attr::bold(Color::White, self.teal)
        }
    }

    pub open spec fn spec_shadow_cell(self) -> Cell {
        Cell { ch: ' ', fg: self.shadow, bg: self.shadow, bold: false, dim: false }
    }

    #[verifier::when_used_as_spec(spec_shadow_cell)]
    pub fn shadow_cell(self) -> (r: Cell)
        ensures
            r == self.spec_shadow_cell(),
    {
        Cell::new(' ', self.shadow, self.shadow)
    }
}

impl Default for Theme {
    fn default() -> (r: Self)
        ensures
            r == Theme::spec_clipper(),
    {
        Self::clipper()
    }
}

} // verus!
