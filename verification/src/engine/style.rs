//! Global widget style: the four theming parameters.

use vstd::prelude::*;

use super::color::Color;

verus! {

/// The four global style parameters of a control.
#[derive(Clone, Copy, Debug, PartialEq, Eq, Structural)]
pub struct WidgetStyle {
    pub foreground_color: Color,
    pub background_color: Color,
    pub border_color: Color,
    pub has_shadow: bool,
}

impl Default for WidgetStyle {
    fn default() -> (r: Self)
        ensures
            r == (WidgetStyle {
                foreground_color: Color::White,
                background_color: Color::Blue,
                border_color: Color::Black,
                has_shadow: true,
            }),
    {
        WidgetStyle {
            foreground_color: Color::White,
            background_color: Color::Blue,
            border_color: Color::Black,
            has_shadow: true,
        }
    }
}

impl WidgetStyle {
    /// Style of the Clipper theme popups (blue, with shadow).
    pub fn clipper_popup() -> (r: Self)
        ensures
            r == (WidgetStyle {
                foreground_color: Color::White,
                background_color: Color::Blue,
                border_color: Color::Black,
                has_shadow: true,
            }),
    {
        WidgetStyle {
            foreground_color: Color::White,
            background_color: Color::Blue,
            border_color: Color::Black,
            has_shadow: true,
        }
    }

    /// Classic teal button style.
    pub fn clipper_button() -> (r: Self)
        ensures
            r == (WidgetStyle {
                foreground_color: Color::White,
                background_color: Color::Teal,
                border_color: Color::Black,
                has_shadow: true,
            }),
    {
        WidgetStyle {
            foreground_color: Color::White,
            background_color: Color::Teal,
            border_color: Color::Black,
            has_shadow: true,
        }
    }

    /// No shadow and no visible border (text controls).
    pub fn flat(foreground: Color, background: Color) -> (r: Self)
        ensures
            r == (WidgetStyle {
                foreground_color: foreground,
                background_color: background,
                border_color: background,
                has_shadow: false,
            }),
    {
        WidgetStyle {
            foreground_color: foreground,
            background_color: background,
            border_color: background,
            has_shadow: false,
        }
    }
}

} // verus!
