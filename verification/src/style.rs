//! Terminal text styles: colors and modifier flags, with the same meaning
//! as the style type of the terminal UI toolkit that renders them.

use vstd::prelude::*;

verus! {

/// Bold text.
pub const BOLD: u16 = 0x001;
/// Dimmed text.
pub const DIM: u16 = 0x002;
/// Italic text.
pub const ITALIC: u16 = 0x004;
/// Underlined text.
pub const UNDERLINED: u16 = 0x008;
/// Slowly blinking text.
pub const SLOW_BLINK: u16 = 0x010;
/// Rapidly blinking text.
pub const RAPID_BLINK: u16 = 0x020;
/// Reversed foreground and background.
pub const REVERSED: u16 = 0x040;
/// Hidden text.
pub const HIDDEN: u16 = 0x080;
/// Crossed-out text.
pub const CROSSED_OUT: u16 = 0x100;

/// A terminal color.
#[derive(Clone, Copy, Debug, PartialEq, Eq, Structural)]
pub enum Color {
    Reset,
    Black,
    Red,
    Green,
    Yellow,
    Blue,
    Magenta,
    Cyan,
    Gray,
    DarkGray,
    LightRed,
    LightGreen,
    LightYellow,
    LightBlue,
    LightMagenta,
    LightCyan,
    White,
    Rgb(u8, u8, u8),
    Indexed(u8),
}

/// A text style: optional colors, the modifiers it adds and the modifiers it
/// removes (both as bit sets of the flags above).
#[derive(Clone, Copy, Debug, PartialEq, Eq, Structural)]
pub struct Style {
    pub fg: Option<Color>,
    pub bg: Option<Color>,
    pub add_modifier: u16,
    pub sub_modifier: u16,
}

impl Style {
    /// The empty style: no colors, no modifiers.
    pub open spec fn empty() -> Style {
        Style { fg: None, bg: None, add_modifier: 0, sub_modifier: 0 }
    }

    /// The style with its foreground set to `c`.
    pub open spec fn spec_with_fg(self, c: Color) -> Style {
        Style { fg: Some(c), bg: self.bg, add_modifier: self.add_modifier, sub_modifier: self.sub_modifier }
    }

    /// The style with its background set to `c`.
    pub open spec fn spec_with_bg(self, c: Color) -> Style {
        Style { fg: self.fg, bg: Some(c), add_modifier: self.add_modifier, sub_modifier: self.sub_modifier }
    }

    /// Adding modifiers `m`: they join the added set and leave the removed set.
    pub open spec fn spec_with_modifier(self, m: u16) -> Style {
        Style { fg: self.fg, bg: self.bg, add_modifier: self.add_modifier | m, sub_modifier: self.sub_modifier & !m }
    }

    /// Removing modifiers `m`: they leave the added set and join the removed set.
    pub open spec fn spec_without_modifier(self, m: u16) -> Style {
        Style { fg: self.fg, bg: self.bg, add_modifier: self.add_modifier & !m, sub_modifier: self.sub_modifier | m }
    }

    /// The empty style.
    pub fn new() -> (s: Style)
        ensures
            s == Style::empty(),
    {
        Style { fg: None, bg: None, add_modifier: 0, sub_modifier: 0 }
    }

    /// Sets the foreground color.
    pub fn with_fg(self, c: Color) -> (s: Style)
        ensures
            s == self.spec_with_fg(c),
    {
        Style { fg: Some(c), bg: self.bg, add_modifier: self.add_modifier, sub_modifier: self.sub_modifier }
    }

    /// Sets the background color.
    pub fn with_bg(self, c: Color) -> (s: Style)
        ensures
            s == self.spec_with_bg(c),
    {
        Style { fg: self.fg, bg: Some(c), add_modifier: self.add_modifier, sub_modifier: self.sub_modifier }
    }

    /// Adds the modifiers `m`.
    pub fn with_modifier(self, m: u16) -> (s: Style)
        ensures
            s == self.spec_with_modifier(m),
    {
        Style { fg: self.fg, bg: self.bg, add_modifier: self.add_modifier | m, sub_modifier: self.sub_modifier & !m }
    }

    /// Removes the modifiers `m`.
    pub fn without_modifier(self, m: u16) -> (s: Style)
        ensures
            s == self.spec_without_modifier(m),
    {
        Style { fg: self.fg, bg: self.bg, add_modifier: self.add_modifier & !m, sub_modifier: self.sub_modifier | m }
    }
}

} // verus!
