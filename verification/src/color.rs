//! Colors for the lines that a comparison prints.
//!
//! The escape sequences themselves come from the `ansi_term` crate; this
//! module holds a plain description of a style and states what painting a
//! text with it returns.

use vstd::prelude::*;

verus! {

/// One of the eight standard terminal colors.
#[derive(Debug, Clone, Copy, PartialEq, Eq, Structural)]
pub enum Color {
    Black,
    Red,
    Green,
    Yellow,
    Blue,
    Purple,
    Cyan,
    White,
}

/// The colors in which a text is shown: those of its letters and of the
/// ground behind them, each left as the terminal has it where it is `None`.
#[derive(Debug, Clone, Copy, PartialEq, Eq, Structural)]
pub struct Style {
    pub foreground: Option<Color>,
    pub background: Option<Color>,
}

/// The styles of the two kinds of edited lines.
#[derive(Debug, Clone, Copy, PartialEq, Eq, Structural)]
pub struct ColorConfig {
    pub removed: Style,
    pub added: Style,
}

/// The last digit of a color's two escape codes: a foreground has the code
/// `3` and this digit, a background `4` and this digit.
pub open spec fn color_digit(color: Color) -> char {
    match color {
        Color::Black => '0',
        Color::Red => '1',
        Color::Green => '2',
        Color::Yellow => '3',
        Color::Blue => '4',
        Color::Purple => '5',
        Color::Cyan => '6',
        Color::White => '7',
    }
}

/// The escape sequence that switches a style on: nothing for the plain
/// style, else the background's code before the foreground's.
pub open spec fn style_prefix(style: Style) -> Seq<char> {
    match (style.background, style.foreground) {
        (None, None) => Seq::empty(),
        (Some(ground), None) => seq!['\x1b', '[', '4', color_digit(ground), 'm'],
        (None, Some(letters)) => seq!['\x1b', '[', '3', color_digit(letters), 'm'],
        (Some(ground), Some(letters)) => seq![
            '\x1b',
            '[',
            '4',
            color_digit(ground),
            ';',
            '3',
            color_digit(letters),
            'm',
        ],
    }
}

/// The escape sequence that switches a style off again: nothing for the
/// plain style, else the reset sequence.
pub open spec fn style_suffix(style: Style) -> Seq<char> {
    if style.is_plain() {
        Seq::empty()
    } else {
        seq!['\x1b', '[', '0', 'm']
    }
}

/// A text between the two escape sequences of a style.
pub open spec fn painted_text(style: Style, text: Seq<char>) -> Seq<char> {
    style_prefix(style) + text + style_suffix(style)
}

/// `ansi_term::Colour`, which is only handed on to `ansi_term`.
#[verifier::external_type_specification]
#[verifier::external_body]
pub struct ExAnsiColour(ansi_term::Colour);

/// The variant of `ansi_term::Colour` that has the name of `color`. Nothing
/// is stated of it here; what [`paint`] states rests on it.
#[verifier::external_body]
fn ansi_color(color: Color) -> ansi_term::Colour {
    match color {
        Color::Black => ansi_term::Colour::Black,
        Color::Red => ansi_term::Colour::Red,
        Color::Green => ansi_term::Colour::Green,
        Color::Yellow => ansi_term::Colour::Yellow,
        Color::Blue => ansi_term::Colour::Blue,
        Color::Purple => ansi_term::Colour::Purple,
        Color::Cyan => ansi_term::Colour::Cyan,
        Color::White => ansi_term::Colour::White,
    }
}

/// `ansi_term::Style::paint`, written out as a string.
///
/// The style handed over has the two colors of `style` and is otherwise the
/// default style. `ansi_term` writes the style's prefix, the text as it is,
/// and the style's suffix. The prefix is empty for a style without colors;
/// else it is `ESC [`, the background's code, a semicolon if both colors are
/// there, the foreground's code, and `m`. The suffix is empty for a style
/// without colors and `ESC [ 0 m` else.
#[verifier::external_body]
pub(crate) fn paint(style: &Style, text: &str) -> (painted: String)
    ensures
        painted@ == painted_text(*style, text@),
{
    let outside = ansi_term::Style {
        foreground: style.foreground.map(ansi_color),
        background: style.background.map(ansi_color),
        ..ansi_term::Style::default()
    };
    outside.paint(text).to_string()
}

impl Color {
    /// The style of letters in this color on a ground of another.
    pub open spec fn spec_on(self, background: Color) -> Style {
        Style { foreground: Some(self), background: Some(background) }
    }

    /// The style of letters in this color on a ground of another.
    #[verifier::when_used_as_spec(spec_on)]
    pub fn on(self, background: Color) -> (style: Style)
        ensures
            style == self.spec_on(background),
    {
        Style { foreground: Some(self), background: Some(background) }
    }
}

impl Style {
    /// Whether the style changes nothing.
    pub open spec fn is_plain(self) -> bool {
        self.foreground is None && self.background is None
    }

    /// The style that changes nothing.
    pub fn plain() -> (style: Style)
        ensures
            style.is_plain(),
    {
        Style { foreground: None, background: None }
    }
}

impl Default for Style {
    fn default() -> (style: Style)
        ensures
            style.is_plain(),
    {
        Style::plain()
    }
}

impl ColorConfig {
    /// Edited lines are shown as they are.
    pub fn plain() -> (config: ColorConfig)
        ensures
            config.removed.is_plain(),
            config.added.is_plain(),
    {
        ColorConfig { removed: Style::plain(), added: Style::plain() }
    }

    /// Removed lines are shown black on red, added lines black on green.
    pub fn colored() -> (config: ColorConfig)
        ensures
            config.removed == Color::Black.spec_on(Color::Red),
            config.added == Color::Black.spec_on(Color::Green),
    {
        ColorConfig {
            removed: Color::Black.on(Color::Red),
            added: Color::Black.on(Color::Green),
        }
    }
}

impl Default for ColorConfig {
    fn default() -> (config: ColorConfig)
        ensures
            config.removed.is_plain(),
            config.added.is_plain(),
    {
        ColorConfig::plain()
    }
}

} // verus!
