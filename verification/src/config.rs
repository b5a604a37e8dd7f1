//! What a printed comparison needs to know besides the two inputs.

use crate::color::{Color, ColorConfig};
use vstd::prelude::*;

verus! {

/// The settings of one printed comparison.
pub struct Config<'a> {
    pub color_config: ColorConfig,
    pub left_file: &'a str,
    pub right_file: &'a str,
}

/// Collects the settings of a [`Config`] one by one.
pub struct ConfigBuilder<'a> {
    color_config: Option<ColorConfig>,
    left_file: &'a str,
    right_file: &'a str,
}

/// Why a [`ConfigBuilder`] could not build its [`Config`].
#[derive(Debug, Clone, Copy, PartialEq, Eq, Structural)]
pub enum ConfigError {
    /// No colors were chosen.
    InvalidInput,
}

impl<'a> ConfigBuilder<'a> {
    /// The colors chosen so far.
    pub closed spec fn colors(self) -> Option<ColorConfig> {
        self.color_config
    }

    /// The name of the left file as set so far.
    pub closed spec fn left_name(self) -> &'a str {
        self.left_file
    }

    /// The name of the right file as set so far.
    pub closed spec fn right_name(self) -> &'a str {
        self.right_file
    }

    /// A builder with no colors chosen and both names empty.
    pub fn new() -> (builder: ConfigBuilder<'a>)
        ensures
            builder.colors() is None,
            builder.left_name()@ == Seq::<char>::empty(),
            builder.right_name()@ == Seq::<char>::empty(),
    {
        proof {
            reveal_strlit("");
        }
        ConfigBuilder { color_config: None, left_file: "", right_file: "" }
    }

    /// Sets the name of the left file.
    pub fn with_left_file(self, left_file: &'a str) -> (builder: ConfigBuilder<'a>)
        ensures
            builder.left_name() == left_file,
            builder.right_name() == self.right_name(),
            builder.colors() == self.colors(),
    {
        let mut builder = self;
        builder.left_file = left_file;
        builder
    }

    /// Sets the name of the right file.
    pub fn with_right_file(self, right_file: &'a str) -> (builder: ConfigBuilder<'a>)
        ensures
            builder.left_name() == self.left_name(),
            builder.right_name() == right_file,
            builder.colors() == self.colors(),
    {
        let mut builder = self;
        builder.right_file = right_file;
        builder
    }

    /// Chooses to show edited lines as they are.
    pub fn with_plain_colors(self) -> (builder: ConfigBuilder<'a>)
        ensures
            builder.left_name() == self.left_name(),
            builder.right_name() == self.right_name(),
            builder.colors() matches Some(colors) && colors.removed.is_plain()
                && colors.added.is_plain(),
    {
        let mut builder = self;
        builder.color_config = Some(ColorConfig::plain());
        builder
    }

    /// Chooses to show removed lines black on red and added lines black on
    /// green.
    pub fn with_colors(self) -> (builder: ConfigBuilder<'a>)
        ensures
            builder.left_name() == self.left_name(),
            builder.right_name() == self.right_name(),
            builder.colors() matches Some(colors) && colors.removed == Color::Black.spec_on(
                Color::Red,
            ) && colors.added == Color::Black.spec_on(Color::Green),
    {
        let mut builder = self;
        builder.color_config = Some(ColorConfig::colored());
        builder
    }

    /// The settings collected, or `InvalidInput` where no colors were chosen.
    pub fn build(self) -> (result: Result<Config<'a>, ConfigError>)
        ensures
            match self.colors() {
                Some(colors) => result matches Ok(config) && config.color_config == colors
                    && config.left_file == self.left_name() && config.right_file
                    == self.right_name(),
                None => result == Err::<Config<'a>, ConfigError>(ConfigError::InvalidInput),
            },
    {
        match self.color_config {
            Some(color_config) => Ok(
                Config { color_config, left_file: self.left_file, right_file: self.right_file },
            ),
            None => Err(ConfigError::InvalidInput),
        }
    }
}

} // verus!
