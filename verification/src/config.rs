//! The options of a formatting run.
use vstd::prelude::*;
use crate::models::IndentStyle;

verus! {

/// The options of a run: how to indent, when to wrap, and which files.
#[derive(Debug)]
pub struct Config {
    pub indent_style: IndentStyle,
    pub max_line_length: i32,
    pub files: Vec<String>,
}

impl Config {
    /// The style that an optional name selects: the named one, and tabs
    /// where there is no name or the name is not a style.
    pub open spec fn selected_style(indent_style: Option<String>) -> IndentStyle {
        match indent_style {
            Some(name) => match IndentStyle::parse_spec(name@) {
                Some(style) => style,
                None => IndentStyle::Tab,
            },
            None => IndentStyle::Tab,
        }
    }

    /// The default options for `files`: tabs, and lines of 80.
    pub fn new(files: Vec<String>) -> (config: Self)
        ensures
            config.indent_style == IndentStyle::Tab,
            config.max_line_length == 80,
            config.files == files,
    {
        Config { indent_style: IndentStyle::Tab, max_line_length: 80, files }
    }

    /// Selects the indent style by name; without a name, or with a name
    /// that is no style, tabs are selected.
    pub fn set_indent_style(self, indent_style: Option<String>) -> (config: Self)
        ensures
            config.indent_style == Self::selected_style(indent_style),
            config.max_line_length == self.max_line_length,
            config.files == self.files,
    {
        let mut config = self;
        config.indent_style = match indent_style {
            Some(indent_style) => match IndentStyle::parse(indent_style.as_str()) {
                Ok(style) => style,
                Err(_) => IndentStyle::default(),
            },
            None => IndentStyle::default(),
        };
        config
    }

    /// Sets the length above which attributes are put on lines of their own.
    pub fn set_max_line_length(self, max_line_length: i32) -> (config: Self)
        ensures
            config.max_line_length == max_line_length,
            config.indent_style == self.indent_style,
            config.files == self.files,
    {
        let mut config = self;
        config.max_line_length = max_line_length;
        config
    }
}

} // verus!
