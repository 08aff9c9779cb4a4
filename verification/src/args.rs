//! The command line of the formatter as plain values.
use vstd::prelude::*;
use crate::config::Config;

verus! {

/// What the command line asks for.
#[derive(Debug)]
pub struct Args {
    /// The files to format.
    pub files: Vec<String>,
    /// The indent style by name: `space` or `tab`.
    pub indent_style: Option<String>,
    /// The longest line that attributes may make.
    pub max_line_length: i32,
}

impl Args {
    /// The options that these arguments ask for.
    pub fn config(self) -> (config: Config)
        ensures
            config.files == self.files,
            config.indent_style == Config::selected_style(self.indent_style),
            config.max_line_length == self.max_line_length,
    {
        Config::new(self.files).set_indent_style(self.indent_style).set_max_line_length(
            self.max_line_length,
        )
    }
}

} // verus!
