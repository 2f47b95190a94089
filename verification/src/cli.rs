//! The options of one run.

use crate::text::texts;
use vstd::prelude::*;

verus! {

/// The options of one run, as they are given on the command line.
#[derive(Debug, Clone, PartialEq, Eq)]
pub struct Cli {
    /// The sources to search, in order; `-` stands for standard input.
    pub filenames: Vec<String>,
    /// The named patterns, each written `NAME=REGEX`.
    pub patterns: Vec<String>,
    /// Keep the lines without a hit instead of those with one.
    pub invert_match: bool,
    /// Ignore letter case in patterns and input.
    pub ignore_case: bool,
    /// Colour the output.
    pub color: bool,
    /// Print, for each pattern, the number of kept lines per source.
    pub count: bool,
    /// Print, for each pattern, the sources with a kept line.
    pub files_with_matches: bool,
    /// Print, for each pattern, the sources without a kept line.
    pub files_without_match: bool,
    /// Print only the matching parts of the lines.
    pub only_matching: bool,
    /// Text put in front of every line of output.
    pub prefix: String,
    /// Put the source's name in front of each line.
    pub with_filename: bool,
    /// Put the line number in front of each line.
    pub line_number: bool,
    /// Leave out the heading of each pattern.
    pub hide_heading: bool,
    /// Put the pattern's name in front of each line.
    pub show_pattern: bool,
}

/// What a [`Cli`] holds, as mathematical values.
pub struct CliView {
    pub filenames: Seq<Seq<char>>,
    pub patterns: Seq<Seq<char>>,
    pub invert_match: bool,
    pub ignore_case: bool,
    pub color: bool,
    pub count: bool,
    pub files_with_matches: bool,
    pub files_without_match: bool,
    pub only_matching: bool,
    pub prefix: Seq<char>,
    pub with_filename: bool,
    pub line_number: bool,
    pub hide_heading: bool,
    pub show_pattern: bool,
}

impl View for Cli {
    type V = CliView;

    open spec fn view(&self) -> CliView {
        CliView {
            filenames: texts(self.filenames@),
            patterns: texts(self.patterns@),
            invert_match: self.invert_match,
            ignore_case: self.ignore_case,
            color: self.color,
            count: self.count,
            files_with_matches: self.files_with_matches,
            files_without_match: self.files_without_match,
            only_matching: self.only_matching,
            prefix: self.prefix@,
            with_filename: self.with_filename,
            line_number: self.line_number,
            hide_heading: self.hide_heading,
            show_pattern: self.show_pattern,
        }
    }
}

} // verus!
