//! A multi-pattern line search: named regular expressions are applied to
//! every line of every source, the hits are grouped by pattern name, and the
//! grouped result is rendered in one of five textual views.

pub mod cli;
pub mod matcher;
pub mod out;
pub mod paint;
pub mod pattern;
pub mod run;
pub mod search;
pub mod text;
pub mod utils;
