//! Colouring of pieces of output, done by the `colored` crate.
//!
//! Whether `colored` emits escape sequences depends on a switch that it
//! keeps for the whole process and sets from the terminal and from
//! variables such as `NO_COLOR`. The library decides by its own option
//! instead: where colour is off it writes the text itself and does not call
//! `colored`; where colour is on, each wrapper here first sets that switch
//! to on, so that what comes back depends on the text alone. The switch
//! stays on afterwards, and the wrappers' claims hold as long as no other
//! thread turns it off in between.

use colored::Colorize;
use vstd::prelude::*;
use vstd::string::*;

verus! {

/// The reset sequence stands in `text` at position `at`.
pub open spec fn reset_at(text: Seq<char>, at: int) -> bool {
    &&& 0 <= at
    &&& at + 4 <= text.len()
    &&& text[at] == '\u{1b}'
    &&& text[at + 1] == '['
    &&& text[at + 2] == '0'
    &&& text[at + 3] == 'm'
}

/// `text` holds the reset sequence somewhere.
pub open spec fn holds_reset(text: Seq<char>) -> bool {
    exists|at: int| reset_at(text, at)
}

/// `text` between the escape sequence of the style `code` and the reset
/// sequence.
pub open spec fn styled(code: Seq<char>, text: Seq<char>) -> Seq<char> {
    seq!['\u{1b}', '['] + code + seq!['m'] + text + seq!['\u{1b}', '[', '0', 'm']
}

/// What `colored` writes for `text` in red when it is colouring.
pub uninterp spec fn red_text(text: Seq<char>) -> Seq<char>;

/// What `colored` writes for `text` in yellow when it is colouring.
pub uninterp spec fn yellow_text(text: Seq<char>) -> Seq<char>;

/// What `colored` writes for `text` in magenta when it is colouring.
pub uninterp spec fn magenta_text(text: Seq<char>) -> Seq<char>;

/// What `colored` writes for `text` in cyan when it is colouring.
pub uninterp spec fn cyan_text(text: Seq<char>) -> Seq<char>;

/// What `colored` writes for `text` in bold yellow when it is colouring.
pub uninterp spec fn yellow_bold_text(text: Seq<char>) -> Seq<char>;

/// `text` in red where `on` is set, else `text` itself.
pub open spec fn red_if(on: bool, text: Seq<char>) -> Seq<char> {
    if on {
        red_text(text)
    } else {
        text
    }
}

/// `text` in yellow where `on` is set, else `text` itself.
pub open spec fn yellow_if(on: bool, text: Seq<char>) -> Seq<char> {
    if on {
        yellow_text(text)
    } else {
        text
    }
}

/// `text` in magenta where `on` is set, else `text` itself.
pub open spec fn magenta_if(on: bool, text: Seq<char>) -> Seq<char> {
    if on {
        magenta_text(text)
    } else {
        text
    }
}

/// `text` in cyan where `on` is set, else `text` itself.
pub open spec fn cyan_if(on: bool, text: Seq<char>) -> Seq<char> {
    if on {
        cyan_text(text)
    } else {
        text
    }
}

/// `text` in bold yellow where `on` is set, else `text` itself.
pub open spec fn yellow_bold_if(on: bool, text: Seq<char>) -> Seq<char> {
    if on {
        yellow_bold_text(text)
    } else {
        text
    }
}

/// `Colorize::red`, formatted to a string with colouring switched on.
///
/// Trusted: what `colored` writes depends on the text alone; for a text
/// without a reset sequence it is the sequence for red, the text, and the
/// reset sequence.
#[verifier::external_body]
fn red_on(text: &str) -> (painted: String)
    ensures
        painted@ == red_text(text@),
        !holds_reset(text@) ==> painted@ == styled(seq!['3', '1'], text@),
{
    colored::control::set_override(true);
    text.red().to_string()
}

/// `Colorize::yellow`, formatted to a string with colouring switched on.
///
/// Trusted: what `colored` writes depends on the text alone; for a text
/// without a reset sequence it is the sequence for yellow, the text, and
/// the reset sequence.
#[verifier::external_body]
fn yellow_on(text: &str) -> (painted: String)
    ensures
        painted@ == yellow_text(text@),
        !holds_reset(text@) ==> painted@ == styled(seq!['3', '3'], text@),
{
    colored::control::set_override(true);
    text.yellow().to_string()
}

/// `Colorize::magenta`, formatted to a string with colouring switched on.
///
/// Trusted: what `colored` writes depends on the text alone; for a text
/// without a reset sequence it is the sequence for magenta, the text, and
/// the reset sequence.
#[verifier::external_body]
fn magenta_on(text: &str) -> (painted: String)
    ensures
        painted@ == magenta_text(text@),
        !holds_reset(text@) ==> painted@ == styled(seq!['3', '5'], text@),
{
    colored::control::set_override(true);
    text.magenta().to_string()
}

/// `Colorize::cyan`, formatted to a string with colouring switched on.
///
/// Trusted: what `colored` writes depends on the text alone; for a text
/// without a reset sequence it is the sequence for cyan, the text, and the
/// reset sequence.
#[verifier::external_body]
fn cyan_on(text: &str) -> (painted: String)
    ensures
        painted@ == cyan_text(text@),
        !holds_reset(text@) ==> painted@ == styled(seq!['3', '6'], text@),
{
    colored::control::set_override(true);
    text.cyan().to_string()
}

/// `Colorize::yellow` followed by `Colorize::bold`, formatted to a string
/// with colouring switched on.
///
/// Trusted: what `colored` writes depends on the text alone; for a text
/// without a reset sequence it is the sequence for bold and yellow, the
/// text, and the reset sequence.
#[verifier::external_body]
fn yellow_bold_on(text: &str) -> (painted: String)
    ensures
        painted@ == yellow_bold_text(text@),
        !holds_reset(text@) ==> painted@ == styled(seq!['1', ';', '3', '3'], text@),
{
    colored::control::set_override(true);
    text.yellow().bold().to_string()
}

/// `text` in red where `on` is set, else a copy of `text`.
pub fn red(text: &str, on: bool) -> (painted: String)
    ensures
        painted@ == red_if(on, text@),
        on && !holds_reset(text@) ==> painted@ == styled(seq!['3', '1'], text@),
{
    if on {
        red_on(text)
    } else {
        String::from_str(text)
    }
}

/// `text` in yellow where `on` is set, else a copy of `text`.
pub fn yellow(text: &str, on: bool) -> (painted: String)
    ensures
        painted@ == yellow_if(on, text@),
        on && !holds_reset(text@) ==> painted@ == styled(seq!['3', '3'], text@),
{
    if on {
        yellow_on(text)
    } else {
        String::from_str(text)
    }
}

/// `text` in magenta where `on` is set, else a copy of `text`.
pub fn magenta(text: &str, on: bool) -> (painted: String)
    ensures
        painted@ == magenta_if(on, text@),
        on && !holds_reset(text@) ==> painted@ == styled(seq!['3', '5'], text@),
{
    if on {
        magenta_on(text)
    } else {
        String::from_str(text)
    }
}

/// `text` in cyan where `on` is set, else a copy of `text`.
pub fn cyan(text: &str, on: bool) -> (painted: String)
    ensures
        painted@ == cyan_if(on, text@),
        on && !holds_reset(text@) ==> painted@ == styled(seq!['3', '6'], text@),
{
    if on {
        cyan_on(text)
    } else {
        String::from_str(text)
    }
}

/// `text` in bold yellow where `on` is set, else a copy of `text`.
pub fn yellow_bold(text: &str, on: bool) -> (painted: String)
    ensures
        painted@ == yellow_bold_if(on, text@),
        on && !holds_reset(text@) ==> painted@ == styled(seq!['1', ';', '3', '3'], text@),
{
    if on {
        yellow_bold_on(text)
    } else {
        String::from_str(text)
    }
}

} // verus!
