//! Compiled patterns and the registry of named patterns.

use crate::matcher::{spans_ascending, spans_valid, Match, PatternMap};
use crate::text::{has_separator, name_part, regex_part, split_pattern, texts};
use crate::utils::position_of;
use regex::{Regex, RegexBuilder};
use vstd::prelude::*;

verus! {

/// `regex::Regex`, a compiled expression; nothing inside it is visible to
/// the verifier.
#[verifier::external_type_specification]
#[verifier::external_body]
pub struct ExRegex(Regex);

/// `regex::Error`, why an expression did not compile; nothing inside it is
/// visible to the verifier.
#[verifier::external_type_specification]
#[verifier::external_body]
pub struct ExRegexError(regex::Error);

/// A regular expression, ready to be searched for.
///
/// The fields are private and the one place that makes a value of this type
/// is [`compile`], so `compiled` is always the program that the regex crate
/// built for `source` with `ignore_case`.
#[derive(Debug)]
pub struct Pattern {
    source: String,
    ignore_case: bool,
    compiled: Regex,
}

/// What identifies a [`Pattern`]: the text of the expression and whether
/// letter case is ignored.
pub struct PatternView {
    pub source: Seq<char>,
    pub ignore_case: bool,
}

impl View for Pattern {
    type V = PatternView;

    closed spec fn view(&self) -> PatternView {
        PatternView { source: self.source@, ignore_case: self.ignore_case }
    }
}

/// The successive non-overlapping occurrences in `line` of the expression
/// `source`, as the regex crate finds them.
pub uninterp spec fn regex_spans(source: Seq<char>, ignore_case: bool, line: Seq<char>) -> Seq<Match>;

/// The occurrences of pattern `p` in `line`.
pub open spec fn spans_in(p: PatternView, line: Seq<char>) -> Seq<Match> {
    regex_spans(p.source, p.ignore_case, line)
}

/// Whether the regex crate compiles the expression `source`: whether it
/// finds the syntax valid and the program within its size limit.
pub uninterp spec fn regex_compiles(source: Seq<char>, ignore_case: bool) -> bool;

/// `RegexBuilder::new(source).case_insensitive(ignore_case).build()`, the
/// program it builds kept together with what it was built from.
///
/// Trusted: whether the expression compiles depends on its text and on
/// `ignore_case` alone, and a pattern that comes back was compiled from
/// `source` with `ignore_case`.
#[verifier::external_body]
fn compile(source: &str, ignore_case: bool) -> (r: Result<Pattern, regex::Error>)
    ensures
        r is Ok <==> regex_compiles(source@, ignore_case),
        r matches Ok(p) ==> p@ == (PatternView { source: source@, ignore_case }),
{
    match RegexBuilder::new(source).case_insensitive(ignore_case).build() {
        Ok(compiled) => Ok(Pattern { source: source.to_string(), ignore_case, compiled }),
        Err(error) => Err(error),
    }
}

/// `Regex::find_iter` on `line`, each match reduced to its two offsets,
/// `Match::start` and `Match::end`.
///
/// Trusted: the matches depend on the expression, on whether it ignores
/// letter case, and on the line, and on nothing else. As the regex crate
/// documents, each match has `start <= end`, both offsets lie on character
/// boundaries of the line, and successive matches do not overlap.
#[verifier::external_body]
pub(crate) fn find_spans(pattern: &Pattern, line: &str) -> (spans: Vec<Match>)
    ensures
        spans@ == regex_spans(pattern@.source, pattern@.ignore_case, line@),
        spans_valid(line@, spans@),
        spans_ascending(spans@),
{
    let mut spans = Vec::new();
    for m in pattern.compiled.find_iter(line) {
        spans.push(Match { moffbeg: m.start(), moffend: m.end() });
    }
    spans
}

impl Pattern {
    /// The text of the expression.
    pub fn source(&self) -> (s: &String)
        ensures
            s@ == self@.source,
    {
        &self.source
    }

    /// Whether letter case is ignored.
    pub fn ignore_case(&self) -> (b: bool)
        ensures
            b == self@.ignore_case,
    {
        self.ignore_case
    }
}

/// Why a list of named patterns was refused.
#[derive(Debug)]
pub enum PatternError {
    /// The item at `index` holds no `=`; `pattern` is the item.
    MissingSeparator { index: usize, pattern: String },
    /// The expression of the item at `index` did not compile.
    BadRegex { index: usize, error: regex::Error },
}

/// `regex::Error` formatted for display.
///
/// Trusted, with nothing claimed about the text.
#[verifier::external_body]
fn error_text(error: &regex::Error) -> (text: String) {
    error.to_string()
}

/// What is said of an item without a `=`.
pub open spec fn missing_separator_text(pattern: Seq<char>) -> Seq<char> {
    "Invalid pattern '"@ + pattern + "', expected KEY=REGEX"@
}

impl PatternError {
    /// The error in words. For an expression that did not compile these are
    /// the words of the regex crate.
    pub fn message(&self) -> (text: String)
        ensures
            self matches PatternError::MissingSeparator { pattern, .. } ==> text@ == missing_separator_text(
                pattern@,
            ),
    {
        match self {
            PatternError::MissingSeparator { pattern, .. } => {
                let mut text = String::from_str("Invalid pattern '");
                text.append(pattern.as_str());
                text.append("', expected KEY=REGEX");
                text
            },
            PatternError::BadRegex { error, .. } => error_text(error),
        }
    }
}

/// The views of a sequence of patterns.
pub open spec fn patterns_view(patterns: Seq<Pattern>) -> Seq<PatternView> {
    patterns.map_values(|p: Pattern| p@)
}

/// The names of the registry that the items define: each name at the
/// position of its first item.
pub open spec fn registry_keys(items: Seq<Seq<char>>) -> Seq<Seq<char>>
    decreases items.len(),
{
    if items.len() == 0 {
        Seq::empty()
    } else {
        let before = registry_keys(items.drop_last());
        let name = name_part(items.last());
        if before.contains(name) {
            before
        } else {
            before.push(name)
        }
    }
}

/// The patterns of the registry that the items define: for each name the
/// expression of its last item.
pub open spec fn registry_values(items: Seq<Seq<char>>, ignore_case: bool) -> Seq<PatternView>
    decreases items.len(),
{
    if items.len() == 0 {
        Seq::empty()
    } else {
        let before = registry_values(items.drop_last(), ignore_case);
        let pattern = PatternView { source: regex_part(items.last()), ignore_case };
        match position_of(registry_keys(items.drop_last()), name_part(items.last())) {
            Some(i) => before.update(i, pattern),
            None => before.push(pattern),
        }
    }
}

/// The item is accepted: it holds a `=`, and what stands behind its first
/// `=` compiles.
pub open spec fn accepted(item: Seq<char>, ignore_case: bool) -> bool {
    has_separator(item) && regex_compiles(regex_part(item), ignore_case)
}

/// Every item is accepted.
pub open spec fn all_accepted(items: Seq<Seq<char>>, ignore_case: bool) -> bool {
    forall|i: int| 0 <= i < items.len() ==> accepted(#[trigger] items[i], ignore_case)
}

/// The item at `index` is the first that is not accepted.
pub open spec fn first_refused(items: Seq<Seq<char>>, ignore_case: bool, index: int) -> bool {
    &&& 0 <= index < items.len()
    &&& !accepted(items[index], ignore_case)
    &&& forall|i: int| 0 <= i < index ==> accepted(#[trigger] items[i], ignore_case)
}

/// Enters the outcome of compiling the expression of item `index` into the
/// registry: a compiled pattern is bound to `name`, an error is handed on
/// and leaves the registry as it was.
pub fn register(map: &mut PatternMap, index: usize, name: String, compiled: Result<Pattern, regex::Error>) -> (r:
    Result<(), PatternError>)
    requires
        old(map).wf(),
    ensures
        final(map).wf(),
        match compiled {
            Ok(pattern) => {
                &&& r is Ok
                &&& match position_of(old(map).keys(), name@) {
                    Some(i) => {
                        &&& final(map).keys() == old(map).keys()
                        &&& final(map).values() == old(map).values().update(i, pattern)
                    },
                    None => {
                        &&& final(map).keys() == old(map).keys().push(name@)
                        &&& final(map).values() == old(map).values().push(pattern)
                    },
                }
            },
            Err(error) => {
                &&& r == Err::<(), PatternError>(PatternError::BadRegex { index, error })
                &&& final(map).keys() == old(map).keys()
                &&& final(map).values() == old(map).values()
            },
        },
{
    match compiled {
        Ok(pattern) => {
            map.insert(name, pattern);
            Ok(())
        },
        Err(error) => Err(PatternError::BadRegex { index, error }),
    }
}

/// Builds the registry from items of the form `NAME=REGEX`, each split at
/// its first `=`. A name that comes again keeps its position and takes the
/// later expression.
///
/// The registry is built exactly when every item holds a `=` and its
/// expression compiles. Otherwise the first item of which that does not
/// hold ends the work: with `MissingSeparator` where it holds no `=`, with
/// `BadRegex` where its expression does not compile.
pub fn parse_patterns(patsr: &Vec<String>, ignore_case: bool) -> (r: Result<PatternMap, PatternError>)
    ensures
        r is Ok <==> all_accepted(texts(patsr@), ignore_case),
        match r {
            Ok(map) => {
                &&& map.wf()
                &&& map.keys() == registry_keys(texts(patsr@))
                &&& patterns_view(map.values()) == registry_values(texts(patsr@), ignore_case)
            },
            Err(PatternError::MissingSeparator { index, pattern }) => {
                &&& first_refused(texts(patsr@), ignore_case, index as int)
                &&& !has_separator(texts(patsr@)[index as int])
                &&& pattern@ == texts(patsr@)[index as int]
            },
            Err(PatternError::BadRegex { index, .. }) => {
                &&& first_refused(texts(patsr@), ignore_case, index as int)
                &&& has_separator(texts(patsr@)[index as int])
            },
        },
{
    let ghost items = texts(patsr@);
    let mut map = PatternMap::new();
    let mut i: usize = 0;
    assert(items.take(0) =~= Seq::<Seq<char>>::empty());
    assert(patterns_view(map.values()) =~= registry_values(items.take(0), ignore_case));
    while i < patsr.len()
        invariant
            i <= patsr.len(),
            items == texts(patsr@),
            map.wf(),
            forall|k: int| 0 <= k < i ==> accepted(#[trigger] items[k], ignore_case),
            map.keys() == registry_keys(items.take(i as int)),
            patterns_view(map.values()) == registry_values(items.take(i as int), ignore_case),
        decreases patsr.len() - i,
    {
        let item = &patsr[i];
        assert(items[i as int] == item@);
        assert(items.take(i + 1).drop_last() =~= items.take(i as int));
        match split_pattern(item.as_str()) {
            Some((key, value)) => {
                let compiled = compile(value.as_str(), ignore_case);
                match register(&mut map, i, key, compiled) {
                    Ok(()) => {
                        assert(map.keys() =~= registry_keys(items.take(i + 1)));
                        assert(patterns_view(map.values()) =~= registry_values(items.take(i + 1), ignore_case));
                    },
                    Err(error) => {
                        assert(!accepted(items[i as int], ignore_case));
                        return Err(error);
                    },
                }
            },
            None => {
                assert(!accepted(items[i as int], ignore_case));
                return Err(PatternError::MissingSeparator { index: i, pattern: item.clone() });
            },
        }
        i += 1;
    }
    assert(items.take(patsr.len() as int) =~= items);
    Ok(map)
}

} // verus!
