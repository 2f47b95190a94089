//! A plain search of one source: a line is entered only under the patterns
//! that hit it, an entry comes into being with its first line, and every
//! hit bears the name of its pattern.

use crate::matcher::PatternMap;
use crate::pattern::{find_spans, patterns_view, spans_in, PatternView};
use crate::text::texts;
use crate::utils::{position_of, OrdHashMap};
use vstd::prelude::*;
use vstd::string::*;

verus! {

/// One occurrence of a pattern in a line: the bytes `moffbeg..moffend`.
#[derive(Debug, PartialEq, Eq)]
pub struct Match {
    /// Byte offset of the first byte of the occurrence.
    pub moffbeg: usize,
    /// Byte offset just behind the occurrence.
    pub moffend: usize,
    /// The name of the pattern that occurs.
    pub patname: String,
}

/// What a [`Match`] holds, as mathematical values.
pub struct MatchView {
    pub moffbeg: nat,
    pub moffend: nat,
    pub patname: Seq<char>,
}

impl View for Match {
    type V = MatchView;

    open spec fn view(&self) -> MatchView {
        MatchView { moffbeg: self.moffbeg as nat, moffend: self.moffend as nat, patname: self.patname@ }
    }
}

/// A line of a source with the occurrences of one pattern in it.
#[derive(Debug, PartialEq, Eq)]
pub struct Line {
    /// The name of the source.
    pub filename: String,
    /// The text of the line, without its terminator.
    pub line: String,
    /// The zero-based number of the line within its source.
    pub lineno: usize,
    /// The occurrences of the pattern, from left to right.
    pub matches: Vec<Match>,
}

/// What a [`Line`] holds, as mathematical values.
pub struct LineView {
    pub filename: Seq<char>,
    pub line: Seq<char>,
    pub lineno: nat,
    pub matches: Seq<MatchView>,
}

/// The views of a sequence of matches.
pub open spec fn matches_view(matches: Seq<Match>) -> Seq<MatchView> {
    matches.map_values(|m: Match| m@)
}

impl View for Line {
    type V = LineView;

    open spec fn view(&self) -> LineView {
        LineView {
            filename: self.filename@,
            line: self.line@,
            lineno: self.lineno as nat,
            matches: matches_view(self.matches@),
        }
    }
}

/// The views of a sequence of lines.
pub open spec fn lines_view(lines: Seq<Line>) -> Seq<LineView> {
    lines.map_values(|l: Line| l@)
}

/// What has been found so far: the names with an entry, in the order in
/// which the entries came into being, and for each name its lines.
pub struct Found {
    pub keys: Seq<Seq<char>>,
    pub values: Seq<Seq<LineView>>,
}

/// What a map of entries holds.
pub open spec fn found_in(map: OrdHashMap<Vec<Line>>) -> Found {
    Found { keys: map.keys(), values: map.values().map_values(|lines: Vec<Line>| lines_view(lines@)) }
}

/// The spans, each bearing the name of its pattern.
pub open spec fn named(spans: Seq<crate::matcher::Match>, patname: Seq<char>) -> Seq<MatchView> {
    spans.map_values(
        |m: crate::matcher::Match| MatchView { moffbeg: m.moffbeg as nat, moffend: m.moffend as nat, patname },
    )
}

/// `found` with `record` entered under `name`: appended to the entry of
/// that name, or, where there is none, put into a new entry behind the
/// others.
pub open spec fn entered(found: Found, name: Seq<char>, record: LineView) -> Found {
    match position_of(found.keys, name) {
        Some(i) => Found { keys: found.keys, values: found.values.update(i, found.values[i].push(record)) },
        None => Found { keys: found.keys.push(name), values: found.values.push(seq![record]) },
    }
}

/// `found` after one pattern was applied to one line: where the pattern
/// hits, the line is entered under the pattern's name with its hits.
pub open spec fn with_pattern(
    found: Found,
    name: Seq<char>,
    p: PatternView,
    filename: Seq<char>,
    line: Seq<char>,
    lineno: nat,
) -> Found {
    let spans = spans_in(p, line);
    if spans.len() > 0 {
        entered(found, name, LineView { filename, line, lineno, matches: named(spans, name) })
    } else {
        found
    }
}

/// `found` after the patterns were applied to one line, one after the
/// other in their order.
pub open spec fn with_line(
    found: Found,
    names: Seq<Seq<char>>,
    patterns: Seq<PatternView>,
    filename: Seq<char>,
    line: Seq<char>,
    lineno: nat,
) -> Found
    decreases names.len(),
{
    if names.len() == 0 || patterns.len() != names.len() {
        found
    } else {
        with_pattern(
            with_line(found, names.drop_last(), patterns.drop_last(), filename, line, lineno),
            names.last(),
            patterns.last(),
            filename,
            line,
            lineno,
        )
    }
}

/// `found` after the patterns were applied to the lines of a source, line
/// by line.
pub open spec fn with_lines(
    found: Found,
    names: Seq<Seq<char>>,
    patterns: Seq<PatternView>,
    filename: Seq<char>,
    lines: Seq<Seq<char>>,
) -> Found
    decreases lines.len(),
{
    if lines.len() == 0 {
        found
    } else {
        with_line(
            with_lines(found, names, patterns, filename, lines.drop_last()),
            names,
            patterns,
            filename,
            lines.last(),
            (lines.len() - 1) as nat,
        )
    }
}

/// The spans, each with the name of its pattern.
fn name_spans(spans: &Vec<crate::matcher::Match>, patname: &String) -> (matches: Vec<Match>)
    ensures
        matches_view(matches@) == named(spans@, patname@),
{
    let mut matches: Vec<Match> = Vec::new();
    let mut k: usize = 0;
    while k < spans.len()
        invariant
            k <= spans.len(),
            matches.len() == k,
            matches_view(matches@) == named(spans@.take(k as int), patname@),
        decreases spans.len() - k,
    {
        let m = spans[k];
        let ghost earlier = matches@;
        matches.push(Match { moffbeg: m.moffbeg, moffend: m.moffend, patname: patname.clone() });
        assert forall|i: int| 0 <= i < matches@.len() implies matches_view(matches@)[i] == named(
            spans@.take(k + 1),
            patname@,
        )[i] by {
            if i < k {
                assert(matches@[i] == earlier[i]);
                assert(matches_view(earlier)[i] == named(spans@.take(k as int), patname@)[i]);
            }
        }
        assert(matches_view(matches@) =~= named(spans@.take(k + 1), patname@));
        k += 1;
    }
    assert(spans@.take(spans.len() as int) =~= spans@);
    matches
}

/// Enters `record` under `name`: appends it to the entry of that name, or,
/// where there is none, puts it into a new entry behind the others.
pub fn enter(map: &mut OrdHashMap<Vec<Line>>, name: &String, record: Line)
    requires
        old(map).wf(),
    ensures
        final(map).wf(),
        found_in(*final(map)) == entered(found_in(*old(map)), name@, record@),
{
    match map.position(name) {
        Some(i) => {
            let entry = map.value_mut(i);
            entry.push(record);
            assert(found_in(*map).values =~= found_in(*old(map)).values.update(
                i as int,
                found_in(*old(map)).values[i as int].push(record@),
            )) by {
                assert(lines_view(map.values()[i as int]@) =~= lines_view(old(map).values()[i as int]@).push(
                    record@,
                ));
            }
        },
        None => {
            let mut lines: Vec<Line> = Vec::new();
            lines.push(record);
            assert(lines_view(lines@) =~= seq![record@]);
            map.insert(name.clone(), lines);
            assert(found_in(*map).values =~= found_in(*old(map)).values.push(seq![record@]));
        },
    }
}

/// Applies every pattern to every line of one source and enters each line
/// under every pattern that hits it.
pub fn match_file<'a>(
    lines: &Vec<String>,
    fileident: &str,
    map: &'a mut OrdHashMap<Vec<Line>>,
    patterns: &PatternMap,
) -> (entries: &'a mut OrdHashMap<Vec<Line>>)
    requires
        old(map).wf(),
        patterns.wf(),
    ensures
        entries.wf(),
        found_in(*entries) == with_lines(
            found_in(*old(map)),
            patterns.keys(),
            patterns_view(patterns.values()),
            fileident@,
            texts(lines@),
        ),
        *final(map) == *final(entries),
{
    let ghost all = texts(lines@);
    let ghost names = patterns.keys();
    let ghost views = patterns_view(patterns.values());
    let ghost start = found_in(*old(map));
    let mut lineno: usize = 0;
    assert(all.take(0) =~= Seq::<Seq<char>>::empty());
    while lineno < lines.len()
        invariant
            map.wf(),
            patterns.wf(),
            all == texts(lines@),
            names == patterns.keys(),
            views == patterns_view(patterns.values()),
            lineno <= lines.len(),
            found_in(*map) == with_lines(start, names, views, fileident@, all.take(lineno as int)),
        decreases lines.len() - lineno,
    {
        let line = &lines[lineno];
        let ghost before = found_in(*map);
        let mut j: usize = 0;
        assert(names.take(0) =~= Seq::<Seq<char>>::empty());
        while j < patterns.len()
            invariant
                map.wf(),
                patterns.wf(),
                names == patterns.keys(),
                views == patterns_view(patterns.values()),
                lineno < lines.len(),
                line == &lines[lineno as int],
                j <= names.len(),
                found_in(*map) == with_line(
                    before,
                    names.take(j as int),
                    views.take(j as int),
                    fileident@,
                    line@,
                    lineno as nat,
                ),
            decreases names.len() - j,
        {
            let name = patterns.key(j);
            let pattern = patterns.value(j);
            assert(names.take(j + 1).drop_last() =~= names.take(j as int));
            assert(views.take(j + 1).drop_last() =~= views.take(j as int));
            assert(views[j as int] == pattern@);
            let spans = find_spans(pattern, line.as_str());
            if spans.len() > 0 {
                let matches = name_spans(&spans, name);
                let record = Line { filename: String::from_str(fileident), line: line.clone(), lineno, matches };
                enter(map, name, record);
            }
            j += 1;
        }
        assert(names.take(names.len() as int) =~= names);
        assert(views.take(names.len() as int) =~= views);
        assert(all.take(lineno + 1).drop_last() =~= all.take(lineno as int));
        assert(all[lineno as int] == line@);
        lineno += 1;
    }
    assert(all.take(lines.len() as int) =~= all);
    map
}

} // verus!
