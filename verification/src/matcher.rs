//! Scanning sources line by line and grouping the hits by pattern name.

use crate::pattern::{find_spans, spans_in, Pattern, PatternView};
use crate::text::{byte_len, bytes_of, on_boundary, texts};
use crate::utils::{position_of, OrdHashMap};
use vstd::prelude::*;
use vstd::string::*;

verus! {

/// How the hits of a line decide whether the line is kept.
#[derive(Debug)]
pub struct MatchOptions {
    /// Keep the lines without a hit instead of those with one.
    pub invert: bool,
}

/// One occurrence of a pattern in a line: the bytes `moffbeg..moffend`.
#[derive(Debug, Clone, Copy, PartialEq, Eq, Structural)]
pub struct Match {
    /// Byte offset of the first byte of the occurrence.
    pub moffbeg: usize,
    /// Byte offset just behind the occurrence.
    pub moffend: usize,
}

/// A line of a source that was kept for one pattern.
#[derive(Debug, Clone, PartialEq, Eq)]
pub struct Line {
    /// The name of the source.
    pub filename: String,
    /// The text of the line, without its terminator.
    pub line: String,
    /// The zero-based number of the line within its source.
    pub lineno: usize,
    /// The occurrences of the pattern, from left to right.
    pub matches: Vec<Match>,
}

/// What a [`Line`] holds, as mathematical values.
pub struct LineView {
    pub filename: Seq<char>,
    pub line: Seq<char>,
    pub lineno: nat,
    pub matches: Seq<Match>,
}

impl View for Line {
    type V = LineView;

    open spec fn view(&self) -> LineView {
        LineView {
            filename: self.filename@,
            line: self.line@,
            lineno: self.lineno as nat,
            matches: self.matches@,
        }
    }
}

/// The span lies within `text`, is not reversed, and cuts no character.
pub open spec fn span_valid(text: Seq<char>, m: Match) -> bool {
    &&& m.moffbeg <= m.moffend
    &&& on_boundary(text, m.moffbeg as int)
    &&& on_boundary(text, m.moffend as int)
}

/// Every span is valid for `text`.
pub open spec fn spans_valid(text: Seq<char>, spans: Seq<Match>) -> bool {
    forall|i: int| 0 <= i < spans.len() ==> span_valid(text, #[trigger] spans[i])
}

/// The spans come from left to right and do not overlap.
pub open spec fn spans_ascending(spans: Seq<Match>) -> bool {
    forall|i: int, j: int|
        0 <= i < j < spans.len() ==> (#[trigger] spans[i]).moffend <= (#[trigger] spans[j]).moffbeg
}

/// The registry: named patterns in the order in which they were given.
pub type PatternMap = OrdHashMap<Pattern>;

/// The aggregate: for each pattern name, the lines kept for it.
pub type MatchesMap = OrdHashMap<Vec<Line>>;

/// The views of a sequence of lines.
pub open spec fn lines_view(lines: Seq<Line>) -> Seq<LineView> {
    lines.map_values(|l: Line| l@)
}

/// Every line carries spans that are valid for its text.
pub open spec fn lines_valid(lines: Seq<LineView>) -> bool {
    forall|i: int| 0 <= i < lines.len() ==> spans_valid((#[trigger] lines[i]).line, lines[i].matches)
}

/// Every line of the aggregate carries spans that are valid for its text.
pub open spec fn aggregate_valid(map: MatchesMap) -> bool {
    forall|m: int| 0 <= m < map.values().len() ==> lines_valid(lines_view(#[trigger] map.values()[m]@))
}

/// The spans of every line come from left to right and do not overlap.
pub open spec fn lines_ascending(lines: Seq<LineView>) -> bool {
    forall|i: int| 0 <= i < lines.len() ==> spans_ascending((#[trigger] lines[i]).matches)
}

/// The spans of every line of the aggregate come from left to right and do
/// not overlap.
pub open spec fn aggregate_ascending(map: MatchesMap) -> bool {
    forall|m: int| 0 <= m < map.values().len() ==> lines_ascending(lines_view(#[trigger] map.values()[m]@))
}

/// The spans of every line are valid for its text, come from left to right
/// and do not overlap.
pub open spec fn lines_sound(lines: Seq<LineView>) -> bool {
    lines_valid(lines) && lines_ascending(lines)
}

/// A line with sound spans behind lines with sound spans gives lines with
/// sound spans.
proof fn lemma_push_sound(lines: Seq<LineView>, l: LineView)
    requires
        lines_sound(lines),
        spans_valid(l.line, l.matches),
        spans_ascending(l.matches),
    ensures
        lines_sound(lines.push(l)),
{
    assert forall|i: int| 0 <= i < lines.push(l).len() implies spans_valid(
        (#[trigger] lines.push(l)[i]).line,
        lines.push(l)[i].matches,
    ) && spans_ascending(lines.push(l)[i].matches) by {
        if i < lines.len() {
            assert(lines.push(l)[i] == lines[i]);
        }
    }
}

/// Validity and order of the spans carry over from two sequences of lines
/// to the two put together.
proof fn lemma_concat_sound(first: Seq<LineView>, second: Seq<LineView>)
    ensures
        lines_valid(first) && lines_valid(second) ==> lines_valid(first + second),
        lines_ascending(first) && lines_ascending(second) ==> lines_ascending(first + second),
{
    let all = first + second;
    assert forall|i: int| 0 <= i < all.len() implies all[i] == if i < first.len() {
        first[i]
    } else {
        second[i - first.len()]
    } by {}
    if lines_valid(first) && lines_valid(second) {
        assert forall|i: int| 0 <= i < all.len() implies spans_valid((#[trigger] all[i]).line, all[i].matches) by {
            if i < first.len() {
                assert(all[i] == first[i]);
            } else {
                assert(all[i] == second[i - first.len()]);
            }
        }
    }
    if lines_ascending(first) && lines_ascending(second) {
        assert forall|i: int| 0 <= i < all.len() implies spans_ascending((#[trigger] all[i]).matches) by {
            if i < first.len() {
                assert(all[i] == first[i]);
            } else {
                assert(all[i] == second[i - first.len()]);
            }
        }
    }
}

/// The rule of inclusion: a line is kept when it has a hit, or, with
/// `invert`, when it has none.
pub open spec fn included(spans: Seq<Match>, invert: bool) -> bool {
    (spans.len() > 0) != invert
}

/// The record of line number `lineno` of source `filename` under pattern `p`.
pub open spec fn record(p: PatternView, filename: Seq<char>, line: Seq<char>, lineno: nat) -> LineView {
    LineView { filename, line, lineno, matches: spans_in(p, line) }
}

/// The records of the lines of one source that are kept under pattern `p`,
/// in the order of the lines.
pub open spec fn kept(p: PatternView, filename: Seq<char>, lines: Seq<Seq<char>>, invert: bool) -> Seq<
    LineView,
>
    decreases lines.len(),
{
    if lines.len() == 0 {
        Seq::empty()
    } else {
        let before = kept(p, filename, lines.drop_last(), invert);
        let last = record(p, filename, lines.last(), (lines.len() - 1) as nat);
        if included(last.matches, invert) {
            before.push(last)
        } else {
            before
        }
    }
}

/// What scanning one source adds to the entry called `name`: the kept lines
/// of the pattern of that name, and nothing where no pattern has that name.
pub open spec fn added(
    patterns: PatternMap,
    name: Seq<char>,
    filename: Seq<char>,
    lines: Seq<Seq<char>>,
    invert: bool,
) -> Seq<LineView> {
    match position_of(patterns.keys(), name) {
        Some(j) => kept(patterns.values()[j]@, filename, lines, invert),
        None => Seq::empty(),
    }
}

/// Folds the hits of one pattern on one line into the aggregate: where the
/// rule of inclusion holds, the line is appended to the entry at `slot`.
pub fn aggregate(
    map: &mut MatchesMap,
    slot: usize,
    filename: &str,
    line: &String,
    lineno: usize,
    matches: Vec<Match>,
    opts: &MatchOptions,
)
    requires
        old(map).wf(),
        slot < old(map).keys().len(),
    ensures
        final(map).wf(),
        final(map).keys() == old(map).keys(),
        forall|m: int|
            0 <= m < old(map).keys().len() && m != slot ==> final(map).values()[m] == old(map).values()[m],
        lines_view(final(map).values()[slot as int]@) == if included(matches@, opts.invert) {
            lines_view(old(map).values()[slot as int]@).push(
                LineView { filename: filename@, line: line@, lineno: lineno as nat, matches: matches@ },
            )
        } else {
            lines_view(old(map).values()[slot as int]@)
        },
{
    if (matches.len() > 0) ^ opts.invert {
        let kept_line = Line { filename: String::from_str(filename), line: line.clone(), lineno, matches };
        let entry = map.value_mut(slot);
        entry.push(kept_line);
        assert(lines_view(map.values()[slot as int]@) =~= lines_view(old(map).values()[slot as int]@).push(
            kept_line@,
        ));
    }
}

/// For each pattern, the position of the entry of its name in `map`.
fn slots_of(patterns: &PatternMap, map: &MatchesMap) -> (slots: Vec<usize>)
    requires
        patterns.wf(),
        map.wf(),
        forall|j: int| 0 <= j < patterns.keys().len() ==> map.keys().contains(#[trigger] patterns.keys()[j]),
    ensures
        slots.len() == patterns.keys().len(),
        forall|j: int|
            0 <= j < slots.len() ==> 0 <= #[trigger] slots[j] < map.keys().len() && map.keys()[slots[j] as int]
                == patterns.keys()[j],
{
    let mut slots: Vec<usize> = Vec::new();
    let mut j: usize = 0;
    while j < patterns.len()
        invariant
            patterns.wf(),
            map.wf(),
            forall|k: int| 0 <= k < patterns.keys().len() ==> map.keys().contains(#[trigger] patterns.keys()[k]),
            j <= patterns.keys().len(),
            slots.len() == j,
            forall|k: int|
                0 <= k < slots.len() ==> 0 <= #[trigger] slots[k] < map.keys().len() && map.keys()[slots[k] as int]
                    == patterns.keys()[k],
        decreases patterns.keys().len() - j,
    {
        assert(map.keys().contains(patterns.keys()[j as int]));
        match map.position(patterns.key(j)) {
            Some(slot) => {
                slots.push(slot);
            },
            None => {
                assert(false);
            },
        }
        j += 1;
    }
    slots
}

/// What one more line adds to the kept records.
proof fn lemma_kept_step(p: PatternView, filename: Seq<char>, lines: Seq<Seq<char>>, invert: bool, n: int)
    requires
        0 <= n < lines.len(),
    ensures
        kept(p, filename, lines.take(n + 1), invert) == if included(spans_in(p, lines[n]), invert) {
            kept(p, filename, lines.take(n), invert).push(record(p, filename, lines[n], n as nat))
        } else {
            kept(p, filename, lines.take(n), invert)
        },
{
    assert(lines.take(n + 1).drop_last() =~= lines.take(n));
}

/// Scans the lines of one source against every pattern and folds the hits
/// into `map`: each line is appended, in the order of the lines, to the entry
/// of every pattern under which the rule of inclusion keeps it.
pub fn matcher(
    fileident: &str,
    lines: &Vec<String>,
    patterns: &PatternMap,
    map: MatchesMap,
    opts: &MatchOptions,
) -> (r: MatchesMap)
    requires
        patterns.wf(),
        map.wf(),
        forall|j: int| 0 <= j < patterns.keys().len() ==> map.keys().contains(#[trigger] patterns.keys()[j]),
    ensures
        r.wf(),
        r.keys() == map.keys(),
        forall|m: int|
            0 <= m < r.keys().len() ==> lines_view(#[trigger] r.values()[m]@) == lines_view(map.values()[m]@)
                + added(*patterns, r.keys()[m], fileident@, texts(lines@), opts.invert),
        forall|m: int|
            0 <= m < r.keys().len() ==> lines_valid(
                added(*patterns, #[trigger] r.keys()[m], fileident@, texts(lines@), opts.invert),
            ) && lines_ascending(added(*patterns, r.keys()[m], fileident@, texts(lines@), opts.invert)),
        aggregate_valid(map) ==> aggregate_valid(r),
        aggregate_ascending(map) ==> aggregate_ascending(r),
{
    let ghost before = map;
    let ghost all = texts(lines@);
    let mut map = map;
    let slots = slots_of(patterns, &map);
    let mut lineno: usize = 0;
    proof {
        assert forall|m: int| 0 <= m < map.keys().len() implies lines_view(#[trigger] map.values()[m]@)
            == lines_view(before.values()[m]@) + added(
            *patterns,
            map.keys()[m],
            fileident@,
            all.take(0),
            opts.invert,
        ) && lines_sound(added(*patterns, map.keys()[m], fileident@, all.take(0), opts.invert)) by {
            assert(all.take(0) =~= Seq::<Seq<char>>::empty());
        }
    }
    while lineno < lines.len()
        invariant
            patterns.wf(),
            map.wf(),
            before.wf(),
            all == texts(lines@),
            map.keys() == before.keys(),
            lineno <= lines.len(),
            slots.len() == patterns.keys().len(),
            forall|j: int|
                0 <= j < slots.len() ==> 0 <= #[trigger] slots[j] < map.keys().len() && map.keys()[slots[j] as int]
                    == patterns.keys()[j],
            forall|m: int|
                0 <= m < map.keys().len() ==> lines_view(#[trigger] map.values()[m]@) == lines_view(
                    before.values()[m]@,
                ) + added(*patterns, map.keys()[m], fileident@, all.take(lineno as int), opts.invert),
            forall|m: int|
                0 <= m < map.keys().len() ==> lines_sound(
                    added(*patterns, #[trigger] map.keys()[m], fileident@, all.take(lineno as int), opts.invert),
                ),
        decreases lines.len() - lineno,
    {
        let line = &lines[lineno];
        let mut j: usize = 0;
        while j < patterns.len()
            invariant
                patterns.wf(),
                map.wf(),
                before.wf(),
                all == texts(lines@),
                map.keys() == before.keys(),
                lineno < lines.len(),
                line == &lines[lineno as int],
                j <= patterns.keys().len(),
                slots.len() == patterns.keys().len(),
                forall|k: int|
                    0 <= k < slots.len() ==> 0 <= #[trigger] slots[k] < map.keys().len() && map.keys()[slots[k] as int]
                        == patterns.keys()[k],
                forall|m: int|
                    0 <= m < map.keys().len() ==> lines_view(#[trigger] map.values()[m]@) == lines_view(
                        before.values()[m]@,
                    ) + added(
                        *patterns,
                        map.keys()[m],
                        fileident@,
                        all.take(
                            if position_of(patterns.keys(), map.keys()[m]) is Some && position_of(
                                patterns.keys(),
                                map.keys()[m],
                            )->0 < j {
                                lineno + 1
                            } else {
                                lineno as int
                            },
                        ),
                        opts.invert,
                    ),
                forall|m: int|
                    0 <= m < map.keys().len() ==> lines_sound(
                        added(
                            *patterns,
                            #[trigger] map.keys()[m],
                            fileident@,
                            all.take(
                                if position_of(patterns.keys(), map.keys()[m]) is Some && position_of(
                                    patterns.keys(),
                                    map.keys()[m],
                                )->0 < j {
                                    lineno + 1
                                } else {
                                    lineno as int
                                },
                            ),
                            opts.invert,
                        ),
                    ),
            decreases patterns.keys().len() - j,
        {
            let pattern = patterns.value(j);
            let spans = find_spans(pattern, line.as_str());
            let slot = slots[j];
            let ghost prior = map;
            aggregate(&mut map, slot, fileident, line, lineno, spans, opts);
            proof {
                let name = patterns.keys()[j as int];
                assert(map.keys()[slot as int] == name);
                assert(position_of(patterns.keys(), name) == Some(j as int));
                assert(all[lineno as int] == line@);
                lemma_kept_step(pattern@, fileident@, all, opts.invert, lineno as int);
                assert forall|m: int| 0 <= m < map.keys().len() && m != slot implies position_of(
                    patterns.keys(),
                    map.keys()[m],
                ) != Some(j as int) by {
                    if position_of(patterns.keys(), map.keys()[m]) == Some(j as int) {
                        assert(map.keys()[m] == name);
                    }
                }
                lemma_push_sound(
                    kept(pattern@, fileident@, all.take(lineno as int), opts.invert),
                    record(pattern@, fileident@, line@, lineno as nat),
                );
            }
            j += 1;
        }
        proof {
            assert forall|m: int| 0 <= m < map.keys().len() implies lines_view(#[trigger] map.values()[m]@)
                == lines_view(before.values()[m]@) + added(
                *patterns,
                map.keys()[m],
                fileident@,
                all.take(lineno + 1),
                opts.invert,
            ) && lines_sound(added(*patterns, map.keys()[m], fileident@, all.take(lineno + 1), opts.invert)) by {
                if position_of(patterns.keys(), map.keys()[m]) is None {
                }
            }
        }
        lineno += 1;
    }
    proof {
        assert(all.take(lines.len() as int) =~= all);
        assert forall|m: int| 0 <= m < map.values().len() implies (lines_valid(lines_view(before.values()[m]@))
            ==> lines_valid(lines_view(#[trigger] map.values()[m]@))) && (lines_ascending(
            lines_view(before.values()[m]@),
        ) ==> lines_ascending(lines_view(map.values()[m]@))) by {
            lemma_concat_sound(
                lines_view(before.values()[m]@),
                added(*patterns, map.keys()[m], fileident@, all, opts.invert),
            );
        }
    }
    map
}

/// One source, already read: the name it was given by, and its lines
/// without their terminators.
#[derive(Debug, Clone, PartialEq, Eq)]
pub struct Source {
    /// A path, or `-` for standard input.
    pub fileident: String,
    /// The lines, in the order in which they were read.
    pub lines: Vec<String>,
}

/// What a [`Source`] holds, as mathematical values.
pub struct SourceView {
    pub fileident: Seq<char>,
    pub lines: Seq<Seq<char>>,
}

impl View for Source {
    type V = SourceView;

    open spec fn view(&self) -> SourceView {
        SourceView { fileident: self.fileident@, lines: texts(self.lines@) }
    }
}

/// The views of a sequence of sources.
pub open spec fn sources_view(sources: Seq<Source>) -> Seq<SourceView> {
    sources.map_values(|s: Source| s@)
}

/// The name under which a source appears in the result: standard input,
/// given as `-`, is called `(standard input)`; a file keeps its path.
pub open spec fn label(fileident: Seq<char>) -> Seq<char> {
    if fileident == seq!['-'] {
        "(standard input)"@
    } else {
        fileident
    }
}

/// The name under which the source `fileident` appears in the result.
pub fn source_label(fileident: &str) -> (name: String)
    ensures
        name@ == label(fileident@),
{
    if fileident.unicode_len() == 1 && fileident.get_char(0) == '-' {
        assert(fileident@ =~= seq!['-']);
        String::from_str("(standard input)")
    } else {
        String::from_str(fileident)
    }
}

/// The records kept under pattern `p` over all sources: the kept lines of
/// the first source, then those of the second, and so on.
pub open spec fn gathered(p: PatternView, sources: Seq<SourceView>, invert: bool) -> Seq<LineView>
    decreases sources.len(),
{
    if sources.len() == 0 {
        Seq::empty()
    } else {
        gathered(p, sources.drop_last(), invert) + kept(
            p,
            label(sources.last().fileident),
            sources.last().lines,
            invert,
        )
    }
}

/// An aggregate with an empty entry for the name of every pattern, in the
/// order of the registry.
pub fn empty_matches(patterns: &PatternMap) -> (map: MatchesMap)
    requires
        patterns.wf(),
    ensures
        map.wf(),
        map.keys() == patterns.keys(),
        forall|m: int| 0 <= m < map.keys().len() ==> (#[trigger] map.values()[m])@.len() == 0,
{
    let mut map = MatchesMap::new();
    let mut j: usize = 0;
    while j < patterns.len()
        invariant
            patterns.wf(),
            map.wf(),
            j <= patterns.keys().len(),
            map.keys() == patterns.keys().take(j as int),
            forall|m: int| 0 <= m < map.keys().len() ==> (#[trigger] map.values()[m])@.len() == 0,
        decreases patterns.keys().len() - j,
    {
        let name = patterns.key(j).clone();
        assert(!map.keys().contains(name@)) by {
            if map.keys().contains(name@) {
                let k = map.keys().index_of(name@);
                assert(patterns.keys()[k] == patterns.keys()[j as int]);
            }
        }
        map.insert(name, Vec::new());
        assert(map.keys() =~= patterns.keys().take(j + 1));
        j += 1;
    }
    assert(patterns.keys().take(j as int) =~= patterns.keys());
    map
}

/// Scans the sources one after the other, in the order given, against every
/// pattern of the registry, and returns the aggregate.
///
/// The aggregate has one entry for each pattern name, in the order of the
/// registry, also where nothing was kept. The entry of a pattern holds the
/// kept lines source by source, each source's lines in ascending order.
pub fn match_files(sources: &Vec<Source>, patterns: &PatternMap, opts: &MatchOptions) -> (map: MatchesMap)
    requires
        patterns.wf(),
    ensures
        map.wf(),
        map.keys() == patterns.keys(),
        forall|j: int|
            0 <= j < map.keys().len() ==> lines_view(#[trigger] map.values()[j]@) == gathered(
                patterns.values()[j]@,
                sources_view(sources@),
                opts.invert,
            ),
        aggregate_valid(map),
        aggregate_ascending(map),
{
    let ghost all = sources_view(sources@);
    let mut map = empty_matches(patterns);
    let mut i: usize = 0;
    proof {
        assert forall|j: int| 0 <= j < map.keys().len() implies lines_view(#[trigger] map.values()[j]@)
            == gathered(patterns.values()[j]@, all.take(0), opts.invert) by {
            assert(lines_view(map.values()[j]@) =~= Seq::<LineView>::empty());
        }
        assert forall|m: int| 0 <= m < map.values().len() implies lines_valid(
            lines_view(#[trigger] map.values()[m]@),
        ) && lines_ascending(lines_view(map.values()[m]@)) by {
            assert(map.values()[m]@.len() == 0);
        }
    }
    while i < sources.len()
        invariant
            patterns.wf(),
            map.wf(),
            all == sources_view(sources@),
            i <= sources.len(),
            map.keys() == patterns.keys(),
            forall|j: int|
                0 <= j < map.keys().len() ==> lines_view(#[trigger] map.values()[j]@) == gathered(
                    patterns.values()[j]@,
                    all.take(i as int),
                    opts.invert,
                ),
            aggregate_valid(map),
            aggregate_ascending(map),
        decreases sources.len() - i,
    {
        let source = &sources[i];
        let name = source_label(source.fileident.as_str());
        let ghost prior = map;
        map = matcher(name.as_str(), &source.lines, patterns, map, opts);
        proof {
            assert(all.take(i + 1).drop_last() =~= all.take(i as int));
            assert(all.take(i + 1).last() == source@);
            assert forall|j: int| 0 <= j < map.keys().len() implies lines_view(#[trigger] map.values()[j]@)
                == gathered(patterns.values()[j]@, all.take(i + 1), opts.invert) by {
                assert(position_of(patterns.keys(), map.keys()[j]) == Some(j));
                assert(lines_view(prior.values()[j]@) == gathered(
                    patterns.values()[j]@,
                    all.take(i as int),
                    opts.invert,
                ));
            }
        }
        i += 1;
    }
    assert(all.take(sources.len() as int) =~= all);
    map
}

/// Whether the spans are valid for `text`: each within the text, not
/// reversed, and cutting no character.
pub fn spans_ok(text: &str, spans: &Vec<Match>) -> (ok: bool)
    ensures
        ok == spans_valid(text@, spans@),
{
    let end = byte_len(text);
    let mut i: usize = 0;
    while i < spans.len()
        invariant
            i <= spans.len(),
            end == bytes_of(text@).len(),
            forall|k: int| 0 <= k < i ==> span_valid(text@, #[trigger] spans@[k]),
        decreases spans.len() - i,
    {
        let m = spans[i];
        if !(m.moffbeg <= m.moffend && m.moffend <= end && text.is_char_boundary(m.moffbeg) && text.is_char_boundary(
            m.moffend,
        )) {
            assert(!span_valid(text@, spans@[i as int]));
            return false;
        }
        i += 1;
    }
    true
}

/// Whether every line of the aggregate carries spans that are valid for its
/// text, as the two views that read the spans need it.
pub fn aggregate_ok(map: &MatchesMap) -> (ok: bool)
    requires
        map.wf(),
    ensures
        ok == aggregate_valid(*map),
{
    let mut m: usize = 0;
    while m < map.len()
        invariant
            map.wf(),
            m <= map.keys().len(),
            forall|k: int| 0 <= k < m ==> lines_valid(lines_view(#[trigger] map.values()[k]@)),
        decreases map.keys().len() - m,
    {
        let lines = map.value(m);
        let mut i: usize = 0;
        while i < lines.len()
            invariant
                map.wf(),
                m < map.keys().len(),
                *lines == map.values()[m as int],
                i <= lines.len(),
                forall|k: int| 0 <= k < i ==> spans_valid((#[trigger] lines@[k])@.line, lines@[k]@.matches),
            decreases lines.len() - i,
        {
            if !spans_ok(lines[i].line.as_str(), &lines[i].matches) {
                assert(!spans_valid(lines_view(lines@)[i as int].line, lines_view(lines@)[i as int].matches));
                assert(!lines_valid(lines_view(map.values()[m as int]@)));
                return false;
            }
            i += 1;
        }
        assert forall|k: int| 0 <= k < lines_view(lines@).len() implies spans_valid(
            (#[trigger] lines_view(lines@)[k]).line,
            lines_view(lines@)[k].matches,
        ) by {
            assert(spans_valid(lines@[k]@.line, lines@[k]@.matches));
        }
        m += 1;
    }
    true
}

/// Every record kept for a source carries the hits of its own text, and the
/// rule of inclusion holds of it.
pub proof fn lemma_kept_elements(p: PatternView, filename: Seq<char>, lines: Seq<Seq<char>>, invert: bool)
    ensures
        forall|k: int|
            0 <= k < kept(p, filename, lines, invert).len() ==> {
                let r = #[trigger] kept(p, filename, lines, invert)[k];
                &&& r.matches == spans_in(p, r.line)
                &&& included(r.matches, invert)
                &&& r.filename == filename
                &&& r.lineno < lines.len()
                &&& r.line == lines[r.lineno as int]
            },
    decreases lines.len(),
{
    if lines.len() > 0 {
        lemma_kept_elements(p, filename, lines.drop_last(), invert);
        let all = kept(p, filename, lines, invert);
        let before = kept(p, filename, lines.drop_last(), invert);
        assert forall|k: int| 0 <= k < all.len() implies {
            let r = #[trigger] all[k];
            &&& r.matches == spans_in(p, r.line)
            &&& included(r.matches, invert)
            &&& r.filename == filename
            &&& r.lineno < lines.len()
            &&& r.line == lines[r.lineno as int]
        } by {
            if k < before.len() {
                assert(all[k] == before[k]);
            }
        }
    }
}

/// The records kept for a source stand in the order of their lines: their
/// line numbers ascend.
pub proof fn lemma_kept_in_order(p: PatternView, filename: Seq<char>, lines: Seq<Seq<char>>, invert: bool)
    ensures
        forall|i: int, j: int|
            0 <= i < j < kept(p, filename, lines, invert).len() ==> (#[trigger] kept(
                p,
                filename,
                lines,
                invert,
            )[i]).lineno < (#[trigger] kept(p, filename, lines, invert)[j]).lineno,
    decreases lines.len(),
{
    if lines.len() > 0 {
        let all = kept(p, filename, lines, invert);
        let before = kept(p, filename, lines.drop_last(), invert);
        lemma_kept_in_order(p, filename, lines.drop_last(), invert);
        lemma_kept_elements(p, filename, lines.drop_last(), invert);
        assert forall|i: int, j: int| 0 <= i < j < all.len() implies (#[trigger] all[i]).lineno
            < (#[trigger] all[j]).lineno by {
            assert(all[i] == before[i]);
            if j < before.len() {
                assert(all[j] == before[j]);
            }
        }
    }
}

/// The record of a line that satisfies the rule of inclusion is among the
/// records kept for its source.
pub proof fn lemma_kept_holds(p: PatternView, filename: Seq<char>, lines: Seq<Seq<char>>, invert: bool, n: int)
    requires
        0 <= n < lines.len(),
        included(spans_in(p, lines[n]), invert),
    ensures
        kept(p, filename, lines, invert).contains(record(p, filename, lines[n], n as nat)),
    decreases lines.len(),
{
    let all = kept(p, filename, lines, invert);
    if n == lines.len() - 1 {
        assert(all.last() == record(p, filename, lines[n], n as nat));
    } else {
        let before = kept(p, filename, lines.drop_last(), invert);
        lemma_kept_holds(p, filename, lines.drop_last(), invert, n);
        let k = before.index_of(record(p, filename, lines[n], n as nat));
        assert(all[k] == before[k]);
    }
}

/// Every record gathered for a pattern carries the hits of its own text,
/// and the rule of inclusion holds of it.
pub proof fn lemma_gathered_elements(p: PatternView, sources: Seq<SourceView>, invert: bool)
    ensures
        forall|k: int|
            0 <= k < gathered(p, sources, invert).len() ==> {
                let r = #[trigger] gathered(p, sources, invert)[k];
                &&& r.matches == spans_in(p, r.line)
                &&& included(r.matches, invert)
            },
    decreases sources.len(),
{
    if sources.len() > 0 {
        lemma_gathered_elements(p, sources.drop_last(), invert);
        lemma_kept_elements(p, label(sources.last().fileident), sources.last().lines, invert);
        let all = gathered(p, sources, invert);
        let before = gathered(p, sources.drop_last(), invert);
        let last = kept(p, label(sources.last().fileident), sources.last().lines, invert);
        assert forall|k: int| 0 <= k < all.len() implies {
            let r = #[trigger] all[k];
            &&& r.matches == spans_in(p, r.line)
            &&& included(r.matches, invert)
        } by {
            if k < before.len() {
                assert(all[k] == before[k]);
            } else {
                assert(all[k] == last[k - before.len()]);
            }
        }
    }
}

/// What is kept for one source is among what is gathered over all sources.
pub proof fn lemma_gathered_holds(p: PatternView, sources: Seq<SourceView>, invert: bool, i: int, r: LineView)
    requires
        0 <= i < sources.len(),
        kept(p, label(sources[i].fileident), sources[i].lines, invert).contains(r),
    ensures
        gathered(p, sources, invert).contains(r),
    decreases sources.len(),
{
    let all = gathered(p, sources, invert);
    let before = gathered(p, sources.drop_last(), invert);
    let last = kept(p, label(sources.last().fileident), sources.last().lines, invert);
    if i == sources.len() - 1 {
        let k = last.index_of(r);
        assert(all[before.len() + k] == r);
    } else {
        lemma_gathered_holds(p, sources.drop_last(), invert, i, r);
        let k = before.index_of(r);
        assert(all[k] == r);
    }
}

/// The names by which the sources were given.
pub open spec fn fileidents(sources: Seq<SourceView>) -> Seq<Seq<char>> {
    sources.map_values(|s: SourceView| s.fileident)
}

/// The names under which sources given by `fileidents` appear in the result.
pub open spec fn labelled(fileidents: Seq<Seq<char>>) -> Seq<Seq<char>> {
    fileidents.map_values(|f: Seq<char>| label(f))
}

/// The names under which the sources appear in the result.
pub open spec fn labels(sources: Seq<SourceView>) -> Seq<Seq<char>> {
    labelled(fileidents(sources))
}

/// Every record gathered for a pattern bears the label of one of the
/// sources.
pub proof fn lemma_gathered_labels(p: PatternView, sources: Seq<SourceView>, invert: bool)
    ensures
        forall|k: int|
            0 <= k < gathered(p, sources, invert).len() ==> labels(sources).contains(
                (#[trigger] gathered(p, sources, invert)[k]).filename,
            ),
    decreases sources.len(),
{
    if sources.len() > 0 {
        let earlier = sources.drop_last();
        lemma_gathered_labels(p, earlier, invert);
        lemma_kept_elements(p, label(sources.last().fileident), sources.last().lines, invert);
        let all = gathered(p, sources, invert);
        let before = gathered(p, earlier, invert);
        let last = kept(p, label(sources.last().fileident), sources.last().lines, invert);
        assert forall|k: int| 0 <= k < all.len() implies labels(sources).contains((#[trigger] all[k]).filename) by {
            if k < before.len() {
                assert(all[k] == before[k]);
                let i = labels(earlier).index_of(before[k].filename);
                assert(labels(sources)[i] == before[k].filename);
            } else {
                assert(all[k] == last[k - before.len()]);
                assert(labels(sources)[sources.len() - 1] == all[k].filename);
            }
        }
    }
}

/// Membership in the aggregate: the record of a line of a source is in the
/// entry of pattern `p` exactly when the line has a hit, or, with `invert`,
/// exactly when it has none. Turning `invert` around turns membership
/// around; the hits that the record carries do not depend on it.
pub proof fn lemma_membership(p: PatternView, sources: Seq<SourceView>, invert: bool, i: int, n: int)
    requires
        0 <= i < sources.len(),
        0 <= n < sources[i].lines.len(),
    ensures
        ({
            let r = record(p, label(sources[i].fileident), sources[i].lines[n], n as nat);
            &&& gathered(p, sources, invert).contains(r) <==> included(spans_in(p, sources[i].lines[n]), invert)
            &&& gathered(p, sources, !invert).contains(r) <==> !gathered(p, sources, invert).contains(r)
            &&& r.matches == spans_in(p, sources[i].lines[n])
        }),
{
    let r = record(p, label(sources[i].fileident), sources[i].lines[n], n as nat);
    let line = sources[i].lines[n];
    lemma_gathered_elements(p, sources, invert);
    lemma_gathered_elements(p, sources, !invert);
    if gathered(p, sources, invert).contains(r) {
        let k = gathered(p, sources, invert).index_of(r);
        assert(included(gathered(p, sources, invert)[k].matches, invert));
    }
    if gathered(p, sources, !invert).contains(r) {
        let k = gathered(p, sources, !invert).index_of(r);
        assert(included(gathered(p, sources, !invert)[k].matches, !invert));
    }
    if included(spans_in(p, line), invert) {
        lemma_kept_holds(p, label(sources[i].fileident), sources[i].lines, invert, n);
        lemma_gathered_holds(p, sources, invert, i, r);
    } else {
        lemma_kept_holds(p, label(sources[i].fileident), sources[i].lines, !invert, n);
        lemma_gathered_holds(p, sources, !invert, i, r);
    }
}

} // verus!
