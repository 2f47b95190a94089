//! The five views of an aggregate, rendered as text.

use crate::cli::{Cli, CliView};
use crate::matcher::{
    aggregate_valid, gathered, labelled, labels, lemma_gathered_labels, lines_valid, lines_view, source_label,
    span_valid, spans_ascending, spans_valid, Line, LineView, Match, MatchesMap, SourceView,
};
use crate::paint::{cyan, cyan_if, magenta, magenta_if, red, red_if, yellow, yellow_bold, yellow_bold_if, yellow_if};
use crate::pattern::PatternView;
use crate::text::{
    byte_len, bytes_of, decimal, lemma_ends_on_boundary, lemma_slice_empty, lemma_slice_join, lemma_slice_whole,
    on_boundary, push_decimal, slice_text, substr, texts,
};
use vstd::hash_map::StringHashMap;
use vstd::prelude::*;
use vstd::string::*;

verus! {

/// Which fields stand in front of a line of output.
#[derive(Debug, Clone, Copy, PartialEq, Eq, Structural)]
pub struct PrefixFormatOptions {
    /// The name of the source.
    pub ifn: bool,
    /// The line number, counted from one.
    pub iln: bool,
    /// The name of the pattern.
    pub ipatn: bool,
    /// A colon behind each field.
    pub isep: bool,
}

/// The fields that the options of the run ask for, each followed by a colon.
pub open spec fn default_options(cli: CliView) -> PrefixFormatOptions {
    PrefixFormatOptions { ifn: cli.with_filename, iln: cli.line_number, ipatn: cli.show_pattern, isep: true }
}

impl PrefixFormatOptions {
    /// The fields that the options of the run ask for, each followed by a
    /// colon.
    pub fn new(cli: &Cli) -> (o: PrefixFormatOptions)
        ensures
            o == default_options(cli@),
    {
        PrefixFormatOptions { ifn: cli.with_filename, iln: cli.line_number, ipatn: cli.show_pattern, isep: true }
    }
}

/// What follows each field of a prefix.
pub open spec fn separator(isep: bool) -> Seq<char> {
    if isep {
        seq![':']
    } else {
        Seq::empty()
    }
}

/// The prefix of a line of output: the fixed prefix of the run, then, as
/// far as `o` selects them, the pattern name in yellow, the source name in
/// magenta and the line number, counted from one, in cyan, each with its
/// separator.
pub open spec fn prefix_text(
    cli: CliView,
    o: PrefixFormatOptions,
    filename: Seq<char>,
    lineno: nat,
    patn: Seq<char>,
) -> Seq<char> {
    cli.prefix + (if o.ipatn {
        yellow_if(cli.color, patn + separator(o.isep))
    } else {
        Seq::empty()
    }) + (if o.ifn {
        magenta_if(cli.color, filename + separator(o.isep))
    } else {
        Seq::empty()
    }) + (if o.iln {
        cyan_if(cli.color, decimal(lineno + 1) + separator(o.isep))
    } else {
        Seq::empty()
    })
}

/// Composes the prefix of a line of output.
pub fn format_prefix(filename: &str, lineno: usize, patn: &str, o: PrefixFormatOptions, cli: &Cli) -> (s: String)
    ensures
        s@ == prefix_text(cli@, o, filename@, lineno as nat, patn@),
{
    proof {
        reveal_strlit(":");
        reveal_strlit("");
    }
    let sep = if o.isep {
        ":"
    } else {
        ""
    };
    assert(sep@ =~= separator(o.isep));
    let mut s = cli.prefix.clone();
    if o.ipatn {
        let mut field = String::from_str(patn);
        field.append(sep);
        s.append(yellow(field.as_str(), cli.color).as_str());
    }
    if o.ifn {
        let mut field = String::from_str(filename);
        field.append(sep);
        s.append(magenta(field.as_str(), cli.color).as_str());
    }
    if o.iln {
        let mut field = String::new();
        push_decimal(&mut field, lineno as u128 + 1);
        field.append(sep);
        s.append(cyan(field.as_str(), cli.color).as_str());
    }
    assert(s@ =~= prefix_text(cli@, o, filename@, lineno as nat, patn@));
    s
}

/// The banner of a pattern's section: an exclamation mark in red where the
/// match is inverted, the pattern name in bold yellow, and the number of
/// kept lines in parentheses.
pub open spec fn banner_text(cli: CliView, pat: Seq<char>, count: nat) -> Seq<char> {
    (if cli.invert_match {
        red_if(cli.color, seq!['!'])
    } else {
        Seq::empty()
    }) + yellow_bold_if(cli.color, pat) + seq![' ', '('] + decimal(count) + seq![')', '\n']
}

/// The heading of a pattern's section: its banner, unless headings are
/// hidden.
pub open spec fn heading_text(cli: CliView, pat: Seq<char>, count: nat) -> Seq<char> {
    if cli.hide_heading {
        Seq::empty()
    } else {
        banner_text(cli, pat, count)
    }
}

/// Appends the banner of a pattern's section to `out`.
pub fn print_banner(pat: &str, count: usize, cli: &Cli, out: &mut String)
    ensures
        final(out)@ == old(out)@ + banner_text(cli@, pat@, count as nat),
{
    proof {
        reveal_strlit("!");
        reveal_strlit(" (");
        reveal_strlit(")\n");
    }
    assert("!"@ =~= seq!['!']);
    if cli.invert_match {
        out.append(red("!", cli.color).as_str());
    }
    out.append(yellow_bold(pat, cli.color).as_str());
    out.append(" (");
    push_decimal(out, count as u128);
    out.append(")\n");
    assert(out@ =~= old(out)@ + banner_text(cli@, pat@, count as nat));
}

/// Appends the heading of a pattern's section to `out`.
pub fn print_heading(pat: &str, count: usize, cli: &Cli, out: &mut String)
    ensures
        final(out)@ == old(out)@ + heading_text(cli@, pat@, count as nat),
{
    if !cli.hide_heading {
        print_banner(pat, count, cli, out);
    }
    assert(out@ =~= old(out)@ + heading_text(cli@, pat@, count as nat));
}

/// The text of a line with its hits marked in red, from byte offset `from`
/// on: each stretch between the hits is copied as it is, each hit that is
/// not empty is marked, and what follows the last hit is copied.
///
/// The hits are taken in the order given. A stretch is copied only where
/// the next hit begins behind `from`; a hit that begins before `from` is
/// marked all the same, and copying goes on behind it.
pub open spec fn highlighted(on: bool, text: Seq<char>, spans: Seq<Match>, from: int) -> Seq<char>
    decreases spans.len(),
{
    if spans.len() == 0 {
        if from < bytes_of(text).len() {
            slice_text(text, from, bytes_of(text).len() as int)
        } else {
            Seq::empty()
        }
    } else {
        let m = spans[0];
        (if from < m.moffbeg {
            slice_text(text, from, m.moffbeg as int)
        } else {
            Seq::empty()
        }) + (if m.moffbeg < m.moffend {
            red_if(on, slice_text(text, m.moffbeg as int, m.moffend as int))
        } else {
            Seq::empty()
        }) + highlighted(on, text, spans.drop_first(), m.moffend as int)
    }
}

/// The text of the line with every hit marked in red.
pub fn highlight_matches(text: &str, matches: &Vec<Match>, on: bool) -> (result: String)
    requires
        spans_valid(text@, matches@),
    ensures
        result@ == highlighted(on, text@, matches@, 0),
{
    let mut result = String::new();
    let mut last_index: usize = 0;
    let mut i: usize = 0;
    assert(matches@.skip(0) =~= matches@);
    while i < matches.len()
        invariant
            spans_valid(text@, matches@),
            i <= matches.len(),
            i == 0 ==> last_index == 0,
            i > 0 ==> last_index == matches[i - 1].moffend,
            result@ + highlighted(on, text@, matches@.skip(i as int), last_index as int) == highlighted(
                on,
                text@,
                matches@,
                0,
            ),
        decreases matches.len() - i,
    {
        let m = matches[i];
        let ghost before = result@;
        proof {
            lemma_ends_on_boundary(text@);
        }
        assert(span_valid(text@, matches@[i as int]));
        assert(i > 0 ==> span_valid(text@, matches@[i - 1]));
        assert(matches@.skip(i as int)[0] == m);
        assert(matches@.skip(i as int).drop_first() =~= matches@.skip(i + 1));
        if last_index < m.moffbeg {
            result.append(substr(text, last_index, m.moffbeg));
        }
        if m.moffbeg < m.moffend {
            let matched = substr(text, m.moffbeg, m.moffend);
            result.append(red(matched, on).as_str());
        }
        assert(result@ + highlighted(on, text@, matches@.skip(i + 1), m.moffend as int) =~= before + highlighted(
            on,
            text@,
            matches@.skip(i as int),
            last_index as int,
        ));
        last_index = m.moffend;
        i += 1;
    }
    assert(i > 0 ==> span_valid(text@, matches@[i - 1]));
    proof {
        lemma_ends_on_boundary(text@);
    }
    let end = byte_len(text);
    if last_index < end {
        result.append(substr(text, last_index, end));
    }
    assert(result@ =~= highlighted(on, text@, matches@, 0));
    result
}

/// Without colour, marking hits that come from left to right without
/// overlap changes nothing: what is written from `from` on is the text
/// from `from` on.
pub proof fn lemma_highlighted_rest(text: Seq<char>, spans: Seq<Match>, from: int)
    requires
        spans_valid(text, spans),
        spans_ascending(spans),
        on_boundary(text, from),
        spans.len() > 0 ==> from <= spans[0].moffbeg,
    ensures
        highlighted(false, text, spans, from) == slice_text(text, from, bytes_of(text).len() as int),
    decreases spans.len(),
{
    let end = bytes_of(text).len() as int;
    lemma_ends_on_boundary(text);
    if spans.len() == 0 {
        if from == end {
            lemma_slice_empty(text, from);
        }
    } else {
        let m = spans[0];
        let rest = spans.drop_first();
        assert(span_valid(text, spans[0]));
        assert forall|i: int| 0 <= i < rest.len() implies span_valid(text, #[trigger] rest[i]) by {
            assert(rest[i] == spans[i + 1]);
        }
        assert forall|i: int, j: int| 0 <= i < j < rest.len() implies (#[trigger] rest[i]).moffend
            <= (#[trigger] rest[j]).moffbeg by {
            assert(rest[i] == spans[i + 1] && rest[j] == spans[j + 1]);
        }
        if rest.len() > 0 {
            assert(rest[0] == spans[1]);
        }
        lemma_highlighted_rest(text, rest, m.moffend as int);
        lemma_slice_empty(text, from);
        lemma_slice_empty(text, m.moffbeg as int);
        lemma_slice_join(text, from, m.moffbeg as int, m.moffend as int);
        lemma_slice_join(text, from, m.moffend as int, end);
    }
}

/// Without colour, a line whose hits come from left to right without
/// overlap is written as it is.
pub proof fn lemma_highlighted_plain(text: Seq<char>, spans: Seq<Match>)
    requires
        spans_valid(text, spans),
        spans_ascending(spans),
    ensures
        highlighted(false, text, spans, 0) == text,
{
    lemma_ends_on_boundary(text);
    lemma_highlighted_rest(text, spans, 0);
    lemma_slice_whole(text);
}

/// One line of the full-line view: the prefix, the text of the line with
/// its hits marked, and a line feed.
pub open spec fn line_text(cli: CliView, name: Seq<char>, l: LineView) -> Seq<char> {
    prefix_text(cli, default_options(cli), l.filename, l.lineno, name) + highlighted(cli.color, l.line, l.matches, 0)
        + seq!['\n']
}

/// The full-line view of the lines of one pattern.
pub open spec fn full_lines_text(cli: CliView, name: Seq<char>, lines: Seq<LineView>) -> Seq<char>
    decreases lines.len(),
{
    if lines.len() == 0 {
        Seq::empty()
    } else {
        full_lines_text(cli, name, lines.drop_last()) + line_text(cli, name, lines.last())
    }
}

/// Appends one line of the full-line view to `out`.
pub fn print_full_line(name: &str, line: &Line, cli: &Cli, out: &mut String)
    requires
        spans_valid(line@.line, line@.matches),
    ensures
        final(out)@ == old(out)@ + line_text(cli@, name@, line@),
{
    proof {
        reveal_strlit("\n");
    }
    let prefix = format_prefix(line.filename.as_str(), line.lineno, name, PrefixFormatOptions::new(cli), cli);
    let marked = highlight_matches(line.line.as_str(), &line.matches, cli.color);
    out.append(prefix.as_str());
    out.append(marked.as_str());
    out.append("\n");
    assert(out@ =~= old(out)@ + line_text(cli@, name@, line@));
}

/// Appends the full-line view of the lines of pattern `name` to `out`.
pub fn print_full_lines(name: &str, lines: &Vec<Line>, cli: &Cli, out: &mut String)
    requires
        lines_valid(lines_view(lines@)),
    ensures
        final(out)@ == old(out)@ + full_lines_text(cli@, name@, lines_view(lines@)),
{
    let ghost all = lines_view(lines@);
    let mut i: usize = 0;
    assert(all.take(0) =~= Seq::<LineView>::empty());
    while i < lines.len()
        invariant
            i <= lines.len(),
            all == lines_view(lines@),
            lines_valid(all),
            out@ == old(out)@ + full_lines_text(cli@, name@, all.take(i as int)),
        decreases lines.len() - i,
    {
        let line = &lines[i];
        assert(all[i as int] == line@);
        assert(all.take(i + 1).drop_last() =~= all.take(i as int));
        print_full_line(name, line, cli, out);
        assert(out@ =~= old(out)@ + full_lines_text(cli@, name@, all.take(i + 1)));
        i += 1;
    }
    assert(all.take(lines.len() as int) =~= all);
}

/// One line of the match-only view: the prefix, the text of one hit in red,
/// and a line feed.
pub open spec fn match_text(cli: CliView, name: Seq<char>, l: LineView, m: Match) -> Seq<char> {
    prefix_text(cli, default_options(cli), l.filename, l.lineno, name) + red_if(
        cli.color,
        slice_text(l.line, m.moffbeg as int, m.moffend as int),
    ) + seq!['\n']
}

/// The match-only view of the hits `spans` of one line.
pub open spec fn line_matches_text(cli: CliView, name: Seq<char>, l: LineView, spans: Seq<Match>) -> Seq<char>
    decreases spans.len(),
{
    if spans.len() == 0 {
        Seq::empty()
    } else {
        line_matches_text(cli, name, l, spans.drop_last()) + match_text(cli, name, l, spans.last())
    }
}

/// The match-only view of the lines of one pattern.
pub open spec fn only_matches_text(cli: CliView, name: Seq<char>, lines: Seq<LineView>) -> Seq<char>
    decreases lines.len(),
{
    if lines.len() == 0 {
        Seq::empty()
    } else {
        only_matches_text(cli, name, lines.drop_last()) + line_matches_text(
            cli,
            name,
            lines.last(),
            lines.last().matches,
        )
    }
}

/// Appends the match-only view of one line of pattern `name` to `out`.
pub fn print_line_matches(name: &str, line: &Line, cli: &Cli, out: &mut String)
    requires
        spans_valid(line@.line, line@.matches),
    ensures
        final(out)@ == old(out)@ + line_matches_text(cli@, name@, line@, line@.matches),
{
    proof {
        reveal_strlit("\n");
    }
    let ghost spans = line@.matches;
    let mut k: usize = 0;
    assert(spans.take(0) =~= Seq::<Match>::empty());
    while k < line.matches.len()
        invariant
            k <= line.matches.len(),
            spans == line@.matches,
            spans_valid(line@.line, spans),
            "\n"@ == seq!['\n'],
            out@ == old(out)@ + line_matches_text(cli@, name@, line@, spans.take(k as int)),
        decreases line.matches.len() - k,
    {
        let m = line.matches[k];
        assert(span_valid(line@.line, spans[k as int]));
        assert(spans.take(k + 1).drop_last() =~= spans.take(k as int));
        let prefix = format_prefix(line.filename.as_str(), line.lineno, name, PrefixFormatOptions::new(cli), cli);
        out.append(prefix.as_str());
        out.append(red(substr(line.line.as_str(), m.moffbeg, m.moffend), cli.color).as_str());
        out.append("\n");
        assert(out@ =~= old(out)@ + line_matches_text(cli@, name@, line@, spans.take(k + 1)));
        k += 1;
    }
    assert(spans.take(line.matches.len() as int) =~= spans);
}

/// Appends the match-only view of the lines of pattern `name` to `out`.
pub fn print_only_matches(name: &str, lines: &Vec<Line>, cli: &Cli, out: &mut String)
    requires
        lines_valid(lines_view(lines@)),
    ensures
        final(out)@ == old(out)@ + only_matches_text(cli@, name@, lines_view(lines@)),
{
    let ghost all = lines_view(lines@);
    let mut i: usize = 0;
    assert(all.take(0) =~= Seq::<LineView>::empty());
    while i < lines.len()
        invariant
            i <= lines.len(),
            all == lines_view(lines@),
            lines_valid(all),
            out@ == old(out)@ + only_matches_text(cli@, name@, all.take(i as int)),
        decreases lines.len() - i,
    {
        let line = &lines[i];
        assert(all[i as int] == line@);
        assert(all.take(i + 1).drop_last() =~= all.take(i as int));
        print_line_matches(name, line, cli, out);
        assert(out@ =~= old(out)@ + only_matches_text(cli@, name@, all.take(i + 1)));
        i += 1;
    }
    assert(all.take(lines.len() as int) =~= all);
}

/// A run: consecutive lines of one source, and how many they are.
pub struct Run {
    pub filename: Seq<char>,
    pub count: nat,
}

/// The lines grouped into runs of consecutive lines with the same source
/// name, in order.
pub open spec fn runs(lines: Seq<LineView>) -> Seq<Run>
    decreases lines.len(),
{
    if lines.len() == 0 {
        Seq::empty()
    } else {
        let before = runs(lines.drop_last());
        let filename = lines.last().filename;
        if before.len() > 0 && before.last().filename == filename {
            before.drop_last().push(Run { filename, count: before.last().count + 1 })
        } else {
            before.push(Run { filename, count: 1 })
        }
    }
}

/// The fields in front of a count: the name of the source, where the
/// options of the run ask for it, and nothing else.
pub open spec fn count_options(cli: CliView) -> PrefixFormatOptions {
    PrefixFormatOptions { ifn: cli.with_filename, iln: false, ipatn: false, isep: true }
}

/// One line of the count view: the prefix of the run's source and the
/// number of its lines.
pub open spec fn run_text(cli: CliView, run: Run) -> Seq<char> {
    prefix_text(cli, count_options(cli), run.filename, 0, Seq::empty()) + decimal(run.count) + seq!['\n']
}

/// The count view of a sequence of runs.
pub open spec fn runs_text(cli: CliView, runs: Seq<Run>) -> Seq<char>
    decreases runs.len(),
{
    if runs.len() == 0 {
        Seq::empty()
    } else {
        runs_text(cli, runs.drop_last()) + run_text(cli, runs.last())
    }
}

/// Appends one line of the count view to `out`.
fn print_run(filename: &str, count: usize, cli: &Cli, out: &mut String)
    ensures
        final(out)@ == old(out)@ + run_text(cli@, Run { filename: filename@, count: count as nat }),
{
    proof {
        reveal_strlit("");
        reveal_strlit("\n");
    }
    assert(""@ =~= Seq::<char>::empty());
    let o = PrefixFormatOptions { ifn: cli.with_filename, iln: false, ipatn: false, isep: true };
    out.append(format_prefix(filename, 0, "", o, cli).as_str());
    push_decimal(out, count as u128);
    out.append("\n");
    assert(out@ =~= old(out)@ + run_text(cli@, Run { filename: filename@, count: count as nat }));
}

/// Appends the count view of the lines of one pattern to `out`: one line
/// for each run of consecutive lines of the same source.
pub fn print_runs(lines: &Vec<Line>, cli: &Cli, out: &mut String)
    ensures
        final(out)@ == old(out)@ + runs_text(cli@, runs(lines_view(lines@))),
{
    let ghost all = lines_view(lines@);
    let mut count: usize = 0;
    let mut i: usize = 0;
    assert(all.take(0) =~= Seq::<LineView>::empty());
    while i < lines.len()
        invariant
            i <= lines.len(),
            all == lines_view(lines@),
            count <= i,
            i == 0 ==> out@ == old(out)@,
            i > 0 ==> {
                let done = runs(all.take(i as int));
                &&& done.len() > 0
                &&& done.last() == (Run { filename: lines[i - 1].filename@, count: count as nat })
                &&& out@ == old(out)@ + runs_text(cli@, done.drop_last())
            },
        decreases lines.len() - i,
    {
        assert(all[i as int] == lines[i as int]@);
        assert(all.take(i + 1).drop_last() =~= all.take(i as int));
        if i == 0 {
            count = 1;
        } else if lines[i].filename == lines[i - 1].filename {
            count += 1;
            let ghost done = runs(all.take(i as int));
            assert(runs(all.take(i + 1)).drop_last() =~= done.drop_last());
        } else {
            print_run(lines[i - 1].filename.as_str(), count, cli, out);
            count = 1;
            let ghost done = runs(all.take(i as int));
            assert(runs(all.take(i + 1)).drop_last() =~= done);
        }
        i += 1;
    }
    assert(all.take(lines.len() as int) =~= all);
    if lines.len() > 0 {
        print_run(lines[lines.len() - 1].filename.as_str(), count, cli, out);
    }
}

/// The names of the sources of the lines, each named once for each run of
/// consecutive lines that it has.
pub open spec fn files_with(lines: Seq<LineView>) -> Seq<Seq<char>>
    decreases lines.len(),
{
    if lines.len() == 0 {
        Seq::empty()
    } else if lines.len() >= 2 && lines[lines.len() - 2].filename == lines.last().filename {
        files_with(lines.drop_last())
    } else {
        files_with(lines.drop_last()).push(lines.last().filename)
    }
}

/// A line of source `filename` is among the lines.
pub open spec fn appears(lines: Seq<LineView>, filename: Seq<char>) -> bool {
    exists|i: int| 0 <= i < lines.len() && (#[trigger] lines[i]).filename == filename
}

/// Those of `filenames` of which no line is among the lines, in the order
/// of `filenames`.
pub open spec fn files_without(lines: Seq<LineView>, filenames: Seq<Seq<char>>) -> Seq<Seq<char>>
    decreases filenames.len(),
{
    if filenames.len() == 0 {
        Seq::empty()
    } else if appears(lines, filenames.last()) {
        files_without(lines, filenames.drop_last())
    } else {
        files_without(lines, filenames.drop_last()).push(filenames.last())
    }
}

/// The fields in front of a source's name in the two views of sources: the
/// pattern name where the run asks for it, and the name itself, without
/// separators.
pub open spec fn file_options(cli: CliView) -> PrefixFormatOptions {
    PrefixFormatOptions { ifn: true, iln: false, ipatn: cli.show_pattern, isep: false }
}

/// One line of a view of sources: the pattern name with a colon, where the
/// run asks for it, and the name of the source.
pub open spec fn file_text(cli: CliView, name: Seq<char>, filename: Seq<char>) -> Seq<char> {
    prefix_text(cli, file_options(cli), filename, 0, name + seq![':']) + seq!['\n']
}

/// A view of sources: one line for each name.
pub open spec fn files_text(cli: CliView, name: Seq<char>, filenames: Seq<Seq<char>>) -> Seq<char>
    decreases filenames.len(),
{
    if filenames.len() == 0 {
        Seq::empty()
    } else {
        files_text(cli, name, filenames.drop_last()) + file_text(cli, name, filenames.last())
    }
}

/// Appends one line of a view of sources to `out`.
fn print_file(name: &str, filename: &str, cli: &Cli, out: &mut String)
    ensures
        final(out)@ == old(out)@ + file_text(cli@, name@, filename@),
{
    proof {
        reveal_strlit(":");
        reveal_strlit("\n");
    }
    let mut patn = String::from_str(name);
    patn.append(":");
    assert(patn@ =~= name@ + seq![':']);
    let o = PrefixFormatOptions { ifn: true, iln: false, ipatn: cli.show_pattern, isep: false };
    out.append(format_prefix(filename, 0, patn.as_str(), o, cli).as_str());
    out.append("\n");
    assert(out@ =~= old(out)@ + file_text(cli@, name@, filename@));
}

/// Appends to `out` the source of each run of the lines of pattern `name`.
pub fn print_files_with(name: &str, lines: &Vec<Line>, cli: &Cli, out: &mut String)
    ensures
        final(out)@ == old(out)@ + files_text(cli@, name@, files_with(lines_view(lines@))),
{
    let ghost all = lines_view(lines@);
    let mut i: usize = 0;
    assert(all.take(0) =~= Seq::<LineView>::empty());
    while i < lines.len()
        invariant
            i <= lines.len(),
            all == lines_view(lines@),
            out@ == old(out)@ + files_text(cli@, name@, files_with(all.take(i as int))),
        decreases lines.len() - i,
    {
        assert(all[i as int] == lines[i as int]@);
        assert(i > 0 ==> all[i - 1] == lines[i - 1]@);
        assert(all.take(i + 1).drop_last() =~= all.take(i as int));
        if i == 0 || !(lines[i].filename == lines[i - 1].filename) {
            print_file(name, lines[i].filename.as_str(), cli, out);
            assert(files_with(all.take(i + 1)).drop_last() =~= files_with(all.take(i as int)));
        }
        i += 1;
    }
    assert(all.take(lines.len() as int) =~= all);
}

/// Appends to `out`, for each source given by `filenames`, the name under
/// which it appears in the result, unless it is the source of one of the
/// lines of pattern `name`.
pub fn print_files_without(name: &str, lines: &Vec<Line>, filenames: &Vec<String>, cli: &Cli, out: &mut String)
    ensures
        final(out)@ == old(out)@ + files_text(
            cli@,
            name@,
            files_without(lines_view(lines@), labelled(texts(filenames@))),
        ),
{
    let ghost all = lines_view(lines@);
    let ghost names = labelled(texts(filenames@));
    let mut seen: StringHashMap<bool> = StringHashMap::new();
    let mut i: usize = 0;
    while i < lines.len()
        invariant
            i <= lines.len(),
            all == lines_view(lines@),
            forall|f: Seq<char>| seen@.contains_key(f) <==> appears(all.take(i as int), f),
        decreases lines.len() - i,
    {
        assert(all[i as int] == lines[i as int]@);
        let ghost earlier = all.take(i as int);
        let ghost now = all.take(i + 1);
        let ghost fresh = lines[i as int].filename@;
        seen.insert(lines[i].filename.clone(), true);
        assert forall|f: Seq<char>| seen@.contains_key(f) <==> appears(now, f) by {
            if appears(earlier, f) {
                let k = choose|k: int| 0 <= k < earlier.len() && (#[trigger] earlier[k]).filename == f;
                assert(now[k].filename == f);
            }
            if f == fresh {
                assert(now[i as int].filename == f);
            }
            if appears(now, f) {
                let k = choose|k: int| 0 <= k < now.len() && (#[trigger] now[k]).filename == f;
                if k < i {
                    assert(earlier[k].filename == f);
                }
            }
        }
        i += 1;
    }
    assert(all.take(lines.len() as int) =~= all);
    let mut j: usize = 0;
    assert(names.take(0) =~= Seq::<Seq<char>>::empty());
    while j < filenames.len()
        invariant
            j <= filenames.len(),
            names == labelled(texts(filenames@)),
            forall|f: Seq<char>| seen@.contains_key(f) <==> appears(all, f),
            out@ == old(out)@ + files_text(cli@, name@, files_without(all, names.take(j as int))),
        decreases filenames.len() - j,
    {
        let shown = source_label(filenames[j].as_str());
        assert(names[j as int] == shown@);
        assert(names.take(j + 1).drop_last() =~= names.take(j as int));
        if !seen.contains_key(shown.as_str()) {
            print_file(name, shown.as_str(), cli, out);
            assert(files_without(all, names.take(j + 1)).drop_last() =~= files_without(all, names.take(j as int)));
        }
        j += 1;
    }
    assert(names.take(filenames.len() as int) =~= names);
}

/// The entry of one pattern in the aggregate: its name and its lines.
pub struct Section {
    pub name: Seq<char>,
    pub lines: Seq<LineView>,
}

/// The entries of the aggregate, in the order of the pattern names.
pub open spec fn sections(map: MatchesMap) -> Seq<Section> {
    Seq::new(map.keys().len(), |i: int| Section { name: map.keys()[i], lines: lines_view(map.values()[i]@) })
}

/// The five views of an aggregate.
#[derive(Debug, Clone, Copy, PartialEq, Eq, Structural)]
pub enum Projection {
    /// Every kept line in full, its hits marked.
    Lines,
    /// Every hit on a line of its own.
    OnlyMatching,
    /// The number of kept lines of each run of a source.
    Count,
    /// The sources with a kept line.
    FilesWithMatches,
    /// The sources without a kept line.
    FilesWithoutMatch,
}

/// The view needs the hits of the lines, not only their sources.
pub open spec fn reads_spans(proj: Projection) -> bool {
    proj == Projection::Lines || proj == Projection::OnlyMatching
}

/// The text of one pattern's section in a view: its heading, unless
/// headings are hidden, and what the view shows of its lines. `sources`
/// are the names of all sources of the run, as they appear in the result.
pub open spec fn section_text(proj: Projection, cli: CliView, sources: Seq<Seq<char>>, s: Section) -> Seq<char> {
    heading_text(cli, s.name, s.lines.len()) + match proj {
        Projection::Lines => full_lines_text(cli, s.name, s.lines),
        Projection::OnlyMatching => only_matches_text(cli, s.name, s.lines),
        Projection::Count => runs_text(cli, runs(s.lines)),
        Projection::FilesWithMatches => files_text(cli, s.name, files_with(s.lines)),
        Projection::FilesWithoutMatch => files_text(cli, s.name, files_without(s.lines, sources)),
    }
}

/// The text of a view: the sections of the patterns, in their order.
pub open spec fn view_text(proj: Projection, cli: CliView, sources: Seq<Seq<char>>, sections: Seq<Section>) -> Seq<
    char,
>
    decreases sections.len(),
{
    if sections.len() == 0 {
        Seq::empty()
    } else {
        view_text(proj, cli, sources, sections.drop_last()) + section_text(proj, cli, sources, sections.last())
    }
}

/// Appends the section of pattern `name` in the view `proj` to `out`.
/// `filenames` are the sources of the run as they were given; the view of
/// sources without a kept line lists them under the names by which they
/// appear in the result.
pub fn print_section(
    proj: Projection,
    name: &str,
    lines: &Vec<Line>,
    filenames: &Vec<String>,
    cli: &Cli,
    out: &mut String,
)
    requires
        reads_spans(proj) ==> lines_valid(lines_view(lines@)),
    ensures
        final(out)@ == old(out)@ + section_text(
            proj,
            cli@,
            labelled(texts(filenames@)),
            Section { name: name@, lines: lines_view(lines@) },
        ),
{
    print_heading(name, lines.len(), cli, out);
    match proj {
        Projection::Lines => {
            print_full_lines(name, lines, cli, out);
        },
        Projection::OnlyMatching => {
            print_only_matches(name, lines, cli, out);
        },
        Projection::Count => {
            print_runs(lines, cli, out);
        },
        Projection::FilesWithMatches => {
            print_files_with(name, lines, cli, out);
        },
        Projection::FilesWithoutMatch => {
            print_files_without(name, lines, filenames, cli, out);
        },
    }
    assert(out@ =~= old(out)@ + section_text(
        proj,
        cli@,
        labelled(texts(filenames@)),
        Section { name: name@, lines: lines_view(lines@) },
    ));
}

/// Appends the view `proj` of the aggregate to `out`: the sections of the
/// patterns in the order of their names, each with its lines in their
/// order. `filenames` are the sources of the run as they were given.
pub fn print_view(proj: Projection, pats: &MatchesMap, filenames: &Vec<String>, cli: &Cli, out: &mut String)
    requires
        pats.wf(),
        reads_spans(proj) ==> aggregate_valid(*pats),
    ensures
        final(out)@ == old(out)@ + view_text(proj, cli@, labelled(texts(filenames@)), sections(*pats)),
{
    let ghost all = sections(*pats);
    let ghost sources = labelled(texts(filenames@));
    let mut i: usize = 0;
    assert(all.take(0) =~= Seq::<Section>::empty());
    while i < pats.len()
        invariant
            pats.wf(),
            reads_spans(proj) ==> aggregate_valid(*pats),
            i <= pats.keys().len(),
            all == sections(*pats),
            sources == labelled(texts(filenames@)),
            out@ == old(out)@ + view_text(proj, cli@, sources, all.take(i as int)),
        decreases pats.keys().len() - i,
    {
        let name = pats.key(i);
        let lines = pats.value(i);
        assert(all.take(i + 1).drop_last() =~= all.take(i as int));
        assert(all[i as int] == Section { name: name@, lines: lines_view(lines@) });
        print_section(proj, name.as_str(), lines, filenames, cli, out);
        assert(out@ =~= old(out)@ + view_text(proj, cli@, sources, all.take(i + 1)));
        i += 1;
    }
    assert(all.take(pats.keys().len() as int) =~= all);
}

/// Appends the full-line view to `out`: for each pattern its heading, then
/// each kept line with its prefix and its hits marked.
pub fn print_matches_line(pats: &MatchesMap, cli: &Cli, out: &mut String)
    requires
        pats.wf(),
        aggregate_valid(*pats),
    ensures
        final(out)@ == old(out)@ + view_text(Projection::Lines, cli@, labelled(cli@.filenames), sections(*pats)),
{
    print_view(Projection::Lines, pats, &cli.filenames, cli, out)
}

/// Appends the match-only view to `out`: for each pattern its heading, then
/// each hit of each kept line with the line's prefix.
pub fn print_matches(pats: &MatchesMap, cli: &Cli, out: &mut String)
    requires
        pats.wf(),
        aggregate_valid(*pats),
    ensures
        final(out)@ == old(out)@ + view_text(
            Projection::OnlyMatching,
            cli@,
            labelled(cli@.filenames),
            sections(*pats),
        ),
{
    print_view(Projection::OnlyMatching, pats, &cli.filenames, cli, out)
}

/// Appends the count view to `out`: for each pattern its heading, then for
/// each run of consecutive lines of one source the number of its lines.
pub fn print_count(pats: &MatchesMap, cli: &Cli, out: &mut String)
    requires
        pats.wf(),
    ensures
        final(out)@ == old(out)@ + view_text(Projection::Count, cli@, labelled(cli@.filenames), sections(*pats)),
{
    print_view(Projection::Count, pats, &cli.filenames, cli, out)
}

/// Appends the view of sources with a kept line to `out`: for each pattern
/// its heading, then the source of each run of its lines.
pub fn print_files_with_matches(matches: &MatchesMap, cli: &Cli, out: &mut String)
    requires
        matches.wf(),
    ensures
        final(out)@ == old(out)@ + view_text(
            Projection::FilesWithMatches,
            cli@,
            labelled(cli@.filenames),
            sections(*matches),
        ),
{
    print_view(Projection::FilesWithMatches, matches, &cli.filenames, cli, out)
}

/// Appends the view of sources without a kept line to `out`: for each
/// pattern its heading, then each source named in the options, in the order
/// given and under the name by which it appears in the result, that is the
/// source of none of the pattern's lines.
pub fn print_files_without_match(matches: &MatchesMap, cli: &Cli, out: &mut String)
    requires
        matches.wf(),
    ensures
        final(out)@ == old(out)@ + view_text(
            Projection::FilesWithoutMatch,
            cli@,
            labelled(cli@.filenames),
            sections(*matches),
        ),
{
    print_view(Projection::FilesWithoutMatch, matches, &cli.filenames, cli, out)
}

/// The view that the options of the run select: the count view before the
/// two views of sources, those before the match-only view, and the
/// full-line view where none is asked for.
pub open spec fn chosen(cli: CliView) -> Projection {
    if cli.count {
        Projection::Count
    } else if cli.files_with_matches {
        Projection::FilesWithMatches
    } else if cli.files_without_match {
        Projection::FilesWithoutMatch
    } else if cli.only_matching {
        Projection::OnlyMatching
    } else {
        Projection::Lines
    }
}

/// The view that the options of the run select.
pub fn projection(cli: &Cli) -> (proj: Projection)
    ensures
        proj == chosen(cli@),
{
    if cli.count {
        Projection::Count
    } else if cli.files_with_matches {
        Projection::FilesWithMatches
    } else if cli.files_without_match {
        Projection::FilesWithoutMatch
    } else if cli.only_matching {
        Projection::OnlyMatching
    } else {
        Projection::Lines
    }
}

/// The text of the view that the options of the run select, with the
/// sources named in the options as the sources of the run.
pub fn render(pats: &MatchesMap, cli: &Cli) -> (text: String)
    requires
        pats.wf(),
        reads_spans(chosen(cli@)) ==> aggregate_valid(*pats),
    ensures
        text@ == view_text(chosen(cli@), cli@, labelled(cli@.filenames), sections(*pats)),
{
    let mut text = String::new();
    print_view(projection(cli), pats, &cli.filenames, cli, &mut text);
    text
}

/// The number of lines that a sequence of runs stands for.
pub open spec fn total(runs: Seq<Run>) -> nat
    decreases runs.len(),
{
    if runs.len() == 0 {
        0
    } else {
        total(runs.drop_last()) + runs.last().count
    }
}

/// The counts of the count view add up: the runs of a pattern's lines
/// stand for as many lines as the pattern has in the aggregate. Each run
/// has at least one line, and its name is that of the lines it stands for.
pub proof fn lemma_runs_total(lines: Seq<LineView>)
    ensures
        total(runs(lines)) == lines.len(),
        forall|k: int| 0 <= k < runs(lines).len() ==> (#[trigger] runs(lines)[k]).count >= 1,
        lines.len() > 0 ==> runs(lines).len() > 0 && runs(lines).last().filename == lines.last().filename,
    decreases lines.len(),
{
    if lines.len() > 0 {
        let before = runs(lines.drop_last());
        let filename = lines.last().filename;
        lemma_runs_total(lines.drop_last());
        if before.len() > 0 && before.last().filename == filename {
            let grown = Run { filename, count: before.last().count + 1 };
            assert(before.drop_last().push(grown).drop_last() =~= before.drop_last());
            assert forall|k: int| 0 <= k < runs(lines).len() implies (#[trigger] runs(lines)[k]).count >= 1 by {
                if k < before.len() - 1 {
                    assert(runs(lines)[k] == before[k]);
                }
            }
        } else {
            assert(before.push(Run { filename, count: 1 }).drop_last() =~= before);
            assert forall|k: int| 0 <= k < runs(lines).len() implies (#[trigger] runs(lines)[k]).count >= 1 by {
                if k < before.len() {
                    assert(runs(lines)[k] == before[k]);
                }
            }
        }
    }
}

/// The sources named by the view of sources with a kept line are exactly
/// the sources of the lines.
pub proof fn lemma_files_with(lines: Seq<LineView>, filename: Seq<char>)
    ensures
        files_with(lines).contains(filename) <==> appears(lines, filename),
    decreases lines.len(),
{
    if lines.len() > 0 {
        let earlier = lines.drop_last();
        let before = files_with(earlier);
        lemma_files_with(earlier, filename);
        if appears(earlier, filename) {
            let k = choose|k: int| 0 <= k < earlier.len() && (#[trigger] earlier[k]).filename == filename;
            assert(lines[k].filename == filename);
            let at = before.index_of(filename);
            assert(files_with(lines)[at] == filename);
        }
        if lines.last().filename == filename {
            assert(lines[lines.len() - 1].filename == filename);
            if lines.len() >= 2 && lines[lines.len() - 2].filename == filename {
                assert(earlier[lines.len() - 2].filename == filename);
            } else {
                assert(files_with(lines).last() == filename);
            }
        }
        if appears(lines, filename) {
            let k = choose|k: int| 0 <= k < lines.len() && (#[trigger] lines[k]).filename == filename;
            if k < lines.len() - 1 {
                assert(earlier[k].filename == filename);
            }
        }
        if files_with(lines).contains(filename) {
            let at = files_with(lines).index_of(filename);
            if at < before.len() {
                assert(before[at] == filename);
            }
        }
    }
}

/// The sources named by the view of sources without a kept line are
/// exactly those of `filenames` that are the source of no line.
pub proof fn lemma_files_without(lines: Seq<LineView>, filenames: Seq<Seq<char>>, filename: Seq<char>)
    ensures
        files_without(lines, filenames).contains(filename) <==> filenames.contains(filename) && !appears(
            lines,
            filename,
        ),
    decreases filenames.len(),
{
    if filenames.len() > 0 {
        let earlier = filenames.drop_last();
        let before = files_without(lines, earlier);
        let all = files_without(lines, filenames);
        lemma_files_without(lines, earlier, filename);
        if earlier.contains(filename) {
            let k = earlier.index_of(filename);
            assert(filenames[k] == filename);
        }
        if before.contains(filename) {
            let at = before.index_of(filename);
            assert(all[at] == filename);
        }
        if filenames.last() == filename {
            assert(filenames[filenames.len() - 1] == filename);
            if !appears(lines, filename) {
                assert(all.last() == filename);
            }
        }
        if filenames.contains(filename) {
            let k = filenames.index_of(filename);
            if k < filenames.len() - 1 {
                assert(earlier[k] == filename);
            }
        }
        if all.contains(filename) {
            let at = all.index_of(filename);
            if at < before.len() {
                assert(before[at] == filename);
            }
        }
    }
}

/// Where every line comes from one of `filenames`, each of `filenames` is
/// listed by exactly one of the two views of sources, and neither lists
/// anything else.
proof fn lemma_files_partition(lines: Seq<LineView>, filenames: Seq<Seq<char>>)
    requires
        forall|i: int| 0 <= i < lines.len() ==> filenames.contains((#[trigger] lines[i]).filename),
    ensures
        forall|f: Seq<char>|
            filenames.contains(f) <==> (#[trigger] files_with(lines).contains(f)) || files_without(
                lines,
                filenames,
            ).contains(f),
        forall|f: Seq<char>|
            !((#[trigger] files_with(lines).contains(f)) && files_without(lines, filenames).contains(f)),
{
    assert forall|f: Seq<char>|
        (filenames.contains(f) <==> (#[trigger] files_with(lines).contains(f)) || files_without(
            lines,
            filenames,
        ).contains(f)) && !(files_with(lines).contains(f) && files_without(lines, filenames).contains(f)) by {
        lemma_files_with(lines, f);
        lemma_files_without(lines, filenames, f);
        if appears(lines, f) {
            let k = choose|k: int| 0 <= k < lines.len() && (#[trigger] lines[k]).filename == f;
            assert(filenames.contains(lines[k].filename));
        }
    }
}

/// The two views of sources divide the sources of a run between them: for
/// the lines gathered for a pattern from the sources, every source is
/// listed, under the name by which it appears in the result, by exactly one
/// of the two views, and nothing else is listed.
pub proof fn lemma_files_partition_of_run(p: PatternView, sources: Seq<SourceView>, invert: bool)
    ensures
        ({
            let lines = gathered(p, sources, invert);
            let names = labels(sources);
            &&& forall|f: Seq<char>|
                names.contains(f) <==> (#[trigger] files_with(lines).contains(f)) || files_without(
                    lines,
                    names,
                ).contains(f)
            &&& forall|f: Seq<char>|
                !((#[trigger] files_with(lines).contains(f)) && files_without(lines, names).contains(f))
        }),
{
    lemma_gathered_labels(p, sources, invert);
    lemma_files_partition(gathered(p, sources, invert), labels(sources));
}

/// Rendering can be repeated: two renderings of aggregates with the same
/// sections, through the same view and under options with the same values,
/// append the same text, byte for byte.
pub proof fn lemma_rendering_repeats(
    proj: Projection,
    first: MatchesMap,
    second: MatchesMap,
    cli_first: Cli,
    cli_second: Cli,
    before: Seq<char>,
    after_first: Seq<char>,
    after_second: Seq<char>,
)
    requires
        sections(first) == sections(second),
        cli_first@ == cli_second@,
        after_first == before + view_text(proj, cli_first@, labelled(cli_first@.filenames), sections(first)),
        after_second == before + view_text(proj, cli_second@, labelled(cli_second@.filenames), sections(second)),
    ensures
        after_first == after_second,
        bytes_of(after_first) == bytes_of(after_second),
{
}

} // verus!
