//! One run from the options and the sources to the text that is printed.

use crate::cli::{Cli, CliView};
use crate::matcher::{
    fileidents, gathered, labels, lines_view, match_files, sources_view, MatchOptions, Source, SourceView,
};
use crate::out::{chosen, print_view, projection, sections, view_text, Section};
use crate::pattern::{
    all_accepted, first_refused, parse_patterns, patterns_view, registry_keys, registry_values, PatternError,
    PatternView,
};
use crate::text::{has_separator, texts};
use vstd::prelude::*;

verus! {

/// The sections of the aggregate of a run: for each name of the registry,
/// in order, the lines gathered for its pattern over all sources.
pub open spec fn gathered_sections(
    names: Seq<Seq<char>>,
    patterns: Seq<PatternView>,
    sources: Seq<SourceView>,
    invert: bool,
) -> Seq<Section> {
    Seq::new(names.len(), |i: int| Section { name: names[i], lines: gathered(patterns[i], sources, invert) })
}

/// The text that a run prints: the view that the options select of the
/// aggregate of the registry that the options define over the sources. The
/// sources of the run are the sources given, whatever the options name.
pub open spec fn run_text(cli: CliView, sources: Seq<SourceView>) -> Seq<char> {
    view_text(
        chosen(cli),
        cli,
        labels(sources),
        gathered_sections(
            registry_keys(cli.patterns),
            registry_values(cli.patterns, cli.ignore_case),
            sources,
            cli.invert_match,
        ),
    )
}

/// The names by which the sources were given.
fn names_of(sources: &Vec<Source>) -> (names: Vec<String>)
    ensures
        texts(names@) == fileidents(sources_view(sources@)),
{
    let mut names: Vec<String> = Vec::new();
    let mut i: usize = 0;
    while i < sources.len()
        invariant
            i <= sources.len(),
            names.len() == i,
            forall|k: int| 0 <= k < i ==> (#[trigger] names[k])@ == sources[k].fileident@,
        decreases sources.len() - i,
    {
        names.push(sources[i].fileident.clone());
        i += 1;
    }
    assert(texts(names@) =~= fileidents(sources_view(sources@)));
    names
}

/// Does one run: builds the registry from the patterns of the options,
/// scans the sources in their order, and renders the view that the options
/// select.
///
/// The run succeeds exactly when every pattern holds a `=` and its
/// expression compiles. Otherwise it fails, before anything is scanned,
/// with the first pattern of which that does not hold.
pub fn run(cli: &Cli, sources: &Vec<Source>) -> (r: Result<String, PatternError>)
    ensures
        r is Ok <==> all_accepted(cli@.patterns, cli@.ignore_case),
        match r {
            Ok(text) => text@ == run_text(cli@, sources_view(sources@)),
            Err(PatternError::MissingSeparator { index, pattern }) => {
                &&& first_refused(cli@.patterns, cli@.ignore_case, index as int)
                &&& !has_separator(cli@.patterns[index as int])
                &&& pattern@ == cli@.patterns[index as int]
            },
            Err(PatternError::BadRegex { index, .. }) => {
                &&& first_refused(cli@.patterns, cli@.ignore_case, index as int)
                &&& has_separator(cli@.patterns[index as int])
            },
        },
{
    match parse_patterns(&cli.patterns, cli.ignore_case) {
        Ok(pmap) => {
            let matches = match_files(sources, &pmap, &MatchOptions { invert: cli.invert_match });
            assert(sections(matches) =~= gathered_sections(
                registry_keys(cli@.patterns),
                registry_values(cli@.patterns, cli@.ignore_case),
                sources_view(sources@),
                cli@.invert_match,
            )) by {
                assert forall|i: int| 0 <= i < matches.keys().len() implies lines_view(
                    #[trigger] matches.values()[i]@,
                ) == gathered(
                    registry_values(cli@.patterns, cli@.ignore_case)[i],
                    sources_view(sources@),
                    cli@.invert_match,
                ) by {
                    assert(patterns_view(pmap.values())[i] == pmap.values()[i]@);
                }
            }
            let names = names_of(sources);
            let mut text = String::new();
            print_view(projection(cli), &matches, &names, cli, &mut text);
            Ok(text)
        },
        Err(e) => Err(e),
    }
}

} // verus!
