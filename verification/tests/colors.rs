use lig::cli::Cli;
use lig::matcher::{match_files, Match, MatchOptions, MatchesMap, Source};
use lig::out::{
    format_prefix, highlight_matches, print_banner, print_count, print_files_with_matches, print_matches,
    print_matches_line, PrefixFormatOptions,
};
use lig::paint::{cyan, magenta, red, yellow, yellow_bold};
use lig::pattern::parse_patterns;

fn strings(items: &[&str]) -> Vec<String> {
    items.iter().map(|s| s.to_string()).collect()
}

fn coloured() -> Cli {
    Cli {
        filenames: vec![],
        patterns: vec![],
        invert_match: false,
        ignore_case: false,
        color: true,
        count: false,
        files_with_matches: false,
        files_without_match: false,
        only_matching: false,
        prefix: String::new(),
        with_filename: false,
        line_number: false,
        hide_heading: false,
        show_pattern: false,
    }
}

fn rust_aggregate() -> MatchesMap {
    let registry = match parse_patterns(&strings(&["fn=\\bfn\\b"]), false) {
        Ok(map) => map,
        Err(e) => panic!("{}", e.message()),
    };
    let sources = vec![Source { fileident: "a.txt".to_string(), lines: strings(&["fn main() {", "let x = 1;"]) }];
    match_files(&sources, &registry, &MatchOptions { invert: false })
}

fn rendered(print: fn(&MatchesMap, &Cli, &mut String), map: &MatchesMap, cli: &Cli) -> String {
    let mut out = String::new();
    print(map, cli, &mut out);
    out
}

#[test]
fn hits_are_red() {
    let spans = vec![Match { moffbeg: 0, moffend: 2 }, Match { moffbeg: 3, moffend: 3 }, Match { moffbeg: 6, moffend: 8 }];
    assert_eq!(highlight_matches("fn é fn!", &spans, true), "\u{1b}[31mfn\u{1b}[0m é \u{1b}[31mfn\u{1b}[0m!");
    assert_eq!(highlight_matches("plain", &vec![], true), "plain");
}

#[test]
fn prefix_fields_have_their_colours() {
    let cli = coloured();
    let name = PrefixFormatOptions { ifn: false, iln: false, ipatn: true, isep: true };
    assert_eq!(format_prefix("f", 0, "pat", name, &cli), "\u{1b}[33mpat:\u{1b}[0m");
    let file = PrefixFormatOptions { ifn: true, iln: false, ipatn: false, isep: true };
    assert_eq!(format_prefix("f", 0, "pat", file, &cli), "\u{1b}[35mf:\u{1b}[0m");
    let number = PrefixFormatOptions { ifn: false, iln: true, ipatn: false, isep: false };
    assert_eq!(format_prefix("f", 4, "pat", number, &cli), "\u{1b}[36m5\u{1b}[0m");
}

#[test]
fn banner_is_bold_yellow_with_a_red_mark() {
    let mut cli = coloured();
    let mut out = String::new();
    print_banner("pat", 3, &cli, &mut out);
    assert_eq!(out, "\u{1b}[1;33mpat\u{1b}[0m (3)\n");
    cli.invert_match = true;
    let mut out = String::new();
    print_banner("pat", 3, &cli, &mut out);
    assert_eq!(out, "\u{1b}[31m!\u{1b}[0m\u{1b}[1;33mpat\u{1b}[0m (3)\n");
}

#[test]
fn coloured_views() {
    let map = rust_aggregate();
    let mut cli = coloured();
    cli.with_filename = true;
    assert_eq!(
        rendered(print_matches_line, &map, &cli),
        "\u{1b}[1;33mfn\u{1b}[0m (1)\n\u{1b}[35ma.txt:\u{1b}[0m\u{1b}[31mfn\u{1b}[0m main() {\n"
    );
    assert_eq!(
        rendered(print_matches, &map, &cli),
        "\u{1b}[1;33mfn\u{1b}[0m (1)\n\u{1b}[35ma.txt:\u{1b}[0m\u{1b}[31mfn\u{1b}[0m\n"
    );
    assert_eq!(rendered(print_count, &map, &cli), "\u{1b}[1;33mfn\u{1b}[0m (1)\n\u{1b}[35ma.txt:\u{1b}[0m1\n");
    cli.show_pattern = true;
    cli.hide_heading = true;
    assert_eq!(
        rendered(print_files_with_matches, &map, &cli),
        "\u{1b}[33mfn:\u{1b}[0m\u{1b}[35ma.txt\u{1b}[0m\n"
    );
}

#[test]
fn colouring_does_not_change_what_is_counted() {
    let map = rust_aggregate();
    let mut plain = coloured();
    plain.color = false;
    let with = rendered(print_count, &map, &coloured());
    let without = rendered(print_count, &map, &plain);
    assert_eq!(with.lines().count(), without.lines().count());
    assert_eq!(with.lines().nth(1), without.lines().nth(1));
}

#[test]
fn each_colour_has_its_escape_sequence() {
    assert_eq!(red("x", true), "\u{1b}[31mx\u{1b}[0m");
    assert_eq!(yellow("x", true), "\u{1b}[33mx\u{1b}[0m");
    assert_eq!(magenta("x", true), "\u{1b}[35mx\u{1b}[0m");
    assert_eq!(cyan("x", true), "\u{1b}[36mx\u{1b}[0m");
    assert_eq!(yellow_bold("x", true), "\u{1b}[1;33mx\u{1b}[0m");
    assert_eq!(red("", true), "\u{1b}[31m\u{1b}[0m");
    assert_eq!(red("é [0m", true), "\u{1b}[31mé [0m\u{1b}[0m");
}

#[test]
fn the_style_is_taken_up_again_behind_an_inner_reset() {
    assert_eq!(red("a\u{1b}[0mb", true), "\u{1b}[31ma\u{1b}[0m\u{1b}[31mb\u{1b}[0m");
    assert_eq!(yellow_bold("a\u{1b}[0m", true), "\u{1b}[1;33ma\u{1b}[0m\u{1b}[1;33m\u{1b}[0m");
}

#[test]
fn without_colour_the_text_comes_back() {
    assert_eq!(red("x", false), "x");
    assert_eq!(yellow("a\u{1b}[0mb", false), "a\u{1b}[0mb");
    assert_eq!(magenta("", false), "");
    assert_eq!(cyan("é", false), "é");
    assert_eq!(yellow_bold("x", false), "x");
}
