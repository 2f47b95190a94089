use lig::cli::Cli;
use lig::matcher::{match_files, Line, Match, MatchOptions, MatchesMap, Source};
use lig::out::{
    format_prefix, highlight_matches, print_banner, print_count, print_files_with_matches,
    print_files_without_match, print_full_line, print_heading, print_matches, print_matches_line, print_section,
    print_view, projection, render, PrefixFormatOptions, Projection,
};
use lig::pattern::parse_patterns;
use lig::text::{byte_len, push_decimal, substr};

fn strings(items: &[&str]) -> Vec<String> {
    items.iter().map(|s| s.to_string()).collect()
}

fn options() -> Cli {
    Cli {
        filenames: vec![],
        patterns: vec![],
        invert_match: false,
        ignore_case: false,
        color: false,
        count: false,
        files_with_matches: false,
        files_without_match: false,
        only_matching: false,
        prefix: String::new(),
        with_filename: false,
        line_number: false,
        hide_heading: false,
        show_pattern: false,
    }
}

fn scan(patterns: &[&str], sources: &[(&str, &[&str])], invert: bool) -> MatchesMap {
    let registry = match parse_patterns(&strings(patterns), false) {
        Ok(map) => map,
        Err(e) => panic!("{}", e.message()),
    };
    let sources: Vec<Source> =
        sources.iter().map(|(name, lines)| Source { fileident: name.to_string(), lines: strings(lines) }).collect();
    match_files(&sources, &registry, &MatchOptions { invert })
}

fn rust_aggregate(invert: bool) -> MatchesMap {
    scan(
        &["fn=\\bfn\\b", "let=\\blet\\b"],
        &[("a.txt", &["fn main() {", "let x = 1;", "fn other() {}"])],
        invert,
    )
}

fn line(filename: &str, text: &str, lineno: usize, spans: &[(usize, usize)]) -> Line {
    Line {
        filename: filename.to_string(),
        line: text.to_string(),
        lineno,
        matches: spans.iter().map(|(b, e)| Match { moffbeg: *b, moffend: *e }).collect(),
    }
}

fn rendered(print: fn(&MatchesMap, &Cli, &mut String), map: &MatchesMap, cli: &Cli) -> String {
    let mut out = String::new();
    print(map, cli, &mut out);
    out
}

#[test]
fn count_view_of_two_patterns() {
    let map = rust_aggregate(false);
    let mut cli = options();
    cli.with_filename = true;
    assert_eq!(rendered(print_count, &map, &cli), "fn (2)\na.txt:2\nlet (1)\na.txt:1\n");
    cli.with_filename = false;
    assert_eq!(rendered(print_count, &map, &cli), "fn (2)\n2\nlet (1)\n1\n");
}

#[test]
fn count_view_without_headings_has_only_the_counts() {
    let map = rust_aggregate(false);
    let mut cli = options();
    cli.hide_heading = true;
    cli.with_filename = true;
    cli.line_number = true;
    assert_eq!(rendered(print_count, &map, &cli), "a.txt:2\na.txt:1\n");
    cli.with_filename = false;
    assert_eq!(rendered(print_count, &map, &cli), "2\n1\n");
}

#[test]
fn count_lines_carry_the_source_and_the_count_only() {
    let map = rust_aggregate(false);
    let mut cli = options();
    cli.with_filename = true;
    cli.show_pattern = true;
    cli.line_number = true;
    cli.prefix = "> ".to_string();
    assert_eq!(rendered(print_count, &map, &cli), "fn (2)\n> a.txt:2\nlet (1)\n> a.txt:1\n");
}

#[test]
fn count_view_flushes_every_run() {
    let map = scan(
        &["x=x", "none=q"],
        &[("a", &["x", "x", "-"]), ("b", &["x"]), ("c", &["-"]), ("a", &["x", "-", "x", "x"])],
        false,
    );
    let mut cli = options();
    cli.with_filename = true;
    assert_eq!(rendered(print_count, &map, &cli), "x (6)\na:2\nb:1\na:3\nnone (0)\n");
    let inverted = scan(&["x=x"], &[("a", &["x", "-"]), ("b", &["-", "-"])], true);
    cli.invert_match = true;
    assert_eq!(rendered(print_count, &inverted, &cli), "!x (3)\na:1\nb:2\n");
}

#[test]
fn counts_add_up_to_the_number_of_lines() {
    let map = scan(&["x=x"], &[("a", &["x", "x"]), ("b", &["x"]), ("a", &["x", "x", "x"]), ("c", &[])], false);
    let text = rendered(print_count, &map, &options());
    let mut lines = text.lines();
    assert_eq!(lines.next(), Some("x (6)"));
    let counts: Vec<usize> = lines.map(|l| l.parse().unwrap()).collect();
    assert_eq!(counts, vec![2, 1, 3]);
    assert_eq!(counts.iter().sum::<usize>(), map.value(0).len());
}

#[test]
fn full_line_view() {
    let map = rust_aggregate(false);
    let mut cli = options();
    assert_eq!(
        rendered(print_matches_line, &map, &cli),
        "fn (2)\nfn main() {\nfn other() {}\nlet (1)\nlet x = 1;\n"
    );
    cli.line_number = true;
    assert_eq!(
        rendered(print_matches_line, &map, &cli),
        "fn (2)\n1:fn main() {\n3:fn other() {}\nlet (1)\n2:let x = 1;\n"
    );
    cli.show_pattern = true;
    cli.with_filename = true;
    cli.prefix = ">> ".to_string();
    cli.hide_heading = true;
    assert_eq!(
        rendered(print_matches_line, &map, &cli),
        ">> fn:a.txt:1:fn main() {\n>> fn:a.txt:3:fn other() {}\n>> let:a.txt:2:let x = 1;\n"
    );
}

#[test]
fn full_line_view_of_inverted_match() {
    let map = rust_aggregate(true);
    let mut cli = options();
    cli.invert_match = true;
    assert_eq!(
        rendered(print_matches_line, &map, &cli),
        "!fn (1)\nlet x = 1;\n!let (2)\nfn main() {\nfn other() {}\n"
    );
}

#[test]
fn match_only_view() {
    let map = scan(&["w=[a-z]+", "d=[0-9]"], &[("f", &["ab 12 cd", "", "7"])], false);
    let mut cli = options();
    assert_eq!(rendered(print_matches, &map, &cli), "w (1)\nab\ncd\nd (2)\n1\n2\n7\n");
    cli.line_number = true;
    cli.with_filename = true;
    assert_eq!(rendered(print_matches, &map, &cli), "w (1)\nf:1:ab\nf:1:cd\nd (2)\nf:1:1\nf:1:2\nf:3:7\n");
}

#[test]
fn match_only_view_of_inverted_match_has_only_headings() {
    let map = rust_aggregate(true);
    let mut cli = options();
    cli.invert_match = true;
    assert_eq!(rendered(print_matches, &map, &cli), "!fn (1)\n!let (2)\n");
}

#[test]
fn sources_with_and_without_a_kept_line() {
    let map = scan(&["x=x"], &[("a.txt", &["x"]), ("b.txt", &["y"])], false);
    let mut cli = options();
    cli.filenames = strings(&["a.txt", "b.txt"]);
    assert_eq!(rendered(print_files_with_matches, &map, &cli), "x (1)\na.txt\n");
    assert_eq!(rendered(print_files_without_match, &map, &cli), "x (1)\nb.txt\n");
    cli.show_pattern = true;
    cli.hide_heading = true;
    cli.prefix = "# ".to_string();
    assert_eq!(rendered(print_files_with_matches, &map, &cli), "# x:a.txt\n");
    assert_eq!(rendered(print_files_without_match, &map, &cli), "# x:b.txt\n");
}

#[test]
fn the_two_views_of_sources_divide_the_sources() {
    let names = ["a", "b", "c", "d", "e"];
    let map = scan(
        &["x=x", "y=y"],
        &[("a", &["x", "x"]), ("b", &["y"]), ("c", &["-"]), ("d", &["xy", "x"]), ("e", &[])],
        false,
    );
    let mut cli = options();
    cli.filenames = strings(&names);
    cli.hide_heading = true;
    let with = rendered(print_files_with_matches, &map, &cli);
    let without = rendered(print_files_without_match, &map, &cli);
    assert_eq!(with, "a\nd\nb\nd\n");
    assert_eq!(without, "b\nc\ne\na\nc\ne\n");
    for proj in [Projection::FilesWithMatches, Projection::FilesWithoutMatch] {
        let mut out = String::new();
        print_section(proj, "x", map.value(0), &cli.filenames, &cli, &mut out);
        let listed: Vec<&str> = out.lines().collect();
        for name in names {
            let has_line = map.value(0).iter().any(|l| l.filename == name);
            assert_eq!(listed.contains(&name), has_line == (proj == Projection::FilesWithMatches));
        }
    }
}

#[test]
fn a_source_that_comes_again_is_named_again() {
    let map = scan(&["x=x"], &[("a", &["x"]), ("b", &["x", "x"]), ("a", &["x"])], false);
    let mut cli = options();
    cli.filenames = strings(&["a", "b", "a"]);
    cli.hide_heading = true;
    assert_eq!(rendered(print_files_with_matches, &map, &cli), "a\nb\na\n");
    assert_eq!(rendered(print_files_without_match, &map, &cli), "");
}

#[test]
fn standard_input_is_listed_under_its_label_by_one_view_only() {
    let map = scan(&["x=x", "y=y"], &[("-", &["x"]), ("a", &["y"])], false);
    let mut cli = options();
    cli.filenames = strings(&["-", "a"]);
    cli.hide_heading = true;
    assert_eq!(rendered(print_files_with_matches, &map, &cli), "(standard input)\na\n");
    assert_eq!(rendered(print_files_without_match, &map, &cli), "a\n(standard input)\n");
    let mut under_x = String::new();
    print_section(Projection::FilesWithMatches, "x", map.value(0), &cli.filenames, &cli, &mut under_x);
    assert_eq!(under_x, "(standard input)\n");
    let mut not_under_x = String::new();
    print_section(Projection::FilesWithoutMatch, "x", map.value(0), &cli.filenames, &cli, &mut not_under_x);
    assert_eq!(not_under_x, "a\n");
}

#[test]
fn rendering_twice_gives_the_same_text() {
    let map = scan(&["x=x", "y=y"], &[("a", &["x", "xy"]), ("b", &["y"])], false);
    let mut cli = options();
    cli.filenames = strings(&["a", "b"]);
    cli.with_filename = true;
    cli.line_number = true;
    for proj in [
        Projection::Lines,
        Projection::OnlyMatching,
        Projection::Count,
        Projection::FilesWithMatches,
        Projection::FilesWithoutMatch,
    ] {
        let mut first = String::new();
        print_view(proj, &map, &cli.filenames, &cli, &mut first);
        let mut second = String::new();
        print_view(proj, &map, &cli.filenames, &cli, &mut second);
        assert_eq!(first.as_bytes(), second.as_bytes());
        assert!(!first.is_empty());
    }
}

#[test]
fn rendering_appends_to_what_is_there() {
    let map = rust_aggregate(false);
    let mut out = "before\n".to_string();
    print_matches_line(&map, &options(), &mut out);
    assert_eq!(out, "before\nfn (2)\nfn main() {\nfn other() {}\nlet (1)\nlet x = 1;\n");
}

#[test]
fn the_options_select_the_view() {
    let mut cli = options();
    assert_eq!(projection(&cli), Projection::Lines);
    cli.only_matching = true;
    assert_eq!(projection(&cli), Projection::OnlyMatching);
    cli.files_without_match = true;
    assert_eq!(projection(&cli), Projection::FilesWithoutMatch);
    cli.files_with_matches = true;
    assert_eq!(projection(&cli), Projection::FilesWithMatches);
    cli.count = true;
    assert_eq!(projection(&cli), Projection::Count);
    let map = rust_aggregate(false);
    assert_eq!(render(&map, &cli), "fn (2)\n2\nlet (1)\n1\n");
    assert_eq!(render(&map, &options()), "fn (2)\nfn main() {\nfn other() {}\nlet (1)\nlet x = 1;\n");
}

#[test]
fn prefix_fields_come_in_a_fixed_order() {
    let mut cli = options();
    cli.prefix = "[p]".to_string();
    let all = PrefixFormatOptions { ifn: true, iln: true, ipatn: true, isep: true };
    assert_eq!(format_prefix("file", 0, "pat", all, &cli), "[p]pat:file:1:");
    let bare = PrefixFormatOptions { ifn: true, iln: true, ipatn: true, isep: false };
    assert_eq!(format_prefix("file", 41, "pat", bare, &cli), "[p]patfile42");
    let none = PrefixFormatOptions { ifn: false, iln: false, ipatn: false, isep: true };
    assert_eq!(format_prefix("file", 0, "pat", none, &cli), "[p]");
    let number = PrefixFormatOptions { ifn: false, iln: true, ipatn: false, isep: true };
    assert_eq!(format_prefix("file", 99, "pat", number, &options()), "100:");
    assert_eq!(
        format_prefix("file", usize::MAX, "pat", number, &options()),
        format!("{}:", usize::MAX as u128 + 1)
    );
}

#[test]
fn prefix_options_follow_the_options_of_the_run() {
    let mut cli = options();
    assert_eq!(PrefixFormatOptions::new(&cli), PrefixFormatOptions { ifn: false, iln: false, ipatn: false, isep: true });
    cli.with_filename = true;
    cli.show_pattern = true;
    assert_eq!(PrefixFormatOptions::new(&cli), PrefixFormatOptions { ifn: true, iln: false, ipatn: true, isep: true });
    cli.line_number = true;
    assert_eq!(PrefixFormatOptions::new(&cli), PrefixFormatOptions { ifn: true, iln: true, ipatn: true, isep: true });
}

#[test]
fn headings_and_banners() {
    let mut cli = options();
    let mut out = String::new();
    print_heading("pat", 12, &cli, &mut out);
    assert_eq!(out, "pat (12)\n");
    cli.invert_match = true;
    print_heading("q", 0, &cli, &mut out);
    assert_eq!(out, "pat (12)\n!q (0)\n");
    cli.hide_heading = true;
    print_heading("r", 1, &cli, &mut out);
    assert_eq!(out, "pat (12)\n!q (0)\n");
    print_banner("r", 1, &cli, &mut out);
    assert_eq!(out, "pat (12)\n!q (0)\n!r (1)\n");
}

#[test]
fn highlighting_without_colour_gives_the_line() {
    let spans = vec![Match { moffbeg: 0, moffend: 2 }, Match { moffbeg: 6, moffend: 6 }, Match { moffbeg: 7, moffend: 9 }];
    assert_eq!(highlight_matches("fn héllo", &spans, false), "fn héllo");
    assert_eq!(highlight_matches("", &vec![], false), "");
    assert_eq!(highlight_matches("abc", &vec![], false), "abc");
}

#[test]
fn highlighting_takes_the_hits_in_the_order_given() {
    let spans = vec![Match { moffbeg: 2, moffend: 4 }, Match { moffbeg: 0, moffend: 3 }];
    assert_eq!(highlight_matches("abcdef", &spans, false), "abcdabcdef");
    let nested = vec![Match { moffbeg: 0, moffend: 4 }, Match { moffbeg: 1, moffend: 2 }];
    assert_eq!(highlight_matches("abcdef", &nested, false), "abcdbcdef");
}

#[test]
fn hand_made_aggregate_renders_like_a_scanned_one() {
    let mut map = MatchesMap::new();
    map.insert("fn".to_string(), vec![line("a.txt", "fn main() {", 0, &[(0, 2)]), line("a.txt", "fn other() {}", 2, &[(0, 2)])]);
    map.insert("let".to_string(), vec![line("a.txt", "let x = 1;", 1, &[(0, 3)])]);
    let mut cli = options();
    cli.line_number = true;
    assert_eq!(rendered(print_matches_line, &map, &cli), rendered(print_matches_line, &rust_aggregate(false), &cli));
    assert_eq!(rendered(print_matches, &map, &cli), "fn (2)\n1:fn\n3:fn\nlet (1)\n2:let\n");
}

#[test]
fn text_is_cut_at_byte_offsets() {
    assert_eq!(substr("héllo wörld", 0, 3), "hé");
    assert_eq!(substr("héllo wörld", 3, 10), "llo wö");
    assert_eq!(substr("héllo wörld", 10, 13), "rld");
    assert_eq!(substr("abc", 1, 1), "");
    assert_eq!(byte_len("héllo wörld"), 13);
    assert_eq!(byte_len(""), 0);
}

#[test]
fn decimal_numerals() {
    for (n, expected) in [(0u128, "0"), (7, "7"), (10, "10"), (109, "109"), (u64::MAX as u128, "18446744073709551615")] {
        let mut out = "n=".to_string();
        push_decimal(&mut out, n);
        assert_eq!(out, format!("n={}", expected));
    }
    let mut out = String::new();
    push_decimal(&mut out, u128::MAX);
    assert_eq!(out, u128::MAX.to_string());
}

#[test]
fn one_line_of_the_full_line_view() {
    let mut cli = options();
    cli.line_number = true;
    cli.show_pattern = true;
    let mut out = String::new();
    print_full_line("w", &line("f", "a wörd", 4, &[(2, 7)]), &cli, &mut out);
    assert_eq!(out, "w:5:a wörd\n");
}
