use lig::cli::Cli;
use lig::matcher::Source;
use lig::pattern::PatternError;
use lig::run::run;

fn strings(items: &[&str]) -> Vec<String> {
    items.iter().map(|s| s.to_string()).collect()
}

fn options(patterns: &[&str], filenames: &[&str]) -> Cli {
    Cli {
        filenames: strings(filenames),
        patterns: strings(patterns),
        invert_match: false,
        ignore_case: false,
        color: false,
        count: false,
        files_with_matches: false,
        files_without_match: false,
        only_matching: false,
        prefix: String::new(),
        with_filename: false,
        line_number: false,
        hide_heading: false,
        show_pattern: false,
    }
}

fn sources() -> Vec<Source> {
    vec![
        Source { fileident: "a.txt".to_string(), lines: strings(&["fn main() {", "let x = 1;", "fn other() {}"]) },
        Source { fileident: "b.txt".to_string(), lines: strings(&["// nothing", "LET y = 2;"]) },
    ]
}

fn text(cli: &Cli) -> String {
    match run(cli, &sources()) {
        Ok(text) => text,
        Err(e) => panic!("{}", e.message()),
    }
}

#[test]
fn a_run_prints_the_full_lines_by_default() {
    let mut cli = options(&["fn=\\bfn\\b", "let=\\blet\\b"], &["a.txt", "b.txt"]);
    cli.with_filename = true;
    cli.line_number = true;
    assert_eq!(
        text(&cli),
        "fn (2)\na.txt:1:fn main() {\na.txt:3:fn other() {}\nlet (1)\na.txt:2:let x = 1;\n"
    );
    cli.ignore_case = true;
    assert_eq!(
        text(&cli),
        "fn (2)\na.txt:1:fn main() {\na.txt:3:fn other() {}\nlet (2)\na.txt:2:let x = 1;\nb.txt:2:LET y = 2;\n"
    );
}

#[test]
fn a_run_follows_the_options() {
    let mut cli = options(&["fn=\\bfn\\b", "let=\\blet\\b"], &["a.txt", "b.txt"]);
    cli.with_filename = true;
    cli.count = true;
    assert_eq!(text(&cli), "fn (2)\na.txt:2\nlet (1)\na.txt:1\n");
    cli.invert_match = true;
    assert_eq!(text(&cli), "!fn (3)\na.txt:1\nb.txt:2\n!let (4)\na.txt:2\nb.txt:2\n");
    cli.invert_match = false;
    cli.count = false;
    cli.files_without_match = true;
    assert_eq!(text(&cli), "fn (2)\nb.txt\nlet (1)\nb.txt\n");
    cli.files_with_matches = true;
    assert_eq!(text(&cli), "fn (2)\na.txt\nlet (1)\na.txt\n");
    cli.files_with_matches = false;
    cli.files_without_match = false;
    cli.only_matching = true;
    cli.hide_heading = true;
    cli.show_pattern = true;
    assert_eq!(text(&cli), "fn:a.txt:fn\nfn:a.txt:fn\nlet:a.txt:let\n");
}

#[test]
fn a_run_without_patterns_prints_nothing() {
    assert_eq!(text(&options(&[], &["a.txt", "b.txt"])), "");
}

#[test]
fn a_run_fails_with_the_first_bad_pattern() {
    match run(&options(&["ok=a", "broken", "bad=("], &[]), &sources()) {
        Err(PatternError::MissingSeparator { index, pattern }) => {
            assert_eq!(index, 1);
            assert_eq!(pattern, "broken");
        },
        _ => panic!("expected a missing separator"),
    }
    match run(&options(&["ok=a", "bad=(", "broken"], &[]), &sources()) {
        Err(PatternError::BadRegex { index, .. }) => assert_eq!(index, 1),
        _ => panic!("expected a regex error"),
    }
}

#[test]
fn a_run_names_the_sources_it_was_given() {
    let mut cli = options(&["fn=\\bfn\\b"], &["elsewhere.txt"]);
    cli.files_without_match = true;
    cli.hide_heading = true;
    assert_eq!(text(&cli), "b.txt\n");
    let stdin = vec![
        Source { fileident: "-".to_string(), lines: strings(&["fn f()"]) },
        Source { fileident: "c.txt".to_string(), lines: strings(&["nothing"]) },
    ];
    match run(&cli, &stdin) {
        Ok(text) => assert_eq!(text, "c.txt\n"),
        Err(e) => panic!("{}", e.message()),
    }
    cli.files_without_match = false;
    cli.files_with_matches = true;
    match run(&cli, &stdin) {
        Ok(text) => assert_eq!(text, "(standard input)\n"),
        Err(e) => panic!("{}", e.message()),
    }
}

#[test]
fn the_first_pattern_that_is_refused_is_reported() {
    match run(&options(&["bad=(", "broken"], &[]), &sources()) {
        Err(PatternError::BadRegex { index, .. }) => assert_eq!(index, 0),
        _ => panic!("expected a regex error"),
    }
    match run(&options(&["broken", "bad=("], &[]), &sources()) {
        Err(PatternError::MissingSeparator { index, .. }) => assert_eq!(index, 0),
        _ => panic!("expected a missing separator"),
    }
    assert!(run(&options(&["a=x", "b=(y)", "c="], &[]), &sources()).is_ok());
}
