use lig::matcher::{match_files, Match, MatchOptions, PatternMap, Source};
use lig::pattern::{parse_patterns, register, PatternError};
use lig::text::split_pattern;
use lig::utils::OrdHashMap;

fn strings(items: &[&str]) -> Vec<String> {
    items.iter().map(|s| s.to_string()).collect()
}

fn spans_of(map: &PatternMap, position: usize, line: &str) -> Vec<Match> {
    let sources = vec![Source { fileident: "f".to_string(), lines: vec![line.to_string()] }];
    let found = match_files(&sources, map, &MatchOptions { invert: false });
    match found.value(position).first() {
        Some(kept) => kept.matches.clone(),
        None => vec![],
    }
}

fn registry(items: &[&str], ignore_case: bool) -> PatternMap {
    match parse_patterns(&strings(items), ignore_case) {
        Ok(map) => map,
        Err(e) => panic!("{}", e.message()),
    }
}

#[test]
fn items_are_split_at_the_first_equals_sign() {
    assert_eq!(split_pattern("fn=\\bfn\\b"), Some(("fn".to_string(), "\\bfn\\b".to_string())));
    assert_eq!(split_pattern("a=b=c"), Some(("a".to_string(), "b=c".to_string())));
    assert_eq!(split_pattern("=x"), Some(("".to_string(), "x".to_string())));
    assert_eq!(split_pattern("x="), Some(("x".to_string(), "".to_string())));
    assert_eq!(split_pattern("="), Some(("".to_string(), "".to_string())));
    assert_eq!(split_pattern("né=é=ü"), Some(("né".to_string(), "é=ü".to_string())));
    assert_eq!(split_pattern("none"), None);
    assert_eq!(split_pattern(""), None);
}

#[test]
fn registry_keeps_the_order_of_the_items() {
    let map = registry(&["z=1", "a=2", "m=3"], false);
    assert_eq!(map.len(), 3);
    assert_eq!(map.key(0), "z");
    assert_eq!(map.key(1), "a");
    assert_eq!(map.key(2), "m");
    assert_eq!(map.value(1).source(), "2");
    assert!(!map.value(1).ignore_case());
    assert!(registry(&["z=1"], true).value(0).ignore_case());
}

#[test]
fn a_repeated_name_keeps_its_place_and_takes_the_later_expression() {
    let map = registry(&["a=x", "b=y", "a=z"], false);
    assert_eq!(map.len(), 2);
    assert_eq!(map.key(0), "a");
    assert_eq!(map.key(1), "b");
    assert_eq!(map.value(0).source(), "z");
    assert_eq!(spans_of(&map, 0, "xz"), vec![Match { moffbeg: 1, moffend: 2 }]);
}

#[test]
fn an_item_without_equals_sign_is_refused() {
    match parse_patterns(&strings(&["a=b", "oops", "("]), false) {
        Err(PatternError::MissingSeparator { index, pattern }) => {
            assert_eq!(index, 1);
            assert_eq!(pattern, "oops");
        },
        _ => panic!("expected a missing separator"),
    }
    let e = PatternError::MissingSeparator { index: 0, pattern: "oops".to_string() };
    assert_eq!(e.message(), "Invalid pattern 'oops', expected KEY=REGEX");
}

#[test]
fn an_expression_that_does_not_compile_is_refused() {
    match parse_patterns(&strings(&["a=b", "bad=(", "oops"]), false) {
        Err(PatternError::BadRegex { index, error }) => {
            assert_eq!(index, 1);
            assert!(matches!(error, regex::Error::Syntax(_)));
            let expected = error.to_string();
            assert_eq!(PatternError::BadRegex { index, error }.message(), expected);
        },
        _ => panic!("expected a regex error"),
    }
}

#[test]
fn an_empty_list_gives_an_empty_registry() {
    assert_eq!(registry(&[], false).len(), 0);
}

#[test]
fn register_hands_an_error_on_and_leaves_the_registry() {
    let mut map = registry(&["a=x"], false);
    let error = match regex::Regex::new("(") {
        Err(e) => e,
        Ok(_) => panic!("'(' compiled"),
    };
    match register(&mut map, 5, "b".to_string(), Err(error.clone())) {
        Err(PatternError::BadRegex { index, error: handed }) => {
            assert_eq!(index, 5);
            assert_eq!(handed, error);
        },
        _ => panic!("expected a regex error"),
    }
    assert_eq!(map.len(), 1);
    assert_eq!(map.key(0), "a");
}

#[test]
fn pattern_finds_all_occurrences_from_left_to_right() {
    let map = registry(&["w=\\w+"], false);
    let spans = spans_of(&map, 0, "ab  cd e");
    assert_eq!(
        spans,
        vec![Match { moffbeg: 0, moffend: 2 }, Match { moffbeg: 4, moffend: 6 }, Match { moffbeg: 7, moffend: 8 }]
    );
    assert_eq!(spans_of(&map, 0, "  "), vec![]);
}

#[test]
fn ordered_map_inserts_and_replaces() {
    let mut map: OrdHashMap<u32> = OrdHashMap::new();
    assert_eq!(map.len(), 0);
    assert_eq!(map.insert("b".to_string(), 1), None);
    assert_eq!(map.insert("a".to_string(), 2), None);
    assert_eq!(map.insert("c".to_string(), 3), None);
    assert_eq!(map.insert("a".to_string(), 4), Some(2));
    assert_eq!(map.len(), 3);
    assert_eq!(map.key(0), "b");
    assert_eq!(map.key(1), "a");
    assert_eq!(map.key(2), "c");
    assert_eq!(*map.value(0), 1);
    assert_eq!(*map.value(1), 4);
    assert_eq!(*map.value(2), 3);
    assert_eq!(map.position(&"a".to_string()), Some(1));
    assert_eq!(map.position(&"zz".to_string()), None);
    assert_eq!(map.get(&"c".to_string()), Some(&3));
    assert_eq!(map.get(&"d".to_string()), None);
    *map.value_mut(2) += 10;
    assert_eq!(map.get(&"c".to_string()), Some(&13));
}
