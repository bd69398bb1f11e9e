use mini_grep::search::{line_contains, search, split_lines, SearchConfig};

#[test]
fn finds_duct_case_sensitive() {
    let corpus = "Rust:\nsafe, fast, productive.\nPick three.";
    let config = SearchConfig::new(String::from("duct"), true);
    assert_eq!(search(corpus, &config), vec!["safe, fast, productive."]);
}

#[test]
fn finds_rust_case_insensitive() {
    let corpus = "Rust:\nsafe, fast, productive.\nPick three.\nTrust me.";
    let config = SearchConfig::new(String::from("rust"), false);
    assert_eq!(search(corpus, &config), vec!["Rust:", "Trust me."]);
}

#[test]
fn sees_lower_case_rust_only_inside_trust() {
    // "rust" appears verbatim inside "Trust", and nowhere else once
    // "Rust:" is ruled out by its capital letter.
    let corpus = "Rust:\nsafe, fast, productive.\nPick three.\nTrust me.";
    let config = SearchConfig::new(String::from("rust"), true);
    assert_eq!(search(corpus, &config), vec!["Trust me."]);
}

#[test]
fn misses_capitalised_rust_case_sensitive() {
    let corpus = "trust:\nsafe, fast, productive.\nPick three.\ntrust me.";
    let config = SearchConfig::new(String::from("Rust"), true);
    assert_eq!(search(corpus, &config), Vec::<String>::new());
}

#[test]
fn empty_query_returns_every_line() {
    let corpus = "Rust:\nsafe, fast, productive.\nPick three.";
    let config = SearchConfig::new(String::new(), true);
    assert_eq!(
        search(corpus, &config),
        vec!["Rust:", "safe, fast, productive.", "Pick three."]
    );
}

#[test]
fn empty_corpus_returns_nothing() {
    let sensitive = SearchConfig::new(String::from("x"), true);
    let insensitive = SearchConfig::new(String::from("x"), false);
    assert_eq!(search("", &sensitive), Vec::<String>::new());
    assert_eq!(search("", &insensitive), Vec::<String>::new());
}

#[test]
fn search_twice_gives_identical_results() {
    let corpus = "Rust:\nsafe, fast, productive.\nPick three.\nTrust me.";
    let config = SearchConfig::new(String::from("rust"), false);
    let first = search(corpus, &config);
    let second = search(corpus, &config);
    assert_eq!(first, second);
}

#[test]
fn matched_lines_keep_their_casing() {
    let corpus = "SHOUTING LINE\nquiet line";
    let config = SearchConfig::new(String::from("shouting"), false);
    assert_eq!(search(corpus, &config), vec!["SHOUTING LINE"]);
}

#[test]
fn split_separates_on_newlines() {
    assert_eq!(split_lines("a\nb"), vec!["a", "b"]);
    assert_eq!(split_lines("a\n\nb"), vec!["a", "", "b"]);
}

#[test]
fn split_keeps_a_final_unterminated_line() {
    assert_eq!(split_lines("Pick three."), vec!["Pick three."]);
}

#[test]
fn split_drops_a_trailing_terminator() {
    assert_eq!(split_lines("a\nb\n"), vec!["a", "b"]);
    assert_eq!(split_lines("\n"), vec![""]);
}

#[test]
fn split_of_empty_text_has_no_lines() {
    assert_eq!(split_lines(""), Vec::<String>::new());
}

#[test]
fn containment_respects_the_mode() {
    assert!(line_contains("Trust me.", "rust", false));
    assert!(line_contains("Trust me.", "rust", true));
    assert!(!line_contains("Trust me.", "Rust", true));
    assert!(line_contains("Trust me.", "Trust", true));
    assert!(line_contains("tRUST", "Rust", false));
}

#[test]
fn empty_query_is_contained_everywhere() {
    assert!(line_contains("abc", "", true));
    assert!(line_contains("", "", false));
    assert!(!line_contains("", "a", true));
}

#[test]
fn containment_ignores_case_only_for_ascii_letters() {
    assert!(line_contains("a-b", "A-B", false));
    assert!(!line_contains("a_b", "a-b", false));
}
