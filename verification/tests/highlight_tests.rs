use groups_page::highlight::highlight_matches;

#[test]
fn case_insensitive_match_keeps_source_case() {
    assert_eq!(highlight_matches("Rustaceans", "rust"), "<mark>Rust</mark>aceans");
}

#[test]
fn uppercase_term_matches_lowercase_text() {
    assert_eq!(highlight_matches("rustaceans", "RUST"), "<mark>rust</mark>aceans");
}

#[test]
fn no_match_leaves_text_unchanged() {
    assert_eq!(highlight_matches("Rustaceans", "zz"), "Rustaceans");
}

#[test]
fn empty_term_leaves_text_unchanged() {
    assert_eq!(highlight_matches("Rustaceans", ""), "Rustaceans");
}

#[test]
fn multiple_matches_wrapped() {
    assert_eq!(highlight_matches("go and go", "go"), "<mark>go</mark> and <mark>go</mark>");
}

#[test]
fn matches_do_not_overlap() {
    assert_eq!(highlight_matches("aaa", "aa"), "<mark>aa</mark>a");
}

#[test]
fn whole_text_match() {
    assert_eq!(highlight_matches("Go", "go"), "<mark>Go</mark>");
}
