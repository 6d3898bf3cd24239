use groups_page::filter::filter_groups;
use groups_page::group::Group;

fn group(name: &str, description: &str, url: &str, tags: &[&str]) -> Group {
    Group {
        name: name.to_string(),
        description: description.to_string(),
        url: url.to_string(),
        tags: tags.iter().map(|t| t.to_string()).collect(),
    }
}

fn sample() -> Vec<Group> {
    vec![
        group("Gophers", "A *friendly* group", "http://x", &["go", "systems"]),
        group("Rustaceans", "Memory safety fans", "http://y", &["rust", "systems"]),
        group("Pythonistas", "Scripting circle", "http://z", &["python"]),
        group("Untagged", "No labels here", "http://w", &[]),
    ]
}

fn names(gs: &[Group]) -> Vec<String> {
    gs.iter().map(|g| g.name.clone()).collect()
}

#[test]
fn absent_term_keeps_all_in_order() {
    let res = filter_groups(sample(), &None);
    assert_eq!(names(&res), vec!["Gophers", "Rustaceans", "Pythonistas", "Untagged"]);
}

#[test]
fn empty_term_keeps_all_in_order() {
    let res = filter_groups(sample(), &Some(String::new()));
    assert_eq!(names(&res), vec!["Gophers", "Rustaceans", "Pythonistas", "Untagged"]);
}

#[test]
fn whitespace_only_term_keeps_all() {
    let res = filter_groups(sample(), &Some("   \t ".to_string()));
    assert_eq!(names(&res), vec!["Gophers", "Rustaceans", "Pythonistas", "Untagged"]);
}

#[test]
fn token_matches_name_description_or_tag() {
    let res = filter_groups(sample(), &Some("systems".to_string()));
    assert_eq!(names(&res), vec!["Gophers", "Rustaceans"]);
    let res = filter_groups(sample(), &Some("scripting".to_string()));
    assert_eq!(names(&res), vec!["Pythonistas"]);
}

#[test]
fn matching_is_case_insensitive() {
    let res = filter_groups(sample(), &Some("RUST".to_string()));
    assert_eq!(names(&res), vec!["Rustaceans"]);
    let mut gs = sample();
    gs[1].name = "RUSTACEANS".to_string();
    let res = filter_groups(gs, &Some("rustaceans".to_string()));
    assert_eq!(names(&res), vec!["RUSTACEANS"]);
}

#[test]
fn tag_token_restricts_to_tags() {
    // "go" as a plain token also matches the name "Gophers"; with the tag:
    // prefix only the tags decide.
    let res = filter_groups(sample(), &Some("tag:go".to_string()));
    assert_eq!(names(&res), vec!["Gophers"]);
    // "python" only appears as a tag, so tag: still finds it.
    let res = filter_groups(sample(), &Some("tag:python".to_string()));
    assert_eq!(names(&res), vec!["Pythonistas"]);
    // A name-only match is not retained under tag:.
    let res = filter_groups(sample(), &Some("tag:untagged".to_string()));
    assert_eq!(names(&res), Vec::<String>::new());
}

#[test]
fn bare_tag_token_matches_any_tagged_group() {
    let res = filter_groups(sample(), &Some("tag:".to_string()));
    assert_eq!(names(&res), vec!["Gophers", "Rustaceans", "Pythonistas"]);
}

#[test]
fn tag_token_matches_substrings_of_tags() {
    let res = filter_groups(sample(), &Some("tag:sys".to_string()));
    assert_eq!(names(&res), vec!["Gophers", "Rustaceans"]);
}

#[test]
fn multi_token_query_needs_every_token() {
    // "systems" matches two groups, "friendly" only one: the conjunction
    // keeps the one.
    let res = filter_groups(sample(), &Some("systems friendly".to_string()));
    assert_eq!(names(&res), vec!["Gophers"]);
    // Order of tokens does not matter for membership.
    let res = filter_groups(sample(), &Some("friendly systems".to_string()));
    assert_eq!(names(&res), vec!["Gophers"]);
    // Tokens satisfied by different fields of the same group.
    let res = filter_groups(sample(), &Some("memory tag:rust".to_string()));
    assert_eq!(names(&res), vec!["Rustaceans"]);
}

#[test]
fn tokens_split_on_whitespace() {
    // As one token nothing contains "go rust"; as two tokens the query
    // requires both, which no single group satisfies.
    let res = filter_groups(sample(), &Some("go rust".to_string()));
    assert_eq!(names(&res), Vec::<String>::new());
    // Two tokens that one group does satisfy.
    let res = filter_groups(sample(), &Some("go systems".to_string()));
    assert_eq!(names(&res), vec!["Gophers"]);
}

#[test]
fn no_match_gives_empty_result() {
    let res = filter_groups(sample(), &Some("haskell".to_string()));
    assert!(res.is_empty());
}
