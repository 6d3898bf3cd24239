use groups_page::group::Group;
use groups_page::render::{index, render_groups, search};

fn group(name: &str, description: &str, url: &str, tags: &[&str]) -> Group {
    Group {
        name: name.to_string(),
        description: description.to_string(),
        url: url.to_string(),
        tags: tags.iter().map(|t| t.to_string()).collect(),
    }
}

const TEMPLATE: &str = "<html><table>{{groups}}</table></html>";

#[test]
fn end_to_end_search_scenario() {
    let groups = vec![group(
        "Gophers",
        "A *friendly* group",
        "http://x",
        &["go", "systems"],
    )];
    let page = search(groups, TEMPLATE, Some("go".to_string()));
    assert!(page.contains("<li>go</li><li>systems</li>"));
    assert!(page.contains("<b>friendly</b>"));
    assert!(page.contains("<a href=\"http://x\">Join Group</a>"));
    assert!(page.starts_with("<html><table>"));
    assert!(page.ends_with("</table></html>"));
    assert!(!page.contains("{{groups}}"));
}

#[test]
fn empty_result_renders_no_results_row() {
    let groups = vec![group("Gophers", "d", "u", &["go"])];
    let page = search(groups, TEMPLATE, Some("nomatch".to_string()));
    assert!(page.contains("<tr><td colspan=\"4\">No results found</td></tr>"));
    assert!(!page.contains("<tr><td>"));
    assert!(!page.contains("Gophers"));
}

#[test]
fn index_renders_all_groups_without_highlighting() {
    let groups = vec![
        group("Alpha", "first", "http://a", &["one"]),
        group("Beta", "second", "http://b", &["two"]),
    ];
    let page = index(groups, TEMPLATE);
    assert!(page.contains("<tr><td>Alpha</td><td>first</td><td><ul><li>one</li></ul></td>"));
    assert!(page.contains("<tr><td>Beta</td><td>second</td><td><ul><li>two</li></ul></td>"));
    assert!(!page.contains("<mark>"));
    let alpha = page.find("Alpha").unwrap();
    let beta = page.find("Beta").unwrap();
    assert!(alpha < beta);
}

#[test]
fn search_highlights_name_and_description() {
    let groups = vec![group("Gophers", "go along", "http://x", &["go"])];
    let page = search(groups, TEMPLATE, Some("go".to_string()));
    assert!(page.contains("<td><mark>Go</mark>phers</td>"));
    assert!(page.contains("<td><mark>go</mark> along</td>"));
    // Tags are rendered raw, without highlighting.
    assert!(page.contains("<ul><li>go</li></ul>"));
}

#[test]
fn template_without_placeholder_is_returned_unchanged() {
    let groups = vec![group("Alpha", "first", "http://a", &["one"])];
    let page = render_groups(groups, "<html>static</html>", None);
    assert_eq!(page, "<html>static</html>");
}

#[test]
fn only_first_placeholder_is_replaced() {
    let groups: Vec<Group> = Vec::new();
    let page = render_groups(groups, "A{{groups}}B{{groups}}C", None);
    assert_eq!(page, "A<tr><td colspan=\"4\">No results found</td></tr>B{{groups}}C");
}

#[test]
fn markup_and_highlight_compose_in_description() {
    let groups = vec![group("G", "a *bold* word", "http://x", &["t"])];
    let page = search(groups, TEMPLATE, Some("bold".to_string()));
    // The markup pass runs first, the highlighter sees the transformed text.
    assert!(page.contains("<b><mark>bold</mark></b>"));
}
