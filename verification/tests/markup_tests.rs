use groups_page::markup::replace_markdown;

#[test]
fn bold_roundtrip() {
    assert_eq!(replace_markdown("*hi*"), "<b>hi</b>");
}

#[test]
fn italic_roundtrip() {
    assert_eq!(replace_markdown("_hi_"), "<i>hi</i>");
}

#[test]
fn colored_span() {
    assert_eq!(replace_markdown("!1red!"), "<span style=\"color:red\">red</span>");
}

#[test]
fn unterminated_bold_left_open() {
    assert_eq!(replace_markdown("*oops"), "<b>oops");
}

#[test]
fn unterminated_italic_left_open() {
    assert_eq!(replace_markdown("_oops"), "<i>oops");
}

#[test]
fn plain_text_unchanged() {
    assert_eq!(replace_markdown("hello world"), "hello world");
}

#[test]
fn empty_text() {
    assert_eq!(replace_markdown(""), "");
}

#[test]
fn all_color_digits() {
    assert_eq!(replace_markdown("!2x!"), "<span style=\"color:lime\">x</span>");
    assert_eq!(replace_markdown("!3x!"), "<span style=\"color:dodgerblue\">x</span>");
    assert_eq!(replace_markdown("!4x!"), "<span style=\"color:goldenrod\">x</span>");
    assert_eq!(replace_markdown("!5x!"), "<span style=\"color:lightblue\">x</span>");
    assert_eq!(replace_markdown("!6x!"), "<span style=\"color:magenta\">x</span>");
    assert_eq!(replace_markdown("!7x!"), "<span style=\"color:pink\">x</span>");
    assert_eq!(replace_markdown("!8x!"), "<span style=\"color:brown\">x</span>");
    assert_eq!(replace_markdown("!9x!"), "<span style=\"color:black\">x</span>");
}

#[test]
fn zero_digit_gives_empty_color() {
    assert_eq!(replace_markdown("!0x!"), "<span style=\"color:\">x</span>");
}

#[test]
fn bang_without_digit_is_literal() {
    assert_eq!(replace_markdown("hi! there"), "hi! there");
}

#[test]
fn bang_at_end_is_literal() {
    assert_eq!(replace_markdown("hi!"), "hi!");
}

#[test]
fn unterminated_span_left_open() {
    assert_eq!(replace_markdown("!1oops"), "<span style=\"color:red\">oops");
}

#[test]
fn constructs_in_sequence() {
    assert_eq!(replace_markdown("a *b* c _d_ e"), "a <b>b</b> c <i>d</i> e");
}

#[test]
fn content_between_delimiters_not_rescanned() {
    assert_eq!(replace_markdown("*_x_*"), "<b>_x_</b>");
}
