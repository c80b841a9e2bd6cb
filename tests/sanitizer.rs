use feed_relay::sanitize::{replace_nbsp, sanitize, strip_markup, truncate_display};

#[test]
fn markup_and_entity_are_cleaned() {
    assert_eq!(sanitize("<b>Hello</b>&nbsp;World"), "Hello World");
}

#[test]
fn long_text_is_cut_at_two_hundred_characters() {
    let raw = "a".repeat(250);
    let r = sanitize(&raw);
    assert_eq!(r, format!("{}...", "a".repeat(200)));
}

#[test]
fn cut_falls_between_multibyte_characters() {
    let raw = format!("{}{}", "a".repeat(199), "é".repeat(51));
    let r = sanitize(&raw);
    assert_eq!(r, format!("{}é...", "a".repeat(199)));
    assert_eq!(r.chars().count(), 203);
}

#[test]
fn text_of_exactly_the_limit_is_kept() {
    let raw = "ü".repeat(200);
    assert_eq!(truncate_display(&raw), raw);
    assert_eq!(truncate_display("short"), "short");
}

#[test]
fn surrounding_whitespace_is_trimmed() {
    assert_eq!(sanitize("  <p> spaced </p>\n"), "spaced");
    assert_eq!(sanitize("&nbsp;x&nbsp;"), "x");
}

#[test]
fn tags_do_not_nest() {
    assert_eq!(strip_markup("a<b<c>d>e"), "ade");
    assert_eq!(strip_markup("x > y"), "x  y");
    assert_eq!(strip_markup("open <tag never closed"), "open ");
}

#[test]
fn entity_is_replaced_left_to_right() {
    assert_eq!(replace_nbsp("&nbsp;&nbsp;"), "  ");
    assert_eq!(replace_nbsp("&&nbsp;;"), "& ;");
    assert_eq!(replace_nbsp("&nbsp"), "&nbsp");
}

#[test]
fn entity_split_by_a_tag_is_joined_then_replaced() {
    assert_eq!(sanitize("a&nb<i>sp;b"), "a b");
}
