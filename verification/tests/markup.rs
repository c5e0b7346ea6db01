use zswalc::escape::escape_text;
use zswalc::preprocessor::{is_allowed, parse_element, preprocess_msg, str_split_at_while};
use zswalc::text::{contains_char, first_char, is_whitespace, split_first, utf8_width};

#[test]
fn plain_text_is_escaped_character_by_character() {
    let raw = "Tom & Jerry <3 \"quotes\" 'single' ünï©ødé";
    assert_eq!(
        preprocess_msg(raw),
        "Tom &amp; Jerry &lt;3 &quot;quotes&quot; &#x27;single&#x27; ünï©ødé"
    );
    assert_eq!(preprocess_msg(raw), htmlescape::encode_minimal(raw));
    assert_eq!(preprocess_msg(raw), escape_text(raw));
}

#[test]
fn empty_message_stays_empty() {
    assert_eq!(preprocess_msg(""), "");
}

#[test]
fn listed_tags_become_html_tags() {
    assert_eq!(
        preprocess_msg("[a href=\"x\"]hi[/a]"),
        "<a href=\"x\">hi</a>"
    );
    assert_eq!(preprocess_msg("[b]bold[/b]"), "<b>bold</b>");
    assert_eq!(preprocess_msg("[i]it[/i] & more"), "<i>it</i> &amp; more");
}

#[test]
fn arguments_of_a_listed_tag_are_not_escaped() {
    assert_eq!(
        preprocess_msg("[a href='x' title=\"<&>\"]"),
        "<a href='x' title=\"<&>\">"
    );
}

#[test]
fn unknown_tag_is_escaped_text() {
    let out = preprocess_msg("[script]x[/script]");
    assert_eq!(out, "scriptx/script");
    assert!(!out.contains("<script>"));
    assert!(!out.contains('<'));
}

#[test]
fn unknown_tag_body_is_escaped() {
    assert_eq!(preprocess_msg("[<img src=x>]"), "&lt;img src=x&gt;");
    assert_eq!(preprocess_msg("[ab]"), "ab");
    assert_eq!(preprocess_msg("[A]"), "A");
    assert_eq!(preprocess_msg("[/]"), "/");
    assert_eq!(preprocess_msg("[/a/]"), "/a/");
    assert_eq!(preprocess_msg("[]"), "");
    assert_eq!(preprocess_msg("[ a]"), " a");
}

#[test]
fn unterminated_bracket_drops_the_bracket() {
    assert_eq!(preprocess_msg("a[b"), "ab");
    assert_eq!(preprocess_msg("a[b <c>"), "ab &lt;c&gt;");
    assert_eq!(preprocess_msg("["), "");
    assert_eq!(preprocess_msg("x[a href"), "xa href");
}

#[test]
fn unterminated_bracket_swallows_later_openers() {
    assert_eq!(preprocess_msg("[b[i"), "b[i");
}

#[test]
fn orphan_close_is_dropped() {
    assert_eq!(preprocess_msg("a]b"), "ab");
    assert_eq!(preprocess_msg("]]]"), "");
}

#[test]
fn nesting_is_rejected() {
    assert_eq!(preprocess_msg("[a [b]]"), "a [b");
    assert_eq!(preprocess_msg("[b [i]x[/i]]"), "b [ix</i>");
}

#[test]
fn opening_bracket_in_the_tag_is_rejected() {
    assert_eq!(preprocess_msg("[[b]"), "[b");
}

#[test]
fn tag_ends_at_any_white_space() {
    assert_eq!(preprocess_msg("[a\thref=x]"), "<a\thref=x>");
    assert_eq!(preprocess_msg("[a\u{a0}x]"), "<a\u{a0}x>");
    assert_eq!(preprocess_msg("[a\u{3000}x]"), "<a\u{3000}x>");
    assert_eq!(preprocess_msg("[a\u{200b}x]"), "a\u{200b}x");
    assert_eq!(preprocess_msg("[b ]"), "<b >");
}

#[test]
fn multibyte_text_around_elements() {
    assert_eq!(preprocess_msg("日本[b]語[/b]😀"), "日本<b>語</b>😀");
    assert_eq!(preprocess_msg("[é]ü]"), "éü");
}

#[test]
fn parse_element_reads_one_element() {
    let r = parse_element("[b]rest[i]");
    assert_eq!(r.parsed, "<b>");
    assert_eq!(r.rest, "rest[i]");
    let r = parse_element("[x y]z");
    assert_eq!(r.parsed, "x y");
    assert_eq!(r.rest, "z");
    let r = parse_element("[open <");
    assert_eq!(r.parsed, "open &lt;");
    assert_eq!(r.rest, "");
}

#[test]
fn parse_element_leaves_other_input_alone() {
    let r = parse_element("b]rest");
    assert_eq!(r.parsed, "");
    assert_eq!(r.rest, "b]rest");
    let r = parse_element("");
    assert_eq!(r.parsed, "");
    assert_eq!(r.rest, "");
}

#[test]
fn split_at_while_cuts_at_the_first_refusal() {
    assert_eq!(str_split_at_while("key=value", |c| c != '='), ("key", "=value"));
    assert_eq!(str_split_at_while("novalue", |c| c != '='), ("novalue", ""));
    assert_eq!(str_split_at_while("=x", |c| c != '='), ("", "=x"));
    assert_eq!(str_split_at_while("", |c| c != '='), ("", ""));
    assert_eq!(str_split_at_while("äöü€😀=ß", |c| c != '='), ("äöü€😀", "=ß"));
    assert_eq!(str_split_at_while("a=b=c", |c| c != '='), ("a", "=b=c"));
}

#[test]
fn allowed_tags_are_exactly_six() {
    for tag in ["a", "b", "i", "/a", "/b", "/i"] {
        assert!(is_allowed(tag), "{}", tag);
    }
    for tag in ["", "A", "c", "/", "//", "/c", "ab", "/ab", "a/", " a", "/a ", "é"] {
        assert!(!is_allowed(tag), "{}", tag);
    }
}

#[test]
fn escape_text_writes_the_five_entities() {
    assert_eq!(escape_text("\""), "&quot;");
    assert_eq!(escape_text("&"), "&amp;");
    assert_eq!(escape_text("'"), "&#x27;");
    assert_eq!(escape_text("<"), "&lt;");
    assert_eq!(escape_text(">"), "&gt;");
    assert_eq!(escape_text("<em>Hej!</em>"), "&lt;em&gt;Hej!&lt;/em&gt;");
    assert_eq!(escape_text("[x]"), "[x]");
    assert_eq!(escape_text(""), "");
}

#[test]
fn escaped_text_is_inert() {
    let out = escape_text("<a href=\"x\" onclick='y'>&</a>");
    assert!(!out.contains('<') && !out.contains('>'));
    assert!(!out.contains('"') && !out.contains('\''));
}

#[test]
fn white_space_agrees_with_the_standard_library() {
    let mut v: u32 = 0;
    while v <= 0x10FFFF {
        if let Some(c) = char::from_u32(v) {
            assert_eq!(is_whitespace(c), c.is_whitespace(), "U+{:04X}", v);
        }
        v += 1;
    }
}

#[test]
fn utf8_width_agrees_with_the_standard_library() {
    let mut v: u32 = 0;
    while v <= 0x10FFFF {
        if let Some(c) = char::from_u32(v) {
            assert_eq!(utf8_width(c), c.len_utf8(), "U+{:04X}", v);
        }
        v += 1;
    }
}

#[test]
fn first_char_and_split_first() {
    assert_eq!(first_char(""), None);
    assert_eq!(first_char("€uro"), Some('€'));
    assert_eq!(split_first(""), None);
    assert_eq!(split_first("€uro"), Some(('€', "€", "uro")));
    assert_eq!(split_first("x"), Some(('x', "x", "")));
}

#[test]
fn contains_char_finds_any_position() {
    assert!(contains_char("abc[", '['));
    assert!(contains_char("[abc", '['));
    assert!(!contains_char("abc", '['));
    assert!(!contains_char("", '['));
    assert!(contains_char("日本語", '語'));
}
