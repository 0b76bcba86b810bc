use lib::chars::{alpha, digit, graphic, lower, white_space};
use lib::link::parse_link;
use lib::paragraph::parse_paragraph;

fn strings(v: &[&str]) -> Vec<String> {
    v.iter().map(|s| s.to_string()).collect()
}

fn para(lines: &[&str]) -> (Vec<String>, usize) {
    parse_paragraph(&lines.to_vec(), 0)
}

#[test]
fn white_space_matches_std_on_every_char() {
    for u in 0u32..=0x10FFFF {
        if let Some(c) = char::from_u32(u) {
            assert_eq!(white_space(c), c.is_whitespace(), "{u:#x}");
        }
    }
}

#[test]
fn ascii_classes_match_std() {
    for u in 0u32..=0x3000 {
        if let Some(c) = char::from_u32(u) {
            assert_eq!(digit(c), c.is_ascii_digit());
            assert_eq!(alpha(c), c.is_ascii_alphabetic());
            assert_eq!(graphic(c), c.is_ascii_graphic());
            assert_eq!(lower(c), c.to_ascii_lowercase());
        }
    }
}

#[test]
fn link_with_target() {
    assert_eq!(parse_link("[text](url)"), ("text".to_string(), "url".to_string(), true));
    assert_eq!(parse_link("go [a] (b) c"), ("a".to_string(), "b".to_string(), true));
    assert_eq!(parse_link("[a](b) [c](d)"), ("a".to_string(), "b".to_string(), true));
}

#[test]
fn link_without_target() {
    assert_eq!(parse_link("[a] b"), ("a".to_string(), String::new(), false));
    assert_eq!(parse_link("\\[a](b)"), (String::new(), String::new(), false));
}

#[test]
fn no_bracket_no_link() {
    for s in ["", "plain", "(x)", "a ] b", "\\\\"] {
        assert_eq!(parse_link(s), (String::new(), String::new(), false));
    }
}

#[test]
fn paragraph_emphasis_with_asterisks() {
    assert_eq!(para(&["Hello *world*", ""]), (strings(&["<p>", "    Hello <em>world</em>", "</p>"]), 1));
}

#[test]
fn paragraph_bold_with_underscores() {
    assert_eq!(para(&["__b__ c"]), (strings(&["<p>", "    <strong>b</strong> c", "</p>"]), 1));
}

#[test]
fn paragraph_triple_markers() {
    assert_eq!(para(&["***x*** y"]), (strings(&["<p>", "    <em><strong>x</em></strong> y", "</p>"]), 1));
    assert_eq!(para(&["___x___ y"]), (strings(&["<p>", "    <strong><em>x</strong></em> y", "</p>"]), 1));
}

#[test]
fn paragraph_link_skips_by_bytes() {
    assert_eq!(
        para(&["see [x](y) now"]),
        (strings(&["<p>", "    see <a href=\"y\">x</a>now", "</p>"]), 1)
    );
}

#[test]
fn paragraph_image() {
    assert_eq!(
        para(&["![alt](pic.png)"]),
        (strings(&["<p>", "    <img src=\"pic.png\">", "</p>"]), 1)
    );
}

#[test]
fn paragraph_unmatched_bracket_gets_bang() {
    assert_eq!(para(&["a [b c"]), (strings(&["<p>", "    a ![b c", "</p>"]), 1));
}

#[test]
fn paragraph_lone_bang_is_dropped() {
    assert_eq!(para(&["Hi! there"]), (strings(&["<p>", "    Hi there", "</p>"]), 1));
}

#[test]
fn paragraph_escape() {
    assert_eq!(para(&["\\*x\\*"]), (strings(&["<p>", "    *x*", "</p>"]), 1));
}

#[test]
fn paragraph_line_break() {
    assert_eq!(para(&["a  ", "b"]), (strings(&["<p>", "    a<br>", "    b", "</p>"]), 2));
}

#[test]
fn paragraph_block_quote() {
    assert_eq!(
        para(&["  > quote *x*"]),
        (strings(&["<p>", "    <blockquote>quote *x*</blockquote></em>", "</p>"]), 1)
    );
}

#[test]
fn paragraph_code_fence() {
    assert_eq!(
        para(&["```", "x", "```", "y"]),
        (strings(&["<p>", "    <pre><code>", "x", "    </code></pre>", "    y", "</p>"]), 4)
    );
}

#[test]
fn paragraph_nested_lists() {
    assert_eq!(
        para(&["text", "- a", "- b", "1. c", "", "after"]),
        (
            strings(&[
                "<p>",
                "    text",
                "    ",
                "    <ul>",
                "        <li>a</li>",
                "        <li>b</li>",
                "    </ul>",
                "    ",
                "    <ol>",
                "        <li>c</li>",
                "    </ol>",
                "</p>",
            ]),
            4
        )
    );
}

#[test]
fn paragraph_emphasis_runs_on_to_next_line() {
    assert_eq!(
        para(&["a _b", "c_ d"]),
        (strings(&["<p>", "    a <em>b</em>", "    c</em> d", "</p>"]), 2)
    );
}

#[test]
fn paragraph_plain_text_verbatim() {
    assert_eq!(
        para(&["plain text, (with) punctuation.", "more"]),
        (strings(&["<p>", "    plain text, (with) punctuation.", "    more", "</p>"]), 2)
    );
}

#[test]
fn paragraph_stops_at_empty_line() {
    let lines = ["one", "two", "", "three"];
    let (block, n) = para(&lines);
    assert_eq!(n, 2);
    assert_eq!(block.first().map(String::as_str), Some("<p>"));
    assert_eq!(block.last().map(String::as_str), Some("</p>"));
    let (block, n) = parse_paragraph(&lines.to_vec(), 2);
    assert_eq!((block, n), (strings(&["<p>", "</p>"]), 0));
    let (block, n) = parse_paragraph(&lines.to_vec(), 4);
    assert_eq!((block, n), (strings(&["<p>", "</p>"]), 0));
}
