use lib::lists::{is_ol, parse_ol, parse_ul, strip_ordered_list_prefix};
use lib::table::{is_table, parse_table};
use lib::text::{get_header, normalise_string};

fn strings(v: &[&str]) -> Vec<String> {
    v.iter().map(|s| s.to_string()).collect()
}

#[test]
fn normalise_lowercases_and_dashes() {
    assert_eq!(normalise_string(&"Hello World!".to_string()), "hello-world!");
}

#[test]
fn normalise_drops_non_ascii_and_dashes_unicode_space() {
    assert_eq!(normalise_string(&"\u{dc}n\u{ef}code Tab\tX".to_string()), "ncode-tab-x");
    assert_eq!(normalise_string(&"a\u{3000}b".to_string()), "a-b");
    assert_eq!(normalise_string(&String::new()), "");
}

#[test]
fn normalise_is_idempotent() {
    for s in ["Hello World!", "  Mixed CASE_text #1 ", "\u{e9}t\u{e9} 2024", "a\tb\nc"] {
        let once = normalise_string(&s.to_string());
        let twice = normalise_string(&once);
        assert_eq!(once, twice);
        assert!(once.chars().count() <= s.chars().count());
        assert!(once.chars().all(|c| c.is_ascii_graphic() && !c.is_ascii_uppercase()));
    }
}

#[test]
fn strip_prefix_cases() {
    assert_eq!(strip_ordered_list_prefix("12.  item"), Some("item"));
    assert_eq!(strip_ordered_list_prefix("3."), Some(""));
    assert_eq!(strip_ordered_list_prefix("1.\u{3000}x y"), Some("x y"));
    assert_eq!(strip_ordered_list_prefix("12item"), None);
    assert_eq!(strip_ordered_list_prefix(".5"), None);
    assert_eq!(strip_ordered_list_prefix(""), None);
    assert_eq!(strip_ordered_list_prefix("12"), None);
}

#[test]
fn is_ol_cases() {
    assert!(is_ol("1. a"));
    assert!(is_ol("10.x"));
    assert!(!is_ol("1"));
    assert!(!is_ol("a1."));
    assert!(!is_ol(".1"));
    assert!(!is_ol(""));
}

#[test]
fn is_ol_iff_prefix_strips() {
    for s in ["1. a", "10.x", "1", "a1.", ".1", "", "7.", "9 . x", "\u{661}. x"] {
        assert_eq!(is_ol(s), strip_ordered_list_prefix(s).is_some(), "{s:?}");
        if let Some(t) = strip_ordered_list_prefix(s) {
            assert!(s.ends_with(t));
            assert!(t.len() < s.len());
        }
    }
}

#[test]
fn parse_ol_run() {
    let lines = vec!["1. a", "2.  b", "x", "3. c"];
    let (block, n) = parse_ol(&lines, 0);
    assert_eq!(block, strings(&["<ol>", "    <li>a</li>", "    <li>b</li>", "</ol>"]));
    assert_eq!(n, 2);
    let (block, n) = parse_ol(&lines, 3);
    assert_eq!(block, strings(&["<ol>", "    <li>c</li>", "</ol>"]));
    assert_eq!(n, 1);
    let (block, n) = parse_ol(&lines, 4);
    assert_eq!(block, strings(&["<ol>", "</ol>"]));
    assert_eq!(n, 0);
}

#[test]
fn parse_ul_run() {
    let lines = vec!["- a", "- b c", "-x", "- d"];
    let (block, n) = parse_ul(&lines, 0);
    assert_eq!(block, strings(&["<ul>", "    <li>a</li>", "    <li>b c</li>", "</ul>"]));
    assert_eq!(n, 2);
    let (block, n) = parse_ul(&lines, 2);
    assert_eq!(block, strings(&["<ul>", "</ul>"]));
    assert_eq!(n, 0);
    assert_eq!(block.len(), n + 2);
}

#[test]
fn get_header_cases() {
    assert_eq!(get_header("## Title"), (2, true, "Title".to_string()));
    assert_eq!(get_header("#Title"), (1, false, "itle".to_string()));
    assert_eq!(get_header(" x"), (0, true, "x".to_string()));
    assert_eq!(get_header("### \u{e9}t\u{e9}"), (3, true, "\u{e9}t\u{e9}".to_string()));
}

#[test]
fn heading_line_shape() {
    let line = "### abc def";
    let (level, is_header, text) = get_header(line);
    assert!(is_header);
    assert_eq!(format!("{} {}", "#".repeat(level as usize), text), line);
}

#[test]
fn is_table_cases() {
    assert!(is_table(vec!["|a|b|", "|---|---|"]));
    assert!(is_table(vec!["|a|b|", "|---|---|", "|1|2|"]));
    assert!(!is_table(vec!["|a|b|", "|--|---|"]));
    assert!(!is_table(vec!["|a|b|", "|---|"]));
    assert!(!is_table(vec!["|a|b|"]));
    assert!(!is_table(vec![]));
    assert!(is_table(vec!["x", "y"]));
    assert!(is_table(vec!["", ""]));
}

#[test]
fn table_rows_have_header_columns() {
    for lines in [vec!["|a|b|", "|---|---|"], vec!["|a|", "|-x--|"], vec!["x", "y"]] {
        if is_table(lines.clone()) {
            let head = lines[0].chars().skip(1).filter(|c| *c == '|').count();
            let rule = lines[1].chars().skip(1).filter(|c| *c == '|').count();
            assert_eq!(head, rule);
        }
    }
}

#[test]
fn parse_table_simple() {
    let lines = vec!["|h1|h2|", "|---|---|", "|a|b|", "|c|d|"];
    let (block, n) = parse_table(&lines, 0);
    assert_eq!(
        block,
        strings(&[
            "<table>",
            "    <thead>",
            "        <tr>",
            "            <th>h1</th>",
            "            <th>h2</th>",
            "        </tr>",
            "    </thead>",
            "    <tbody>",
            "        <tr>",
            "            <td>a</td>",
            "            <td>b</td>",
            "        </tr>",
            "        <tr>",
            "            <td>c</td>",
            "            <td>d</td>",
            "        </tr>",
            "    </tbody>",
            "</table>",
        ])
    );
    assert_eq!(n, 4);
}

#[test]
fn parse_table_carries_trailing_text_and_skips_rules() {
    let lines = vec!["x", "|h|", "|---|", "|a|b", "|---|", "|c|", "", "|z|"];
    let (block, n) = parse_table(&lines, 1);
    assert_eq!(
        block,
        strings(&[
            "<table>",
            "    <thead>",
            "        <tr>",
            "            <th>h</th>",
            "        </tr>",
            "    </thead>",
            "    <tbody>",
            "        <tr>",
            "            <td>a</td>",
            "        </tr>",
            "        <tr>",
            "            <td>bc</td>",
            "        </tr>",
            "    </tbody>",
            "</table>",
        ])
    );
    assert_eq!(n, 5);
}

#[test]
fn parse_table_header_only() {
    let (block, n) = parse_table(&vec!["|a|b|c"], 0);
    assert_eq!(block.len(), 2 + 8);
    assert_eq!(block[3], "            <th>a</th>");
    assert_eq!(block[4], "            <th>b</th>");
    assert_eq!(n, 2);
}

