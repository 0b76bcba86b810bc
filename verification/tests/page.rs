use lib::document::parse;

fn head(title: &str) -> Vec<String> {
    vec![
        "<!DOCTYPE html>".to_string(),
        "<html>".to_string(),
        "    <head>".to_string(),
        format!("        <title>{title}</title>"),
        "        <meta charset=\"utf-8\">".to_string(),
        "        <link rel=\"preconnect\" href=\"https://fonts.googleapis.com\">".to_string(),
        "        <link rel=\"preconnect\" href=\"https://fonts.gstatic.com\" crossorigin>".to_string(),
        "        <link href=\"https://fonts.googleapis.com/css2?family=Geologica:wght,CRSV@100..900,0&display=swap\" rel=\"stylesheet\">".to_string(),
        "        <link rel=\"stylesheet\" href=:::\"style.css\">".to_string(),
        "    </head>".to_string(),
        "    <body>".to_string(),
    ]
}

fn page(title: &str, body: &[&str]) -> Vec<String> {
    let mut v = head(title);
    v.extend(body.iter().map(|l| format!("        {l}")));
    v.push("    </body>".to_string());
    v.push("</html>".to_string());
    v
}

#[test]
fn full_page() {
    let lines = vec![
        "# Title", "", "Some text", "", "---", "", "|a|b|", "|---|---|", "|1|2|",
    ];
    let expected = page(
        "T",
        &[
            "<h1 id=\"title\">Title</h1>",
            "",
            "<p>",
            "    Some text",
            "</p>",
            "<hr>",
            "<table>",
            "    <thead>",
            "        <tr>",
            "            <th>a</th>",
            "            <th>b</th>",
            "        </tr>",
            "    </thead>",
            "    <tbody>",
            "        <tr>",
            "            <td>1</td>",
            "            <td>2</td>",
            "        </tr>",
            "    </tbody>",
            "</table>",
            "",
        ],
    );
    assert_eq!(parse(lines, "T".to_string()), expected);
}

#[test]
fn blank_text_gives_empty_body() {
    assert_eq!(parse(vec![], "x".to_string()), page("x", &[]));
    assert_eq!(parse(vec!["", "  ", "\t", "\u{3000}"], "x".to_string()), page("x", &[]));
}

#[test]
fn heading_overwrites_body_line_at_its_index() {
    let lines = vec!["para", "", "# H"];
    assert_eq!(
        parse(lines, "t".to_string()),
        page("t", &["", "<p>", "<h1 id=\"h\">H</h1>", "</p>", ""])
    );
}

#[test]
fn heading_levels_and_anchor() {
    assert_eq!(
        parse(vec!["## Hello World"], "t".to_string()),
        page("t", &["<h2 id=\"hello-world\">Hello World</h2>"])
    );
}

#[test]
fn hash_without_space_is_text() {
    assert_eq!(
        parse(vec!["#tag"], "t".to_string()),
        page("t", &["", "<p>", "    #tag", "</p>"])
    );
}

#[test]
fn rule_needs_blank_neighbours() {
    assert_eq!(parse(vec!["***"], "t".to_string()), page("t", &["<hr>"]));
    assert_eq!(
        parse(vec!["a", "", "___", "b"], "t".to_string()),
        page(
            "t",
            &["", "<p>", "    a", "</p>", "", "<p>", "    ", "    <strong><em>b</em></strong>", "</p>"]
        )
    );
}

#[test]
fn pipe_lines_that_are_no_table_are_text() {
    assert_eq!(
        parse(vec!["|a|b|", "|-|"], "t".to_string()),
        page("t", &["", "<p>", "    |a|b|", "    |-|", "</p>"])
    );
}

#[test]
fn line_after_table_is_passed_over() {
    assert_eq!(
        parse(vec!["|a|", "|---|", "gone", "kept"], "t".to_string()),
        page(
            "t",
            &[
                "<table>",
                "    <thead>",
                "        <tr>",
                "            <th>a</th>",
                "        </tr>",
                "    </thead>",
                "    <tbody>",
                "    </tbody>",
                "</table>",
                "",
                "",
                "<p>",
                "    kept",
                "</p>",
            ]
        )
    );
}

#[test]
fn page_frame_holds() {
    for lines in [vec!["x"], vec!["# a", "- b", "1. c"], vec!["```", "code", "```"]] {
        let out = parse(lines, "title".to_string());
        assert!(out.len() >= 13);
        assert_eq!(out[..11].to_vec(), head("title"));
        assert_eq!(out[out.len() - 2..].to_vec(), vec!["    </body>".to_string(), "</html>".to_string()]);
        assert!(out[11..out.len() - 2].iter().all(|l| l.starts_with("        ")));
    }
}
