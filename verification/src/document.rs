//! The whole page: head, blocks of the body (tables, rules, headings, paragraphs), and end.

use vstd::prelude::*;
use crate::chars::{
    all_white_space, chars_of, extend_lines, has_prefix, is_blank, prefixed, push_line,
    push_prefixed, slice_lines, span_end, starts_with, strings_view, text_lines,
};
use crate::paragraph::{parse_paragraph, spec_parse_paragraph};
use crate::table::{is_table, parse_table, spec_is_table, spec_parse_table};
use crate::text::{get_header, header_ok, normalise_string, spec_get_header, spec_normalise};

verus! {

broadcast use vstd::string::group_string_axioms;

/// The lines of the page before its body.
pub open spec fn head_lines(title: Seq<char>) -> Seq<Seq<char>> {
    seq![
        "<!DOCTYPE html>"@,
        "<html>"@,
        "    <head>"@,
        "        <title>"@ + title + "</title>"@,
        "        <meta charset=\"utf-8\">"@,
        "        <link rel=\"preconnect\" href=\"https://fonts.googleapis.com\">"@,
        "        <link rel=\"preconnect\" href=\"https://fonts.gstatic.com\" crossorigin>"@,
        "        <link href=\"https://fonts.googleapis.com/css2?family=Geologica:wght,CRSV@100..900,0&display=swap\" rel=\"stylesheet\">"@,
        "        <link rel=\"stylesheet\" href=:::\"style.css\">"@,
        "    </head>"@,
        "    <body>"@,
    ]
}

/// The lines of the page after its body.
pub open spec fn tail_lines_of_page() -> Seq<Seq<char>> {
    seq!["    </body>"@, "</html>"@]
}

pub open spec fn digit_char(d: nat) -> char {
    (48 + d) as char
}

/// The decimal digits of `n`.
pub open spec fn decimal(n: nat) -> Seq<char>
    decreases n,
{
    if n < 10 {
        seq![digit_char(n)]
    } else {
        decimal(n / 10).push(digit_char(n % 10))
    }
}

/// The `<hN id="...">` line of a heading of level `level` and text `text`.
pub open spec fn heading(level: u8, text: Seq<char>) -> Seq<char> {
    "<h"@ + decimal(level as nat) + " id=\""@ + spec_normalise(text) + "\">"@ + text + "</h"@
        + decimal(level as nat) + ">"@
}

/// Index of the first line at or after `j` that does not start with `'|'`.
pub open spec fn pipe_end(lines: Seq<Seq<char>>, j: int) -> int
    decreases lines.len() - j,
{
    if 0 <= j < lines.len() && starts_with(lines[j], "|"@) {
        pipe_end(lines, j + 1)
    } else {
        j
    }
}

pub open spec fn is_rule_char(c: char) -> bool {
    c == '_' || c == '-' || c == '*'
}

/// Line `i` is a horizontal rule: three or more of `'_'`, `'-'`, `'*'`, with a blank line
/// (or the edge of the text) above and below.
pub open spec fn is_hr(lines: Seq<Seq<char>>, i: int) -> bool {
    &&& forall|j: int| 0 <= j < lines[i].len() ==> #[trigger] is_rule_char(lines[i][j])
    &&& lines[i].len() >= 3
    &&& (i == 0 || all_white_space(lines[i - 1]))
    &&& (i == lines.len() - 1 || all_white_space(lines[i + 1]))
}

/// The state of the page: index of the next line and the body lines so far.
pub struct DocScan {
    pub i: int,
    pub body: Seq<Seq<char>>,
}

/// A heading or a paragraph at line `d.i`, after an empty body line has been added. A heading
/// replaces the body line at index `d.i` (the index of its source line), and fails where there
/// is none; a line whose `'#'` cannot be read fails too.
pub open spec fn text_block(lines: Seq<Seq<char>>, d: DocScan) -> Option<DocScan> {
    let line = lines[d.i];
    let body = d.body.push(seq![]);
    let paragraph = match spec_parse_paragraph(lines, d.i) {
        None => None,
        Some((p, n)) => Some(DocScan { i: d.i + n, body: body + p }),
    };
    if starts_with(line, "#"@) {
        if !header_ok(line) {
            None
        } else {
            let (level, is_header, text) = spec_get_header(line);
            if !is_header {
                paragraph
            } else if d.i < body.len() {
                Some(DocScan { i: d.i + 1, body: body.update(d.i, heading(level, text)) })
            } else {
                None
            }
        }
    } else {
        paragraph
    }
}

/// One block of the page at line `d.i`: a blank line is passed over, a run of `'|'` lines that
/// forms a table becomes the table (and the line after it is passed over), a rule becomes
/// `<hr>`, anything else a heading or a paragraph. `None` where the conversion stops: a
/// table counter overflows, the line after a table lies past `usize::MAX`, or the heading or
/// paragraph fails.
pub open spec fn doc_step(lines: Seq<Seq<char>>, d: DocScan) -> Option<DocScan> {
    let i = d.i;
    let line = lines[i];
    if all_white_space(line) {
        Some(DocScan { i: i + 1, ..d })
    } else if starts_with(line, "|"@) {
        let end = pipe_end(lines, i + 1);
        let table = lines.subrange(i, end);
        match spec_is_table(table) {
            None => None,
            Some(true) => if end + 1 > usize::MAX {
                None
            } else {
                Some(
                    DocScan { i: end + 1, body: (d.body + spec_parse_table(table, 0).0).push(seq![]) },
                )
            },
            Some(false) => text_block(lines, d),
        }
    } else if is_hr(lines, i) {
        Some(DocScan { i: i + 1, body: d.body.push("<hr>"@) })
    } else {
        text_block(lines, d)
    }
}

/// The blocks of the page from line `d.i` on.
pub open spec fn doc_run(lines: Seq<Seq<char>>, d: DocScan) -> Option<DocScan>
    decreases lines.len() + 1 - d.i,
{
    if d.i < 0 || d.i >= lines.len() {
        Some(d)
    } else {
        match doc_step(lines, d) {
            None => None,
            Some(q) => if d.i < q.i <= lines.len() + 1 {
                doc_run(lines, q)
            } else {
                None
            },
        }
    }
}

/// The HTML page for `lines` with title `title`; `None` where some block cannot be
/// converted.
pub open spec fn spec_parse(lines: Seq<Seq<char>>, title: Seq<char>) -> Option<Seq<Seq<char>>> {
    match doc_run(lines, DocScan { i: 0, body: seq![] }) {
        None => None,
        Some(d) => Some(head_lines(title) + prefixed(d.body, "        "@) + tail_lines_of_page()),
    }
}

/// Appends the decimal digits of `n` to `s`.
fn push_decimal(s: &mut String, n: u8)
    ensures
        final(s)@ == old(s)@ + decimal(n as nat),
{
    proof {
        reveal_with_fuel(decimal, 3);
    }
    let ghost start = s@;
    if n >= 100 {
        let d: u8 = n / 100;
        s.push((d + 48) as char);
        assert((d + 48) as char == digit_char(d as nat));
    }
    if n >= 10 {
        let d: u8 = (n / 10) % 10;
        s.push((d + 48) as char);
        assert((d + 48) as char == digit_char(d as nat));
    }
    let d: u8 = n % 10;
    s.push((d + 48) as char);
    assert((d + 48) as char == digit_char(d as nat));
    if n >= 100 {
        assert(decimal((n / 10) as nat) == seq![digit_char((n / 100) as nat), digit_char(((n / 10) % 10) as nat)]);
    }
    assert(s@ =~= start + decimal(n as nat));
}

/// The line `<hN id="...">text</hN>` for a heading.
fn heading_line(level: u8, text: &String) -> (r: String)
    ensures
        r@ == heading(level, text@),
{
    let mut h = String::from_str("<h");
    push_decimal(&mut h, level);
    h.append(" id=\"");
    let anchor = normalise_string(text);
    h.append(anchor.as_str());
    h.append("\">");
    h.append(text.as_str());
    h.append("</h");
    push_decimal(&mut h, level);
    h.append(">");
    h
}

/// Whether every character of `s` is `'_'`, `'-'` or `'*'`.
fn all_rule_chars(s: &Vec<char>) -> (b: bool)
    ensures
        b == forall|j: int| 0 <= j < s@.len() ==> #[trigger] is_rule_char(s@[j]),
{
    let mut i: usize = 0;
    while i < s.len()
        invariant
            i <= s.len(),
            forall|j: int| 0 <= j < i ==> #[trigger] is_rule_char(s@[j]),
        decreases s.len() - i,
    {
        let c = s[i];
        if !(c == '_' || c == '-' || c == '*') {
            assert(!is_rule_char(s@[i as int]));
            return false;
        }
        i = i + 1;
    }
    true
}

/// Converts the lines of a Markdown text into the lines of an HTML page titled `title`.
pub fn parse(lines: Vec<&str>, title: String) -> (r: Vec<String>)
    requires
        spec_parse(text_lines(lines@), title@) is Some,
    ensures
        spec_parse(text_lines(lines@), title@) == Some(strings_view(r@)),
{
    let ghost ls = text_lines(lines@);
    let mut parsed: Vec<String> = Vec::new();
    parsed.push(String::from_str("<!DOCTYPE html>"));
    parsed.push(String::from_str("<html>"));
    parsed.push(String::from_str("    <head>"));
    let mut title_line = String::from_str("        <title>");
    title_line.append(title.as_str());
    title_line.append("</title>");
    parsed.push(title_line);
    parsed.push(String::from_str("        <meta charset=\"utf-8\">"));
    parsed.push(
        String::from_str("        <link rel=\"preconnect\" href=\"https://fonts.googleapis.com\">"),
    );
    parsed.push(
        String::from_str(
            "        <link rel=\"preconnect\" href=\"https://fonts.gstatic.com\" crossorigin>",
        ),
    );
    parsed.push(
        String::from_str(
            "        <link href=\"https://fonts.googleapis.com/css2?family=Geologica:wght,CRSV@100..900,0&display=swap\" rel=\"stylesheet\">",
        ),
    );
    parsed.push(String::from_str("        <link rel=\"stylesheet\" href=:::\"style.css\">"));
    parsed.push(String::from_str("    </head>"));
    parsed.push(String::from_str("    <body>"));
    assert(strings_view(parsed@) =~= head_lines(title@));
    let ghost head = strings_view(parsed@);
    let mut body: Vec<String> = Vec::new();
    let mut i: usize = 0;
    assert(strings_view(body@) =~= seq![]);
    while i < lines.len()
        invariant
            ls == text_lines(lines@),
            ls.len() == lines.len(),
            doc_run(ls, DocScan { i: i as int, body: strings_view(body@) }) == doc_run(
                ls,
                DocScan { i: 0, body: seq![] },
            ),
            doc_run(ls, DocScan { i: 0, body: seq![] }) is Some,
        decreases lines.len() + 1 - i,
    {
        let chars = chars_of(lines[i]);
        assert(ls[i as int] == chars@);
        if is_blank(&chars) {
            i = i + 1;
            continue ;
        }
        let ghost d = DocScan { i: i as int, body: strings_view(body@) };
        assert(doc_step(ls, d) is Some);
        if has_prefix(&chars, "|") {
            let mut end: usize = i + 1;
            while end < lines.len() && has_prefix(&chars_of(lines[end]), "|")
                invariant
                    ls == text_lines(lines@),
                    ls.len() == lines.len(),
                    i < end <= lines.len(),
                    pipe_end(ls, end as int) == pipe_end(ls, i + 1),
                decreases lines.len() - end,
            {
                end = end + 1;
            }
            assert(text_lines(lines@.subrange(i as int, end as int)) =~= ls.subrange(i as int, end as int));
            if is_table(slice_lines(&lines, i, end)) {
                let table = parse_table(&slice_lines(&lines, i, end), 0);
                assert(pipe_end(ls, i + 1) == end);
                extend_lines(&mut body, table.0);
                i = end;
                push_line(&mut body, String::new());
                i = i + 1;
                continue ;
            }
        } else if all_rule_chars(&chars) && chars.len() >= 3 {
            let up_clear = i == 0 || is_blank(&chars_of(lines[i - 1]));
            let down_clear = i == lines.len() - 1 || is_blank(&chars_of(lines[i + 1]));
            if up_clear && down_clear {
                push_line(&mut body, String::from_str("<hr>"));
                i = i + 1;
                continue ;
            }
        }
        push_line(&mut body, String::new());
        if has_prefix(&chars, "#") {
            let header = get_header(lines[i]);
            if header.1 {
                assert(text_block(ls, d) is Some);
                let h = heading_line(header.0, &header.2);
                let ghost before = body@;
                let ghost hv = h@;
                body.set(i, h);
                assert(strings_view(body@) =~= strings_view(before).update(i as int, hv));
                i = i + 1;
                continue ;
            }
        }
        let paragraph = parse_paragraph(&lines, i);
        proof {
            crate::paragraph::law_paragraph_block(ls, i as int);
        }
        extend_lines(&mut body, paragraph.0);
        i = i + paragraph.1;
    }
    push_prefixed(&mut parsed, &body, "        ");
    push_line(&mut parsed, String::from_str("    </body>"));
    push_line(&mut parsed, String::from_str("</html>"));
    parsed
}

/// Every page opens with the same head (with its title) and `<body>`, ends with `</body>` and
/// `</html>`, and indents each line of its body by eight spaces.
pub proof fn law_page_frame(lines: Seq<Seq<char>>, title: Seq<char>)
    requires
        spec_parse(lines, title) is Some,
    ensures
        ({
            let page = spec_parse(lines, title).unwrap();
            &&& page.len() >= 13
            &&& page.subrange(0, 11) == head_lines(title)
            &&& page.subrange(page.len() - 2, page.len() as int) == tail_lines_of_page()
            &&& forall|j: int|
                11 <= j < page.len() - 2 ==> starts_with(#[trigger] page[j], "        "@)
        }),
{
    let d = doc_run(lines, DocScan { i: 0, body: seq![] }).unwrap();
    let body = prefixed(d.body, "        "@);
    let page = head_lines(title) + body + tail_lines_of_page();
    assert(page.subrange(0, 11) =~= head_lines(title));
    assert(page.subrange(page.len() - 2, page.len() as int) =~= tail_lines_of_page());
    assert forall|j: int| 11 <= j < page.len() - 2 implies starts_with(
        #[trigger] page[j],
        "        "@,
    ) by {
        assert(page[j] == body[j - 11]);
        assert(body[j - 11] == "        "@ + d.body[j - 11]);
        assert(page[j].take(("        "@).len() as int) =~= "        "@);
    }
}

proof fn lemma_blank_run(lines: Seq<Seq<char>>, i: int)
    requires
        0 <= i <= lines.len(),
        forall|j: int| 0 <= j < lines.len() ==> #[trigger] all_white_space(lines[j]),
    ensures
        doc_run(lines, DocScan { i, body: seq![] }) == Some(
            DocScan { i: if i < lines.len() { lines.len() as int } else { i }, body: seq![] },
        ),
    decreases lines.len() - i,
{
    if i < lines.len() {
        assert(all_white_space(lines[i]));
        lemma_blank_run(lines, i + 1);
    }
}

/// A text of blank lines (or no lines) gives a page with an empty body.
pub proof fn law_blank_text_empty_body(lines: Seq<Seq<char>>, title: Seq<char>)
    requires
        forall|j: int| 0 <= j < lines.len() ==> #[trigger] all_white_space(lines[j]),
    ensures
        spec_parse(lines, title) == Some(head_lines(title) + tail_lines_of_page()),
{
    lemma_blank_run(lines, 0);
    assert(prefixed(seq![], "        "@) =~= seq![]);
    assert(head_lines(title) + prefixed(seq![], "        "@) + tail_lines_of_page() =~= head_lines(
        title,
    ) + tail_lines_of_page());
}

/// Every block of the page takes at least one line, and at most one line past the end of the
/// text (the line after a table is passed over), so the page only fails where a block cannot
/// be rendered.
pub proof fn law_doc_step_advances(lines: Seq<Seq<char>>, d: DocScan)
    requires
        0 <= d.i < lines.len(),
        doc_step(lines, d) is Some,
    ensures
        d.i < doc_step(lines, d).unwrap().i <= lines.len() + 1,
{
    let line = lines[d.i];
    if starts_with(line, "|"@) {
        lemma_pipe_end(lines, d.i + 1);
    }
    if !all_white_space(line) {
        assert(line.len() > 0);
        if spec_parse_paragraph(lines, d.i) is Some {
            crate::paragraph::law_paragraph_block(lines, d.i);
        }
    }
}

proof fn lemma_pipe_end(lines: Seq<Seq<char>>, j: int)
    requires
        0 <= j <= lines.len(),
    ensures
        j <= pipe_end(lines, j) <= lines.len(),
    decreases lines.len() - j,
{
    if j < lines.len() && starts_with(lines[j], "|"@) {
        lemma_pipe_end(lines, j + 1);
    }
}

proof fn lemma_blank_segment(lines: Seq<Seq<char>>, i: int, k: int, body: Seq<Seq<char>>)
    requires
        0 <= i <= k <= lines.len(),
        forall|j: int| i <= j < k ==> #[trigger] all_white_space(lines[j]),
    ensures
        doc_run(lines, DocScan { i, body }) == doc_run(lines, DocScan { i: k, body }),
    decreases k - i,
{
    if i < k {
        assert(all_white_space(lines[i]));
        lemma_blank_segment(lines, i + 1, k, body);
    }
}

/// A line of three or more `'_'`, `'-'` or `'*'`, with a blank line or the edge of the text
/// above and below it, adds exactly the body line `<hr>` and moves on by one line.
pub proof fn law_rule_line_is_hr(lines: Seq<Seq<char>>, d: DocScan)
    requires
        0 <= d.i < lines.len(),
        lines[d.i].len() >= 3,
        forall|j: int|
            0 <= j < lines[d.i].len() ==> (#[trigger] lines[d.i][j] == '_' || lines[d.i][j] == '-'
                || lines[d.i][j] == '*'),
        d.i == 0 || all_white_space(lines[d.i - 1]),
        d.i == lines.len() - 1 || all_white_space(lines[d.i + 1]),
    ensures
        doc_step(lines, d) == Some(DocScan { i: d.i + 1, body: d.body.push("<hr>"@) }),
{
    let line = lines[d.i];
    reveal_strlit("|");
    assert(!crate::chars::is_white_space(line[0]));
    assert(!starts_with(line, "|"@)) by {
        if starts_with(line, "|"@) {
            assert(line.take(1)[0] == line[0]);
        }
    }
    assert(is_hr(lines, d.i)) by {
        assert forall|j: int| 0 <= j < lines[d.i].len() implies #[trigger] is_rule_char(
            lines[d.i][j],
        ) by {
            assert(lines[d.i][j] == '_' || lines[d.i][j] == '-' || lines[d.i][j] == '*');
        }
    }
}

/// A text whose only non-blank line is a rule of three or more `'_'`, `'-'` or `'*'` gives a
/// page whose body is the single line `<hr>`, indented by eight spaces.
pub proof fn law_rule_alone_page(lines: Seq<Seq<char>>, k: int, title: Seq<char>)
    requires
        0 <= k < lines.len(),
        lines[k].len() >= 3,
        forall|j: int|
            0 <= j < lines[k].len() ==> (#[trigger] lines[k][j] == '_' || lines[k][j] == '-'
                || lines[k][j] == '*'),
        forall|j: int| 0 <= j < lines.len() && j != k ==> #[trigger] all_white_space(lines[j]),
    ensures
        spec_parse(lines, title) == Some(
            head_lines(title) + seq!["        <hr>"@] + tail_lines_of_page(),
        ),
{
    let empty: Seq<Seq<char>> = seq![];
    lemma_blank_segment(lines, 0, k, empty);
    if k > 0 {
        assert(all_white_space(lines[k - 1]));
    }
    if k < lines.len() - 1 {
        assert(all_white_space(lines[k + 1]));
    }
    law_rule_line_is_hr(lines, DocScan { i: k, body: empty });
    let hr = empty.push("<hr>"@);
    lemma_blank_segment(lines, k + 1, lines.len() as int, hr);
    assert(doc_run(lines, DocScan { i: k, body: empty }) == doc_run(
        lines,
        DocScan { i: k + 1, body: hr },
    ));
    reveal_strlit("        <hr>");
    reveal_strlit("        ");
    reveal_strlit("<hr>");
    assert(("        "@ + "<hr>"@) =~= "        <hr>"@);
    assert(prefixed(hr, "        "@)[0] == "        "@ + hr[0]);
    assert(prefixed(hr, "        "@) =~= seq!["        <hr>"@]);
}

/// A text that is one heading line, `h` (one to nine) `'#'`, a space and the heading text,
/// gives a page whose body is the line `<hN id="anchor">text</hN>`, where `N` is the digit of
/// `h` and the anchor is the normalised text.
pub proof fn law_heading_page(h: int, text: Seq<char>, title: Seq<char>)
    requires
        1 <= h <= 9,
    ensures
        ({
            let line = Seq::new(h as nat, |j: int| '#') + seq![' '] + text;
            let d = (48 + h) as char;
            spec_parse(seq![line], title) == Some(
                head_lines(title) + seq![
                    "        "@ + "<h"@ + seq![d] + " id=\""@ + spec_normalise(text) + "\">"@ + text
                        + "</h"@ + seq![d] + ">"@,
                ] + tail_lines_of_page(),
            )
        }),
{
    let line = Seq::new(h as nat, |j: int| '#') + seq![' '] + text;
    let lines = seq![line];
    reveal_strlit("|");
    reveal_strlit("#");
    assert(line[0] == '#');
    assert(!crate::chars::is_white_space(line[0]));
    assert(!all_white_space(line));
    assert(!starts_with(line, "|"@)) by {
        if starts_with(line, "|"@) {
            assert(line.take(1)[0] == line[0]);
        }
    }
    assert(!is_hr(lines, 0)) by {
        assert(lines[0][0] == '#');
        assert(!is_rule_char(lines[0][0]));
    }
    assert(starts_with(line, "#"@)) by {
        assert(line.take(1) =~= "#"@);
    }
    crate::chars::lemma_span_end(line, 0, crate::text::hashes());
    assert(crate::text::header_level(line) == h) by {
        assert forall|j: int| 0 <= j < h implies (crate::text::hashes())(#[trigger] line[j]) by {}
        assert(line[h] == ' ');
        crate::chars::lemma_span_end_exact(line, 0, h, crate::text::hashes());
    }
    assert(line.skip(h + 1) =~= text);
    reveal_with_fuel(decimal, 2);
    let hd = heading(h as u8, text);
    let d0 = DocScan { i: 0, body: seq![] };
    let d1 = DocScan { i: 1, body: seq![seq![]].update(0, hd) };
    assert(doc_step(lines, d0) == Some(d1));
    assert(doc_run(lines, d1) == Some(d1));
    assert(seq![seq![]].update(0, hd) =~= seq![hd]);
    assert(prefixed(seq![hd], "        "@) =~= seq!["        "@ + hd]);
    let dd = (48 + h) as char;
    assert(decimal(h as nat) == seq![dd]);
    assert("        "@ + hd =~= "        "@ + "<h"@ + seq![dd] + " id=\""@ + spec_normalise(text) + "\">"@
        + text + "</h"@ + seq![dd] + ">"@);
}

/// A table of a header row and a rule row becomes the table block and an empty body line, and
/// the line right after the table is passed over, whatever it holds (when it does not start
/// with `'|'`).
pub proof fn law_table_page(cells: Seq<Seq<char>>, after: Seq<char>, title: Seq<char>)
    requires
        forall|j: int| 0 <= j < cells.len() ==> crate::table::no_pipe(#[trigger] cells[j]),
        cells.len() <= i32::MAX,
        !starts_with(after, "|"@),
    ensures
        ({
            let table = seq![seq!['|'] + crate::table::cell_row(cells), crate::table::rule_row(cells.len())];
            spec_parse(table.push(after), title) == Some(
                head_lines(title) + prefixed(
                    spec_parse_table(table, 0).0.push(seq![]),
                    "        "@,
                ) + tail_lines_of_page(),
            )
        }),
{
    let header = seq!['|'] + crate::table::cell_row(cells);
    let rule = crate::table::rule_row(cells.len());
    let table = seq![header, rule];
    let lines = table.push(after);
    reveal_strlit("|");
    assert(starts_with(header, "|"@)) by {
        assert(header.take(1) =~= "|"@);
    }
    assert(starts_with(rule, "|"@)) by {
        assert(rule.take(1) =~= "|"@);
    }
    assert(!all_white_space(header)) by {
        assert(!crate::chars::is_white_space(header[0]));
    }
    assert(lines[0] == header && lines[1] == rule && lines[2] == after);
    assert(pipe_end(lines, 2) == 2);
    assert(pipe_end(lines, 1) == 2);
    assert(lines.subrange(0, 2) =~= table);
    crate::table::law_table_recognised(cells, seq![]);
    assert(table + seq![] =~= table);
    let d0 = DocScan { i: 0, body: seq![] };
    let body = (seq![] + spec_parse_table(table, 0).0).push(seq![]);
    assert(seq![] + spec_parse_table(table, 0).0 =~= spec_parse_table(table, 0).0);
    assert(doc_step(lines, d0) == Some(DocScan { i: 3, body }));
    assert(doc_run(lines, DocScan { i: 3, body }) == Some(DocScan { i: 3, body }));
}

} // verus!
