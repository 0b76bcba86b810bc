//! Pipe tables: a header row, a `|---|` rule row, and body rows.

use vstd::prelude::*;
use crate::chars::{chars_of, ends_with, starts_with, strings_view, text_lines};

verus! {

broadcast use vstd::string::group_string_axioms;

/// Number of `'|'` in `s` from index `i` on.
pub open spec fn pipes_from(s: Seq<char>, i: int) -> int
    decreases s.len() - i,
{
    if 0 <= i < s.len() {
        (if s[i] == '|' {
            1int
        } else {
            0int
        }) + pipes_from(s, i + 1)
    } else {
        0
    }
}

/// Checks the rule row from index `i` on. `hyphens` counts the `'-'` since the last `'|'`,
/// `columns` the header cells not yet matched. Every `'|'` must close a segment of exactly
/// three `'-'`, and the row must match every header cell. `None` where a counter leaves
/// the range of `i32`.
pub open spec fn rule_run(s: Seq<char>, i: int, hyphens: i32, columns: i32) -> Option<bool>
    decreases s.len() - i,
{
    if i < 0 || i >= s.len() {
        Some(columns == 0)
    } else if s[i] == '|' {
        if hyphens != 3 {
            Some(false)
        } else if columns == i32::MIN {
            None
        } else {
            rule_run(s, i + 1, 0, (columns - 1) as i32)
        }
    } else if s[i] == '-' {
        if hyphens == i32::MAX {
            None
        } else {
            rule_run(s, i + 1, (hyphens + 1) as i32, columns)
        }
    } else {
        rule_run(s, i + 1, hyphens, columns)
    }
}

/// Whether `lines` start with a header row and a matching rule row (the first character of
/// each is not looked at). `None` where a counter leaves the range of `i32`.
pub open spec fn spec_is_table(lines: Seq<Seq<char>>) -> Option<bool> {
    if lines.len() <= 1 {
        Some(false)
    } else if pipes_from(lines[0], 1) > i32::MAX {
        None
    } else {
        rule_run(lines[1], 1, 0, pipes_from(lines[0], 1) as i32)
    }
}

fn count_pipes(s: &Vec<char>) -> (n: Option<i32>)
    ensures
        n matches Some(k) ==> k == pipes_from(s@, 1),
        n is None ==> pipes_from(s@, 1) > i32::MAX,
{
    let mut n: i32 = 0;
    let mut i: usize = 1;
    if s.len() == 0 {
        return Some(0);
    }
    while i < s.len()
        invariant
            1 <= i <= s.len(),
            0 <= n,
            n + pipes_from(s@, i as int) == pipes_from(s@, 1),
        decreases s.len() - i,
    {
        if s[i] == '|' {
            if n == i32::MAX {
                proof {
                    lemma_pipes_nonneg(s@, i + 1);
                }
                return None;
            }
            n = n + 1;
        }
        i = i + 1;
    }
    Some(n)
}

proof fn lemma_pipes_nonneg(s: Seq<char>, i: int)
    ensures
        pipes_from(s, i) >= 0,
    decreases s.len() - i,
{
    if 0 <= i < s.len() {
        lemma_pipes_nonneg(s, i + 1);
    }
}

/// Whether the lines form a table: a header row, then a rule row of `|---|` cells, one
/// for each header cell.
pub fn is_table(lines: Vec<&str>) -> (b: bool)
    requires
        spec_is_table(text_lines(lines@)) is Some,
    ensures
        b == spec_is_table(text_lines(lines@)).unwrap(),
{
    let ghost ls = text_lines(lines@);
    if lines.len() <= 1 {
        return false;
    }
    let head = chars_of(lines[0]);
    assert(ls[0] == head@);
    let mut header_count: i32 = match count_pipes(&head) {
        Some(n) => n,
        None => {
            assert(ls.len() == lines.len());
            assert(spec_is_table(ls) is None);
            return false;
        },
    };
    let rule = chars_of(lines[1]);
    assert(ls[1] == rule@);
    let mut hyphen_count: i32 = 0;
    if rule.len() == 0 {
        return header_count == 0;
    }
    let mut i: usize = 1;
    while i < rule.len()
        invariant
            1 <= i <= rule.len(),
            ls == text_lines(lines@),
            rule_run(rule@, i as int, hyphen_count, header_count) == spec_is_table(ls),
            spec_is_table(ls) is Some,
        decreases rule.len() - i,
    {
        let c = rule[i];
        if c == '-' {
            hyphen_count = hyphen_count + 1;
        }
        if c == '|' {
            if hyphen_count != 3 {
                return false;
            }
            header_count = header_count - 1;
            hyphen_count = 0;
        }
        i = i + 1;
    }
    header_count == 0
}

/// Runs through `s` from index `i`: each `'|'` closes the cell accumulated so far, which is
/// emitted between `open` and `close`; the text after the last `'|'` is carried on.
pub open spec fn cells_run(
    s: Seq<char>,
    i: int,
    out: Seq<Seq<char>>,
    acc: Seq<char>,
    open: Seq<char>,
    close: Seq<char>,
) -> (Seq<Seq<char>>, Seq<char>)
    decreases s.len() - i,
{
    if i < 0 || i >= s.len() {
        (out, acc)
    } else if s[i] == '|' {
        cells_run(s, i + 1, out.push(open + acc + close), seq![], open, close)
    } else {
        cells_run(s, i + 1, out, acc.push(s[i]), open, close)
    }
}

/// A line holds the row rule `"|---|"`.
pub open spec fn has_rule_marker(s: Seq<char>) -> bool {
    exists|k: int| 0 <= k && k + 5 <= s.len() && #[trigger] s.subrange(k, k + 5) == "|---|"@
}

/// The body rows from line `ind` on, up to an empty line or the end. Lines that hold
/// `"|---|"` are passed over; the text after the last `'|'` of a row is carried into the
/// first cell of the next.
pub open spec fn rows_run(tp: Seq<Seq<char>>, ind: int, out: Seq<Seq<char>>, acc: Seq<char>) -> (
    Seq<Seq<char>>,
    int,
)
    decreases tp.len() - ind,
{
    if ind < 0 || ind >= tp.len() || tp[ind].len() == 0 {
        (out, ind)
    } else if has_rule_marker(tp[ind]) {
        rows_run(tp, ind + 1, out, acc)
    } else {
        let (cells, rest) = cells_run(
            tp[ind],
            1,
            out.push("        <tr>"@),
            acc,
            "            <td>"@,
            "</td>"@,
        );
        rows_run(tp, ind + 1, cells.push("        </tr>"@), rest)
    }
}

/// The HTML table for the table whose header row is line `start`, and the index, counted
/// from `start`, of the line that ends it.
pub open spec fn spec_parse_table(lines: Seq<Seq<char>>, start: int) -> (Seq<Seq<char>>, int) {
    let tp = lines.skip(start);
    let head = cells_run(
        tp[0],
        1,
        seq!["<table>"@, "    <thead>"@, "        <tr>"@],
        seq![],
        "            <th>"@,
        "</th>"@,
    ).0 + seq!["        </tr>"@, "    </thead>"@, "    <tbody>"@];
    let (body, ind) = rows_run(tp, 2, head, seq![]);
    (body + seq!["    </tbody>"@, "</table>"@], ind)
}

/// Appends the cells of `s` (from its second character on) to `out`.
fn push_cells(out: &mut Vec<String>, s: &Vec<char>, acc: &mut String, open: &str, close: &str)
    ensures
        (strings_view(final(out)@), final(acc)@) == cells_run(
            s@,
            1,
            strings_view(old(out)@),
            old(acc)@,
            open@,
            close@,
        ),
{
    if s.len() == 0 {
        return ;
    }
    let mut i: usize = 1;
    while i < s.len()
        invariant
            1 <= i <= s.len(),
            cells_run(s@, i as int, strings_view(out@), acc@, open@, close@) == cells_run(
                s@,
                1,
                strings_view(old(out)@),
                old(acc)@,
                open@,
                close@,
            ),
        decreases s.len() - i,
    {
        let c = s[i];
        if c == '|' {
            let mut cell = String::from_str(open);
            cell.append(acc.as_str());
            cell.append(close);
            let ghost prev = out@;
            let ghost cv = cell@;
            out.push(cell);
            assert(strings_view(out@) =~= strings_view(prev).push(cv));
            *acc = String::new();
            assert(acc@ =~= seq![]);
        } else {
            acc.push(c);
        }
        i = i + 1;
    }
}

/// Whether `s` holds the row rule `"|---|"`.
pub fn contains_rule(s: &Vec<char>) -> (b: bool)
    ensures
        b == has_rule_marker(s@),
{
    let mut k: usize = 0;
    while k < s.len() && s.len() - k >= 5
        invariant
            k <= s.len(),
            forall|j: int|
                0 <= j < k && j + 5 <= s@.len() ==> #[trigger] s@.subrange(j, j + 5) != "|---|"@,
        decreases s.len() - k,
    {
        proof {
            reveal_strlit("|---|");
        }
        if s[k] == '|' && s[k + 1] == '-' && s[k + 2] == '-' && s[k + 3] == '-' && s[k + 4] == '|' {
            assert(s@.subrange(k as int, k + 5) =~= "|---|"@);
            return true;
        }
        assert(s@.subrange(k as int, k + 5) != "|---|"@) by {
            if s@.subrange(k as int, k + 5) == "|---|"@ {
                assert(s@.subrange(k as int, k + 5)[0] == s@[k as int]);
                assert(s@.subrange(k as int, k + 5)[1] == s@[k + 1]);
                assert(s@.subrange(k as int, k + 5)[2] == s@[k + 2]);
                assert(s@.subrange(k as int, k + 5)[3] == s@[k + 3]);
                assert(s@.subrange(k as int, k + 5)[4] == s@[k + 4]);
            }
        }
        k = k + 1;
    }
    false
}

/// Renders the table whose header row is line `start_line`.
pub fn parse_table(lines: &Vec<&str>, start_line: usize) -> (r: (Vec<String>, usize))
    requires
        start_line < lines.len(),
    ensures
        (strings_view(r.0@), r.1 as int) == spec_parse_table(text_lines(lines@), start_line as int),
{
    let ghost tp = text_lines(lines@).skip(start_line as int);
    let mut parsed: Vec<String> = Vec::new();
    parsed.push(String::from_str("<table>"));
    parsed.push(String::from_str("    <thead>"));
    parsed.push(String::from_str("        <tr>"));
    let first = chars_of(lines[start_line]);
    assert(tp[0] == first@);
    let mut head = String::new();
    assert(strings_view(parsed@) =~= seq!["<table>"@, "    <thead>"@, "        <tr>"@]);
    push_cells(&mut parsed, &first, &mut head, "            <th>", "</th>");
    parsed.push(String::from_str("        </tr>"));
    parsed.push(String::from_str("    </thead>"));
    parsed.push(String::from_str("    <tbody>"));
    let ghost table_head = strings_view(parsed@);
    assert(table_head =~= cells_run(
        tp[0],
        1,
        seq!["<table>"@, "    <thead>"@, "        <tr>"@],
        seq![],
        "            <th>"@,
        "</th>"@,
    ).0 + seq!["        </tr>"@, "    </thead>"@, "    <tbody>"@]);
    head = String::new();
    let n: usize = lines.len() - start_line;
    let mut ind: usize = 2;
    while ind < n && !lines[start_line + ind].is_empty()
        invariant
            n == lines.len() - start_line,
            tp == text_lines(lines@).skip(start_line as int),
            tp.len() == n,
            2 <= ind,
            ind <= n || ind == 2,
            rows_run(tp, ind as int, strings_view(parsed@), head@) == rows_run(
                tp,
                2,
                table_head,
                seq![],
            ),
        decreases n - ind,
    {
        let row = chars_of(lines[start_line + ind]);
        assert(tp[ind as int] == row@);
        if contains_rule(&row) {
            ind = ind + 1;
            continue ;
        }
        let ghost prev = strings_view(parsed@);
        parsed.push(String::from_str("        <tr>"));
        assert(strings_view(parsed@) =~= prev.push("        <tr>"@));
        push_cells(&mut parsed, &row, &mut head, "            <td>", "</td>");
        let ghost mid = strings_view(parsed@);
        parsed.push(String::from_str("        </tr>"));
        assert(strings_view(parsed@) =~= mid.push("        </tr>"@));
        ind = ind + 1;
    }
    let ghost body = strings_view(parsed@);
    parsed.push(String::from_str("    </tbody>"));
    parsed.push(String::from_str("</table>"));
    assert(strings_view(parsed@) =~= body + seq!["    </tbody>"@, "</table>"@]);
    (parsed, ind)
}

proof fn lemma_rule_run_columns(s: Seq<char>, i: int, hyphens: i32, columns: i32)
    requires
        0 <= i,
        rule_run(s, i, hyphens, columns) == Some(true),
    ensures
        pipes_from(s, i) == columns,
    decreases s.len() - i,
{
    if i < s.len() {
        if s[i] == '|' {
            lemma_rule_run_columns(s, i + 1, 0, (columns - 1) as i32);
        } else if s[i] == '-' {
            lemma_rule_run_columns(s, i + 1, (hyphens + 1) as i32, columns);
        } else {
            lemma_rule_run_columns(s, i + 1, hyphens, columns);
        }
    }
}

/// A table has a header row and a rule row, and the rule row has as many `'|'` as the
/// header row (past their first characters).
pub proof fn law_table_columns(lines: Seq<Seq<char>>)
    requires
        spec_is_table(lines) == Some(true),
    ensures
        lines.len() >= 2,
        pipes_from(lines[1], 1) == pipes_from(lines[0], 1),
{
    lemma_pipes_nonneg(lines[0], 1);
    lemma_rule_run_columns(lines[1], 1, 0, pipes_from(lines[0], 1) as i32);
}

proof fn lemma_cells_run(
    s: Seq<char>,
    i: int,
    out: Seq<Seq<char>>,
    acc: Seq<char>,
    open: Seq<char>,
    close: Seq<char>,
)
    requires
        0 <= i,
    ensures
        ({
            let r = cells_run(s, i, out, acc, open, close).0;
            &&& r.len() == out.len() + pipes_from(s, i)
            &&& pipes_from(s, i) >= 0
            &&& forall|j: int| 0 <= j < out.len() ==> #[trigger] r[j] == out[j]
            &&& forall|j: int|
                out.len() <= j < r.len() ==> starts_with(#[trigger] r[j], open) && ends_with(
                    r[j],
                    close,
                )
        }),
    decreases s.len() - i,
{
    lemma_pipes_nonneg(s, i);
    if i < s.len() {
        if s[i] == '|' {
            let cell = open + acc + close;
            lemma_cells_run(s, i + 1, out.push(cell), seq![], open, close);
            let r = cells_run(s, i, out, acc, open, close).0;
            assert(r[out.len() as int] == out.push(cell)[out.len() as int]);
            assert(cell.take(open.len() as int) =~= open);
            assert(cell.skip(cell.len() - close.len()) =~= close);
            assert forall|j: int| 0 <= j < out.len() implies #[trigger] r[j] == out[j] by {
                assert(r[j] == out.push(cell)[j]);
            }
        } else {
            lemma_cells_run(s, i + 1, out, acc.push(s[i]), open, close);
        }
    }
}

proof fn lemma_rows_run(tp: Seq<Seq<char>>, ind: int, out: Seq<Seq<char>>, acc: Seq<char>)
    requires
        0 <= ind,
    ensures
        ({
            let (r, n) = rows_run(tp, ind, out, acc);
            &&& r.len() >= out.len()
            &&& forall|j: int| 0 <= j < out.len() ==> #[trigger] r[j] == out[j]
            &&& ind <= n
            &&& n <= ind || n <= tp.len()
        }),
    decreases tp.len() - ind,
{
    if ind < tp.len() && tp[ind].len() != 0 {
        if has_rule_marker(tp[ind]) {
            lemma_rows_run(tp, ind + 1, out, acc);
        } else {
            let o1 = out.push("        <tr>"@);
            lemma_cells_run(tp[ind], 1, o1, acc, "            <td>"@, "</td>"@);
            let (cells, rest) = cells_run(tp[ind], 1, o1, acc, "            <td>"@, "</td>"@);
            let o2 = cells.push("        </tr>"@);
            lemma_rows_run(tp, ind + 1, o2, rest);
            let r = rows_run(tp, ind, out, acc).0;
            assert forall|j: int| 0 <= j < out.len() implies #[trigger] r[j] == out[j] by {
                assert(r[j] == o2[j]);
                assert(o2[j] == cells[j]);
                assert(cells[j] == o1[j]);
            }
        }
    }
}

/// The table block opens with `<table>`, `<thead>` and `<tr>`, has one `<th>` line per `'|'`
/// of the header row past its first character, closes the head, and ends with `</tbody>` and
/// `</table>`; the body starts at the third line.
pub proof fn law_table_block(lines: Seq<Seq<char>>, start: int)
    requires
        0 <= start < lines.len(),
    ensures
        ({
            let (block, n) = spec_parse_table(lines, start);
            let k = pipes_from(lines[start], 1);
            &&& block.len() >= k + 8
            &&& block[0] == "<table>"@
            &&& block[1] == "    <thead>"@
            &&& block[2] == "        <tr>"@
            &&& forall|j: int|
                3 <= j < 3 + k ==> starts_with(#[trigger] block[j], "            <th>"@)
                    && ends_with(block[j], "</th>"@)
            &&& block[3 + k] == "        </tr>"@
            &&& block[4 + k] == "    </thead>"@
            &&& block[5 + k] == "    <tbody>"@
            &&& block[block.len() - 2] == "    </tbody>"@
            &&& block[block.len() - 1] == "</table>"@
            &&& 2 <= n
            &&& n <= 2 || start + n <= lines.len()
        }),
{
    let tp = lines.skip(start);
    let o = seq!["<table>"@, "    <thead>"@, "        <tr>"@];
    assert(tp[0] == lines[start]);
    lemma_cells_run(tp[0], 1, o, seq![], "            <th>"@, "</th>"@);
    let th = cells_run(tp[0], 1, o, seq![], "            <th>"@, "</th>"@).0;
    let head = th + seq!["        </tr>"@, "    </thead>"@, "    <tbody>"@];
    lemma_rows_run(tp, 2, head, seq![]);
    let (body, n) = rows_run(tp, 2, head, seq![]);
    let block = body + seq!["    </tbody>"@, "</table>"@];
    let k = pipes_from(lines[start], 1);
    assert forall|j: int| 0 <= j < head.len() implies #[trigger] block[j] == head[j] by {
        assert(block[j] == body[j]);
    }
    assert(block[0] == head[0] && head[0] == th[0]);
    assert(block[1] == head[1] && head[1] == th[1]);
    assert(block[2] == head[2] && head[2] == th[2]);
    assert forall|j: int| 3 <= j < 3 + k implies starts_with(#[trigger] block[j], "            <th>"@)
        && ends_with(block[j], "</th>"@) by {
        assert(block[j] == head[j]);
        assert(head[j] == th[j]);
    }
    assert(block[3 + k] == head[3 + k]);
    assert(block[4 + k] == head[4 + k]);
    assert(block[5 + k] == head[5 + k]);
}

/// The cells written one after the other, each followed by `'|'`.
pub open spec fn cell_row(cells: Seq<Seq<char>>) -> Seq<char>
    decreases cells.len(),
{
    if cells.len() == 0 {
        seq![]
    } else {
        cells[0] + seq!['|'] + cell_row(cells.drop_first())
    }
}

pub open spec fn no_pipe(s: Seq<char>) -> bool {
    forall|k: int| 0 <= k < s.len() ==> #[trigger] s[k] != '|'
}

proof fn lemma_cell_segment(
    s: Seq<char>,
    i: int,
    j: int,
    out: Seq<Seq<char>>,
    acc: Seq<char>,
    open: Seq<char>,
    close: Seq<char>,
)
    requires
        0 <= i <= j < s.len(),
        forall|k: int| i <= k < j ==> #[trigger] s[k] != '|',
        s[j] == '|',
    ensures
        cells_run(s, i, out, acc, open, close) == cells_run(
            s,
            j + 1,
            out.push(open + (acc + s.subrange(i, j)) + close),
            seq![],
            open,
            close,
        ),
    decreases j - i,
{
    if i < j {
        assert(s[i] != '|');
        lemma_cell_segment(s, i + 1, j, out, acc.push(s[i]), open, close);
        assert(acc.push(s[i]) + s.subrange(i + 1, j) =~= acc + s.subrange(i, j));
    } else {
        assert(acc + s.subrange(i, j) =~= acc);
    }
}

proof fn lemma_cell_tail(
    s: Seq<char>,
    i: int,
    out: Seq<Seq<char>>,
    acc: Seq<char>,
    open: Seq<char>,
    close: Seq<char>,
)
    requires
        0 <= i <= s.len(),
        forall|k: int| i <= k < s.len() ==> #[trigger] s[k] != '|',
    ensures
        cells_run(s, i, out, acc, open, close) == (out, acc + s.skip(i)),
    decreases s.len() - i,
{
    if i < s.len() {
        assert(s[i] != '|');
        lemma_cell_tail(s, i + 1, out, acc.push(s[i]), open, close);
        assert(acc.push(s[i]) + s.skip(i + 1) =~= acc + s.skip(i));
    } else {
        assert(acc + s.skip(i) =~= acc);
    }
}

proof fn lemma_cells_of_row(
    prefix: Seq<char>,
    cells: Seq<Seq<char>>,
    tail: Seq<char>,
    out: Seq<Seq<char>>,
    open: Seq<char>,
    close: Seq<char>,
)
    requires
        forall|j: int| 0 <= j < cells.len() ==> no_pipe(#[trigger] cells[j]),
        no_pipe(tail),
    ensures
        cells_run(prefix + cell_row(cells) + tail, prefix.len() as int, out, seq![], open, close) == (
            out + cells.map_values(|x: Seq<char>| open + x + close),
            tail,
        ),
    decreases cells.len(),
{
    let s = prefix + cell_row(cells) + tail;
    let p = prefix.len() as int;
    if cells.len() == 0 {
        assert(s =~= prefix + tail);
        lemma_cell_tail(s, p, out, seq![], open, close);
        assert(seq![] + s.skip(p) =~= tail);
        assert(out + cells.map_values(|x: Seq<char>| open + x + close) =~= out);
    } else {
        let c0 = cells[0];
        let rest = cells.drop_first();
        assert(no_pipe(c0));
        let j = p + c0.len();
        assert(s[j] == '|');
        assert forall|k: int| p <= k < j implies #[trigger] s[k] != '|' by {
            assert(s[k] == c0[k - p]);
        }
        lemma_cell_segment(s, p, j, out, seq![], open, close);
        assert(s.subrange(p, j) =~= c0);
        let cell = open + (seq![] + c0) + close;
        assert(seq![] + c0 =~= c0);
        let prefix2 = prefix + c0 + seq!['|'];
        assert(s =~= prefix2 + cell_row(rest) + tail);
        assert forall|k: int| 0 <= k < rest.len() implies no_pipe(#[trigger] rest[k]) by {
            assert(rest[k] == cells[k + 1]);
        }
        lemma_cells_of_row(prefix2, rest, tail, out.push(cell), open, close);
        assert(out.push(cell) + rest.map_values(|x: Seq<char>| open + x + close) =~= out
            + cells.map_values(|x: Seq<char>| open + x + close));
    }
}

/// In a header row `'|'` followed by cells that each end with `'|'`, every header cell line
/// is `<th>`, exactly the characters of the cell (all of them, in order), and `</th>`.
pub proof fn law_table_header_cells(
    lines: Seq<Seq<char>>,
    start: int,
    cells: Seq<Seq<char>>,
    tail: Seq<char>,
)
    requires
        0 <= start < lines.len(),
        lines[start] == seq!['|'] + cell_row(cells) + tail,
        forall|j: int| 0 <= j < cells.len() ==> no_pipe(#[trigger] cells[j]),
        no_pipe(tail),
    ensures
        forall|j: int|
            0 <= j < cells.len() ==> #[trigger] spec_parse_table(lines, start).0[3 + j]
                == "            <th>"@ + cells[j] + "</th>"@,
{
    let tp = lines.skip(start);
    assert(tp[0] == lines[start]);
    let o = seq!["<table>"@, "    <thead>"@, "        <tr>"@];
    lemma_cells_of_row(seq!['|'], cells, tail, o, "            <th>"@, "</th>"@);
    let th = cells_run(tp[0], 1, o, seq![], "            <th>"@, "</th>"@).0;
    let head = th + seq!["        </tr>"@, "    </thead>"@, "    <tbody>"@];
    lemma_rows_run(tp, 2, head, seq![]);
    let body = rows_run(tp, 2, head, seq![]).0;
    let block = body + seq!["    </tbody>"@, "</table>"@];
    assert forall|j: int| 0 <= j < cells.len() implies #[trigger] spec_parse_table(lines, start).0[3
        + j] == "            <th>"@ + cells[j] + "</th>"@ by {
        assert(block[3 + j] == body[3 + j]);
        assert(body[3 + j] == head[3 + j]);
        assert(head[3 + j] == th[3 + j]);
    }
}

/// In the first body row of a table (the line after the rule row), when it is `'|'` followed
/// by cells that each end with `'|'` and it holds no `"|---|"`, every body cell line is `<td>`,
/// exactly the characters of the cell, and `</td>`; these lines follow the head and `<tr>`.
pub proof fn law_table_body_cells(
    lines: Seq<Seq<char>>,
    start: int,
    cells: Seq<Seq<char>>,
    tail: Seq<char>,
)
    requires
        0 <= start,
        start + 2 < lines.len(),
        lines[start + 2] == seq!['|'] + cell_row(cells) + tail,
        !has_rule_marker(lines[start + 2]),
        forall|j: int| 0 <= j < cells.len() ==> no_pipe(#[trigger] cells[j]),
        no_pipe(tail),
    ensures
        forall|j: int|
            0 <= j < cells.len() ==> #[trigger] spec_parse_table(lines, start).0[7 + pipes_from(
                lines[start],
                1,
            ) + j] == "            <td>"@ + cells[j] + "</td>"@,
{
    let tp = lines.skip(start);
    assert(tp[0] == lines[start]);
    assert(tp[2] == lines[start + 2]);
    let o = seq!["<table>"@, "    <thead>"@, "        <tr>"@];
    lemma_cells_run(tp[0], 1, o, seq![], "            <th>"@, "</th>"@);
    let th = cells_run(tp[0], 1, o, seq![], "            <th>"@, "</th>"@).0;
    let head = th + seq!["        </tr>"@, "    </thead>"@, "    <tbody>"@];
    let k = pipes_from(lines[start], 1);
    assert(head.len() == 6 + k);
    let o1 = head.push("        <tr>"@);
    lemma_cells_of_row(seq!['|'], cells, tail, o1, "            <td>"@, "</td>"@);
    let (row, rest) = cells_run(tp[2], 1, o1, seq![], "            <td>"@, "</td>"@);
    assert(tp[2].len() > 0);
    assert(rows_run(tp, 2, head, seq![]) == rows_run(tp, 3, row.push("        </tr>"@), rest));
    lemma_rows_run(tp, 3, row.push("        </tr>"@), rest);
    let body = rows_run(tp, 2, head, seq![]).0;
    let block = body + seq!["    </tbody>"@, "</table>"@];
    assert forall|j: int| 0 <= j < cells.len() implies #[trigger] spec_parse_table(lines, start).0[7
        + pipes_from(lines[start], 1) + j] == "            <td>"@ + cells[j] + "</td>"@ by {
        let idx = 7 + k + j;
        assert(block[idx] == body[idx]);
        assert(body[idx] == row.push("        </tr>"@)[idx]);
        assert(idx == o1.len() + j);
    }
}

proof fn lemma_pipes_of_row(prefix: Seq<char>, cells: Seq<Seq<char>>)
    requires
        forall|j: int| 0 <= j < cells.len() ==> no_pipe(#[trigger] cells[j]),
    ensures
        pipes_from(prefix + cell_row(cells), prefix.len() as int) == cells.len(),
    decreases cells.len(),
{
    let s = prefix + cell_row(cells);
    let p = prefix.len() as int;
    if cells.len() == 0 {
        assert(s =~= prefix);
    } else {
        let c0 = cells[0];
        let rest = cells.drop_first();
        assert(no_pipe(c0));
        assert forall|k: int| 0 <= k < rest.len() implies no_pipe(#[trigger] rest[k]) by {
            assert(rest[k] == cells[k + 1]);
        }
        let prefix2 = prefix + c0 + seq!['|'];
        assert(s =~= prefix2 + cell_row(rest));
        lemma_pipes_of_row(prefix2, rest);
        lemma_pipes_skip(s, p, p + c0.len());
    }
}

proof fn lemma_pipes_skip(s: Seq<char>, i: int, j: int)
    requires
        0 <= i <= j < s.len(),
        forall|k: int| i <= k < j ==> #[trigger] s[k] != '|',
        s[j] == '|',
    ensures
        pipes_from(s, i) == 1 + pipes_from(s, j + 1),
    decreases j - i,
{
    if i < j {
        assert(s[i] != '|');
        lemma_pipes_skip(s, i + 1, j);
    }
}

/// The rule row of `k` cells, each `"---"`.
pub open spec fn rule_row(k: nat) -> Seq<char> {
    seq!['|'] + cell_row(Seq::new(k, |j: int| seq!['-', '-', '-']))
}

proof fn lemma_rule_row_run(prefix: Seq<char>, k: nat, cols: i32)
    requires
        cols == k,
    ensures
        rule_run(
            prefix + cell_row(Seq::new(k, |j: int| seq!['-', '-', '-'])),
            prefix.len() as int,
            0,
            cols,
        ) == Some(true),
    decreases k,
{
    let dashes = Seq::new(k, |j: int| seq!['-', '-', '-']);
    let s = prefix + cell_row(dashes);
    let p = prefix.len() as int;
    if k == 0 {
        assert(s =~= prefix);
    } else {
        let rest = Seq::new((k - 1) as nat, |j: int| seq!['-', '-', '-']);
        assert(dashes.drop_first() =~= rest);
        let prefix2 = prefix + seq!['-', '-', '-', '|'];
        assert(s =~= prefix2 + cell_row(rest));
        assert(s[p] == '-' && s[p + 1] == '-' && s[p + 2] == '-' && s[p + 3] == '|');
        lemma_rule_row_run(prefix2, (k - 1) as nat, (cols - 1) as i32);
        assert(rule_run(s, p, 0, cols) == rule_run(s, p + 1, 1, cols));
        assert(rule_run(s, p + 1, 1, cols) == rule_run(s, p + 2, 2, cols));
        assert(rule_run(s, p + 2, 2, cols) == rule_run(s, p + 3, 3, cols));
        assert(rule_run(s, p + 3, 3, cols) == rule_run(s, p + 4, 0, (cols - 1) as i32));
    }
}

/// A header row `'|'` followed by `k` cells that each end with `'|'`, over a rule row of `k`
/// cells `"---"`, is a table, whatever else follows.
pub proof fn law_table_recognised(cells: Seq<Seq<char>>, more: Seq<Seq<char>>)
    requires
        forall|j: int| 0 <= j < cells.len() ==> no_pipe(#[trigger] cells[j]),
        cells.len() <= i32::MAX,
    ensures
        spec_is_table(seq![seq!['|'] + cell_row(cells), rule_row(cells.len())] + more) == Some(
            true,
        ),
{
    let lines = seq![seq!['|'] + cell_row(cells), rule_row(cells.len())] + more;
    assert(lines[0] == seq!['|'] + cell_row(cells));
    assert(lines[1] == rule_row(cells.len()));
    lemma_pipes_of_row(seq!['|'], cells);
    lemma_rule_row_run(seq!['|'], cells.len(), cells.len() as i32);
}

} // verus!
