//! Ordered (`1. item`) and unordered (`- item`) lists.

use vstd::prelude::*;
use crate::chars::{
    chars_of, digit, has_prefix, is_digit, span_end, starts_with, strings_view, text_lines,
    white_space, ws,
};

verus! {

broadcast use vstd::string::group_string_axioms;

pub open spec fn digits() -> spec_fn(char) -> bool {
    |c: char| is_digit(c)
}

/// A line opens an ordered-list item: one or more digits followed by `'.'`.
pub open spec fn spec_is_ol(s: Seq<char>) -> bool {
    let d = span_end(s, 0, digits());
    0 < d < s.len() && s[d] == '.'
}

/// The text of an ordered-list item: what follows the digits, the `'.'` and the white space
/// after it; `None` where the line does not open an item.
pub open spec fn spec_strip_ol_prefix(s: Seq<char>) -> Option<Seq<char>> {
    let d = span_end(s, 0, digits());
    if 0 < d < s.len() && s[d] == '.' {
        Some(s.skip(span_end(s, d + 1, ws())))
    } else {
        None
    }
}

/// Whether `line` opens an ordered-list item.
pub fn is_ol(line: &str) -> (b: bool)
    ensures
        b == spec_is_ol(line@),
{
    let s = chars_of(line);
    let mut i: usize = 0;
    let mut found_digit = false;
    while i < s.len()
        invariant
            s@ == line@,
            i <= s.len(),
            span_end(s@, i as int, digits()) == span_end(s@, 0, digits()),
            forall|j: int| 0 <= j < i ==> #[trigger] is_digit(s@[j]),
            found_digit == (i > 0),
        decreases s.len() - i,
    {
        let c = s[i];
        if digit(c) {
            found_digit = true;
        } else if c == '.' {
            return found_digit;
        } else {
            return false;
        }
        i = i + 1;
    }
    false
}

/// The item text of an ordered-list line, or `None` where the line opens no item.
pub fn strip_ordered_list_prefix(s: &str) -> (r: Option<&str>)
    ensures
        r matches Some(t) ==> spec_strip_ol_prefix(s@) == Some(t@),
        r is None ==> spec_strip_ol_prefix(s@) is None,
{
    let v = chars_of(s);
    let mut d: usize = 0;
    while d < v.len() && digit(v[d])
        invariant
            v@ == s@,
            d <= v.len(),
            span_end(v@, d as int, digits()) == span_end(v@, 0, digits()),
        decreases v.len() - d,
    {
        d = d + 1;
    }
    if d == 0 {
        return None;
    }
    if d < v.len() && v[d] == '.' {
        let mut end: usize = d + 1;
        while end < v.len() && white_space(v[end])
            invariant
                v@ == s@,
                d + 1 <= end <= v.len(),
                span_end(v@, end as int, ws()) == span_end(v@, d + 1, ws()),
            decreases v.len() - end,
        {
            end = end + 1;
        }
        let rest = s.substring_char(end, v.len());
        assert(rest@ =~= s@.skip(end as int));
        Some(rest)
    } else {
        None
    }
}

/// Index of the first line at or after `i` that does not open an ordered-list item.
pub open spec fn ol_end(lines: Seq<Seq<char>>, i: int) -> int
    decreases lines.len() - i,
{
    if 0 <= i < lines.len() && spec_is_ol(lines[i]) {
        ol_end(lines, i + 1)
    } else {
        i
    }
}

pub open spec fn ol_item(line: Seq<char>) -> Seq<char> {
    "    <li>"@ + spec_strip_ol_prefix(line).unwrap() + "</li>"@
}

/// The `<ol>` block for the run of ordered-list lines that begins at `start`, and the
/// number of lines in that run.
pub open spec fn spec_parse_ol(lines: Seq<Seq<char>>, start: int) -> (Seq<Seq<char>>, nat) {
    let n = ol_end(lines, start) - start;
    (
        seq!["<ol>"@] + Seq::new(n as nat, |j: int| ol_item(lines[start + j])) + seq!["</ol>"@],
        n as nat,
    )
}

/// Renders the ordered list that begins at `start_line`.
pub fn parse_ol(lines: &Vec<&str>, start_line: usize) -> (r: (Vec<String>, usize))
    requires
        start_line <= lines.len(),
    ensures
        (strings_view(r.0@), r.1 as nat) == spec_parse_ol(text_lines(lines@), start_line as int),
{
    let ghost ls = text_lines(lines@);
    let mut parsed: Vec<String> = Vec::new();
    parsed.push(String::from_str("<ol>"));
    let mut ind: usize = 0;
    while start_line + ind < lines.len() && is_ol(lines[start_line + ind])
        invariant
            ls == text_lines(lines@),
            start_line + ind <= lines.len(),
            ol_end(ls, start_line + ind) == ol_end(ls, start_line as int),
            strings_view(parsed@) == seq!["<ol>"@] + Seq::new(
                ind as nat,
                |j: int| ol_item(ls[start_line + j]),
            ),
        decreases lines.len() - start_line - ind,
    {
        let line = lines[start_line + ind];
        let content = strip_ordered_list_prefix(line);
        let mut item = String::from_str("    <li>");
        match content {
            Some(t) => item.append(t),
            None => {
                assert(false);
            },
        }
        item.append("</li>");
        assert(ls[start_line + ind] == line@);
        assert(item@ == ol_item(ls[start_line + ind]));
        let ghost prev = parsed@;
        parsed.push(item);
        assert(strings_view(parsed@) =~= strings_view(prev).push(item@));
        ind = ind + 1;
        assert(strings_view(parsed@) =~= seq!["<ol>"@] + Seq::new(
            ind as nat,
            |j: int| ol_item(ls[start_line + j]),
        ));
    }
    parsed.push(String::from_str("</ol>"));
    assert(strings_view(parsed@) =~= spec_parse_ol(ls, start_line as int).0);
    (parsed, ind)
}

/// Index of the first line at or after `i` that does not start with `"- "`.
pub open spec fn ul_end(lines: Seq<Seq<char>>, i: int) -> int
    decreases lines.len() - i,
{
    if 0 <= i < lines.len() && starts_with(lines[i], "- "@) {
        ul_end(lines, i + 1)
    } else {
        i
    }
}

pub open spec fn ul_item(line: Seq<char>) -> Seq<char> {
    "    <li>"@ + line.skip(2) + "</li>"@
}

/// The `<ul>` block for the run of `"- "` lines that begins at `start`, and the number of
/// lines in that run.
pub open spec fn spec_parse_ul(lines: Seq<Seq<char>>, start: int) -> (Seq<Seq<char>>, nat) {
    let n = ul_end(lines, start) - start;
    (
        seq!["<ul>"@] + Seq::new(n as nat, |j: int| ul_item(lines[start + j])) + seq!["</ul>"@],
        n as nat,
    )
}

/// Renders the unordered list that begins at `start_line`.
pub fn parse_ul(lines: &Vec<&str>, start_line: usize) -> (r: (Vec<String>, usize))
    requires
        start_line <= lines.len(),
    ensures
        (strings_view(r.0@), r.1 as nat) == spec_parse_ul(text_lines(lines@), start_line as int),
{
    let ghost ls = text_lines(lines@);
    let mut parsed: Vec<String> = Vec::new();
    parsed.push(String::from_str("<ul>"));
    let mut ind: usize = 0;
    while start_line + ind < lines.len() && has_prefix(&chars_of(lines[start_line + ind]), "- ")
        invariant
            ls == text_lines(lines@),
            start_line + ind <= lines.len(),
            ul_end(ls, start_line + ind) == ul_end(ls, start_line as int),
            strings_view(parsed@) == seq!["<ul>"@] + Seq::new(
                ind as nat,
                |j: int| ul_item(ls[start_line + j]),
            ),
        decreases lines.len() - start_line - ind,
    {
        let line = lines[start_line + ind];
        let n = line.unicode_len();
        proof {
            reveal_strlit("- ");
        }
        let content = line.substring_char(2, n);
        let mut item = String::from_str("    <li>");
        item.append(content);
        item.append("</li>");
        assert(ls[start_line + ind] == line@);
        assert(item@ == ul_item(ls[start_line + ind]));
        let ghost prev = parsed@;
        parsed.push(item);
        assert(strings_view(parsed@) =~= strings_view(prev).push(item@));
        ind = ind + 1;
        assert(strings_view(parsed@) =~= seq!["<ul>"@] + Seq::new(
            ind as nat,
            |j: int| ul_item(ls[start_line + j]),
        ));
    }
    parsed.push(String::from_str("</ul>"));
    assert(strings_view(parsed@) =~= spec_parse_ul(ls, start_line as int).0);
    (parsed, ind)
}

/// A line opens an ordered-list item exactly when its item text can be taken; so the text of
/// every line that `parse_ol` takes into its list is there.
pub proof fn law_ol_item_iff_prefix(s: Seq<char>)
    ensures
        spec_is_ol(s) <==> spec_strip_ol_prefix(s) is Some,
{
}

/// The item text is what remains of the line after its digits, its `'.'` and the white space
/// that follows: a proper suffix of the line that does not begin with white space.
pub proof fn law_ol_item_is_suffix(s: Seq<char>)
    ensures
        spec_strip_ol_prefix(s) matches Some(t) ==> {
            &&& t.len() < s.len()
            &&& t == s.skip(s.len() - t.len())
            &&& t.len() > 0 ==> !crate::chars::is_white_space(t[0])
        },
{
    if let Some(t) = spec_strip_ol_prefix(s) {
        let d = span_end(s, 0, digits());
        crate::chars::lemma_span_end(s, 0, digits());
        crate::chars::lemma_span_end(s, d + 1, ws());
        let e = span_end(s, d + 1, ws());
        assert(t.len() == s.len() - e);
        assert(t =~= s.skip(s.len() - t.len()));
        if t.len() > 0 {
            assert(t[0] == s[e]);
        }
    }
}

/// The ordered list covers the longest run of item lines from `start`: every line it takes
/// opens an item, the line after it does not, and the block is one `<li>` line per item
/// between `<ol>` and `</ol>`.
pub proof fn law_ol_block(lines: Seq<Seq<char>>, start: int)
    requires
        0 <= start <= lines.len(),
    ensures
        ({
            let (block, n) = spec_parse_ol(lines, start);
            &&& start + n <= lines.len()
            &&& forall|j: int| start <= j < start + n ==> #[trigger] spec_is_ol(lines[j])
            &&& start + n < lines.len() ==> !spec_is_ol(lines[start + n])
            &&& block.len() == n + 2
            &&& block[0] == "<ol>"@
            &&& block[n + 1int] == "</ol>"@
            &&& forall|j: int|
                1 <= j <= n ==> #[trigger] block[j] == "    <li>"@ + spec_strip_ol_prefix(
                    lines[start + j - 1],
                ).unwrap() + "</li>"@
        }),
{
    lemma_ol_run(lines, start);
}

/// The run of ordered-list lines that begins at `i`.
pub proof fn lemma_ol_run(lines: Seq<Seq<char>>, i: int)
    requires
        0 <= i <= lines.len(),
    ensures
        i <= ol_end(lines, i) <= lines.len(),
        forall|j: int| i <= j < ol_end(lines, i) ==> #[trigger] spec_is_ol(lines[j]),
        ol_end(lines, i) < lines.len() ==> !spec_is_ol(lines[ol_end(lines, i)]),
    decreases lines.len() - i,
{
    if i < lines.len() && spec_is_ol(lines[i]) {
        lemma_ol_run(lines, i + 1);
    }
}

/// The run of `"- "` lines that begins at `i`.
pub proof fn lemma_ul_run(lines: Seq<Seq<char>>, i: int)
    requires
        0 <= i <= lines.len(),
    ensures
        i <= ul_end(lines, i) <= lines.len(),
        forall|j: int| i <= j < ul_end(lines, i) ==> #[trigger] starts_with(lines[j], "- "@),
        ul_end(lines, i) < lines.len() ==> !starts_with(lines[ul_end(lines, i)], "- "@),
    decreases lines.len() - i,
{
    if i < lines.len() && starts_with(lines[i], "- "@) {
        lemma_ul_run(lines, i + 1);
    }
}

/// The unordered list covers the longest run of `"- "` lines from `start`, and the block is
/// one `<li>` line per item, holding the line without its `"- "`, between `<ul>` and `</ul>`.
pub proof fn law_ul_block(lines: Seq<Seq<char>>, start: int)
    requires
        0 <= start <= lines.len(),
    ensures
        ({
            let (block, n) = spec_parse_ul(lines, start);
            &&& start + n <= lines.len()
            &&& forall|j: int| start <= j < start + n ==> #[trigger] starts_with(lines[j], "- "@)
            &&& start + n < lines.len() ==> !starts_with(lines[start + n], "- "@)
            &&& block.len() == n + 2
            &&& block[0] == "<ul>"@
            &&& block[n + 1int] == "</ul>"@
            &&& forall|j: int|
                1 <= j <= n ==> #[trigger] block[j] == "    <li>"@ + lines[start + j - 1].skip(2)
                    + "</li>"@
        }),
{
    lemma_ul_run(lines, start);
}

/// The item text is what follows exactly one prefix of digits, `'.'` and white space: the
/// line is one or more ASCII digits, a `'.'`, a run of white space, then the text, which does
/// not begin with white space.
pub proof fn law_ol_item_prefix_shape(s: Seq<char>)
    requires
        spec_strip_ol_prefix(s) is Some,
    ensures
        ({
            let t = spec_strip_ol_prefix(s).unwrap();
            let p = s.len() - t.len();
            &&& t == s.skip(p)
            &&& t.len() > 0 ==> !crate::chars::is_white_space(t[0])
            &&& exists|d: int|
                0 < d < p && s[d] == '.' && (forall|j: int|
                    0 <= j < d ==> '0' <= #[trigger] s[j] && s[j] <= '9') && (forall|j: int|
                    d < j < p ==> crate::chars::is_white_space(#[trigger] s[j]))
        }),
{
    let t = spec_strip_ol_prefix(s).unwrap();
    let d = span_end(s, 0, digits());
    crate::chars::lemma_span_end(s, 0, digits());
    crate::chars::lemma_span_end(s, d + 1, ws());
    let e = span_end(s, d + 1, ws());
    assert(t =~= s.skip(s.len() - t.len()));
    if t.len() > 0 {
        assert(t[0] == s[e]);
    }
    assert forall|j: int| 0 <= j < d implies '0' <= #[trigger] s[j] && s[j] <= '9' by {
        assert((digits())(s[j]));
    }
    assert forall|j: int| d < j < e implies crate::chars::is_white_space(#[trigger] s[j]) by {
        assert((ws())(s[j]));
    }
}

} // verus!
