//! Paragraphs: inline emphasis, links and images, line breaks, block quotes, code fences and
//! the lists nested in a paragraph.

use vstd::prelude::*;
use vstd::utf8::encode_utf8;
use crate::chars::{
    chars_of, ends_with, equals, has_prefix, has_suffix, leading_white_space, prefixed, push_line,
    push_prefixed, span_end, span_start, starts_with, string_of, strings_view, tail_lines,
    text_lines, trailing_white_space, trim_end, trim_start,
};
use crate::link::{parse_link, spec_parse_link};
use crate::lists::{is_ol, parse_ol, parse_ul, spec_is_ol, spec_parse_ol, spec_parse_ul};

verus! {

broadcast use vstd::string::group_string_axioms;

/// The inline state that runs on from character to character and from line to line.
#[derive(Clone, Copy)]
pub struct Inline {
    pub italic: bool,
    pub bold: bool,
    pub escape: bool,
    pub image: bool,
    /// Characters still to pass over after a link.
    pub skip: usize,
    /// Length of the run of `'_'` not yet acted on.
    pub underscores: i32,
    /// Length of the run of `'*'` not yet acted on.
    pub asterisks: i32,
}

pub open spec fn inline_start() -> Inline {
    Inline {
        italic: false,
        bold: false,
        escape: false,
        image: false,
        skip: 0,
        underscores: 0,
        asterisks: 0,
    }
}

pub open spec fn em_tag(open: bool) -> Seq<char> {
    if open {
        "<em>"@
    } else {
        "</em>"@
    }
}

pub open spec fn strong_tag(open: bool) -> Seq<char> {
    if open {
        "<strong>"@
    } else {
        "</strong>"@
    }
}

/// What a run of `'_'` does once it ends: one toggles italics, two bold, three both
/// (bold tag first); longer runs do nothing.
pub open spec fn underscore_run(st: Inline, out: Seq<char>) -> (Inline, Seq<char>) {
    if st.underscores == 1 {
        (Inline { italic: !st.italic, ..st }, out + em_tag(!st.italic))
    } else if st.underscores == 2 {
        (Inline { bold: !st.bold, ..st }, out + strong_tag(!st.bold))
    } else if st.underscores == 3 {
        (
            Inline { bold: !st.bold, italic: !st.italic, ..st },
            out + strong_tag(!st.bold) + em_tag(!st.italic),
        )
    } else {
        (st, out)
    }
}

/// What a run of `'*'` does once it ends: one toggles italics, two bold, three both
/// (italic tag first); longer runs do nothing.
pub open spec fn asterisk_run(st: Inline, out: Seq<char>) -> (Inline, Seq<char>) {
    if st.asterisks == 1 {
        (Inline { italic: !st.italic, ..st }, out + em_tag(!st.italic))
    } else if st.asterisks == 2 {
        (Inline { bold: !st.bold, ..st }, out + strong_tag(!st.bold))
    } else if st.asterisks == 3 {
        (
            Inline { bold: !st.bold, italic: !st.italic, ..st },
            out + em_tag(!st.italic) + strong_tag(!st.bold),
        )
    } else {
        (st, out)
    }
}

/// Number of bytes of the UTF-8 encoding of `s`, as `str::len` reports it.
pub open spec fn byte_len(s: Seq<char>) -> usize {
    encode_utf8(s).len() as usize
}

pub open spec fn link_html(image: bool, text: Seq<char>, target: Seq<char>) -> Seq<char> {
    if image {
        "<img src=\""@ + target + "\">"@
    } else {
        "<a href=\""@ + target + "\">"@ + text + "</a>"@
    }
}

/// One character `c` of `line` acts on the state and the output. `None` where the
/// link scan of the line fails, or a counter overflows.
pub open spec fn char_step(line: Seq<char>, c: char, st: Inline, out: Seq<char>) -> Option<
    (Inline, Seq<char>),
> {
    if st.skip > 0 {
        Some((Inline { skip: (st.skip - 1) as usize, ..st }, out))
    } else if c == '\\' && !st.escape {
        Some((Inline { escape: true, ..st }, out))
    } else if c == '_' && !st.escape {
        if st.underscores == i32::MAX {
            None
        } else {
            Some((Inline { underscores: (st.underscores + 1) as i32, ..st }, out))
        }
    } else if st.underscores != 0 && !st.escape {
        let (st1, out1) = underscore_run(st, out);
        Some((Inline { underscores: 0, ..st1 }, out1.push(c)))
    } else if c == '*' && !st.escape {
        if st.asterisks == i32::MAX {
            None
        } else {
            Some((Inline { asterisks: (st.asterisks + 1) as i32, ..st }, out))
        }
    } else if st.asterisks != 0 && !st.escape {
        let (st1, out1) = asterisk_run(st, out);
        Some((Inline { asterisks: 0, ..st1 }, out1.push(c)))
    } else if c == '!' && !st.escape {
        Some((Inline { image: true, ..st }, out))
    } else if c == '[' && !st.escape {
        match spec_parse_link(line) {
            None => None,
            Some((text, target, is_link)) => {
                if is_link {
                    let skip = 4 + byte_len(text) + byte_len(target);
                    if skip > usize::MAX {
                        None
                    } else {
                        Some(
                            (Inline { skip: skip as usize, ..st }, out + link_html(st.image, text, target)),
                        )
                    }
                } else {
                    Some((Inline { image: false, escape: false, ..st }, out.push('!').push(c)))
                }
            },
        }
    } else {
        Some((Inline { image: false, escape: false, ..st }, out.push(c)))
    }
}

/// The characters of `line` from index `i` on, acting in turn.
pub open spec fn line_run(line: Seq<char>, i: int, st: Inline, out: Seq<char>) -> Option<
    (Inline, Seq<char>),
>
    decreases line.len() - i,
{
    if i < 0 || i >= line.len() {
        Some((st, out))
    } else {
        match char_step(line, line[i], st, out) {
            None => None,
            Some((st1, out1)) => line_run(line, i + 1, st1, out1),
        }
    }
}

/// The end of a rendered line: two trailing spaces turn into `<br>`, a line that opens with
/// `"> "` (after white space) becomes a block quote of its raw text, and open emphasis is
/// closed.
pub open spec fn finish_line(line: Seq<char>, indent: Seq<char>, st: Inline, out: Seq<char>) -> Seq<
    char,
> {
    let o1 = if ends_with(line, "  "@) {
        trim_end(out) + "<br>"@
    } else {
        out
    };
    let o2 = if starts_with(trim_start(line), "> "@) {
        indent + "<blockquote>"@ + trim_start(line).skip(2) + "</blockquote>"@
    } else {
        o1
    };
    let o3 = if st.italic {
        o2 + "</em>"@
    } else {
        o2
    };
    if st.bold {
        o3 + "</strong>"@
    } else {
        o3
    }
}

fn close_underscores(st: &mut Inline, last: &mut String)
    ensures
        (*final(st), final(last)@) == underscore_run(*old(st), old(last)@),
{
    if st.underscores == 1 {
        st.italic = !st.italic;
        if !st.italic {
            last.append("</em>");
        } else {
            last.append("<em>");
        }
    } else if st.underscores == 2 {
        st.bold = !st.bold;
        if st.bold {
            last.append("<strong>");
        } else {
            last.append("</strong>");
        }
    } else if st.underscores == 3 {
        st.bold = !st.bold;
        st.italic = !st.italic;
        if st.bold {
            last.append("<strong>");
        } else {
            last.append("</strong>");
        }
        if !st.italic {
            last.append("</em>");
        } else {
            last.append("<em>");
        }
    }
}

fn close_asterisks(st: &mut Inline, last: &mut String)
    ensures
        (*final(st), final(last)@) == asterisk_run(*old(st), old(last)@),
{
    if st.asterisks == 1 {
        st.italic = !st.italic;
        if !st.italic {
            last.append("</em>");
        } else {
            last.append("<em>");
        }
    } else if st.asterisks == 2 {
        st.bold = !st.bold;
        if st.bold {
            last.append("<strong>");
        } else {
            last.append("</strong>");
        }
    } else if st.asterisks == 3 {
        st.italic = !st.italic;
        if !st.italic {
            last.append("</em>");
        } else {
            last.append("<em>");
        }
        st.bold = !st.bold;
        if st.bold {
            last.append("<strong>");
        } else {
            last.append("</strong>");
        }
    }
}

/// Renders the characters of `line` onto `last`.
fn render_chars(line: &str, chars: &Vec<char>, st: &mut Inline, last: &mut String)
    requires
        chars@ == line@,
        line_run(line@, 0, *old(st), old(last)@) is Some,
    ensures
        line_run(line@, 0, *old(st), old(last)@) == Some((*final(st), final(last)@)),
{
    let mut i: usize = 0;
    while i < chars.len()
        invariant
            chars@ == line@,
            i <= chars.len(),
            line_run(line@, i as int, *st, last@) == line_run(line@, 0, *old(st), old(last)@),
            line_run(line@, 0, *old(st), old(last)@) is Some,
        decreases chars.len() - i,
    {
        let c = chars[i];
        let ghost st0 = *st;
        let ghost out0 = last@;
        if st.skip > 0 {
            st.skip = st.skip - 1;
        } else if c == '\\' && !st.escape {
            st.escape = true;
        } else if c == '_' && !st.escape {
            st.underscores = st.underscores + 1;
        } else if st.underscores != 0 && !st.escape {
            close_underscores(st, last);
            st.underscores = 0;
            last.push(c);
        } else if c == '*' && !st.escape {
            st.asterisks = st.asterisks + 1;
        } else if st.asterisks != 0 && !st.escape {
            close_asterisks(st, last);
            st.asterisks = 0;
            last.push(c);
        } else if c == '!' && !st.escape {
            st.image = true;
        } else {
            let mut linked = false;
            if c == '[' && !st.escape {
                let link = parse_link(line);
                if link.2 {
                    if st.image {
                        last.append("<img src=\"");
                        last.append(link.1.as_str());
                        last.append("\">");
                    } else {
                        last.append("<a href=\"");
                        last.append(link.1.as_str());
                        last.append("\">");
                        last.append(link.0.as_str());
                        last.append("</a>");
                    }
                    let text_len = link.0.as_str().len();
                    let target_len = link.1.as_str().len();
                    st.skip = st.skip + 4 + text_len + target_len;
                    linked = true;
                } else {
                    last.push('!');
                }
            }
            if !linked {
                st.image = false;
                st.escape = false;
                last.push(c);
            }
        }
        assert(char_step(line@, c, st0, out0) == Some((*st, last@)));
        i = i + 1;
    }
}

/// Ends a rendered line: line break, block quote, and closing of open emphasis.
fn finish(chars: &Vec<char>, indent: &str, st: &Inline, last: &mut String)
    ensures
        final(last)@ == finish_line(chars@, indent@, *st, old(last)@),
{
    if has_suffix(chars, "  ") {
        let lv = chars_of(last.as_str());
        let j = trailing_white_space(&lv);
        proof {
            crate::chars::lemma_span_start(lv@, lv@.len() as int, crate::chars::ws());
        }
        *last = string_of(&lv, 0, j);
        last.append("<br>");
    }
    let k = leading_white_space(chars);
    proof {
        crate::chars::lemma_span_end(chars@, 0, crate::chars::ws());
        reveal_strlit("> ");
    }
    if chars.len() - k >= 2 && chars[k] == '>' && chars[k + 1] == ' ' {
        assert(trim_start(chars@).take(2) =~= "> "@);
        let mut quote = String::from_str(indent);
        quote.append("<blockquote>");
        let content = string_of(chars, k + 2, chars.len());
        assert(content@ =~= trim_start(chars@).skip(2));
        quote.append(content.as_str());
        quote.append("</blockquote>");
        *last = quote;
    } else {
        assert(!starts_with(trim_start(chars@), "> "@)) by {
            if starts_with(trim_start(chars@), "> "@) {
                assert(trim_start(chars@).take(2)[0] == chars@[k as int]);
                assert(trim_start(chars@).take(2)[1] == chars@[k + 1]);
            }
        }
    }
    if st.italic {
        last.append("</em>");
    }
    if st.bold {
        last.append("</strong>");
    }
}

/// The state of a paragraph: the inline state, whether a code fence is open, the index of
/// the next line, and the lines rendered so far.
pub struct ParaScan {
    pub inline: Inline,
    pub code: bool,
    pub ind: int,
    pub out: Seq<Seq<char>>,
}

/// One step of a paragraph at line `p.ind` of `tp`: a code fence, a nested list, or one line
/// of text. `None` where the line cannot be rendered.
pub open spec fn para_step(tp: Seq<Seq<char>>, p: ParaScan) -> Option<ParaScan> {
    let line = tp[p.ind];
    let indent = if p.code {
        ""@
    } else {
        "    "@
    };
    if line == "```"@ {
        let marker = if !p.code {
            "<pre><code>"@
        } else {
            "</code></pre>"@
        };
        Some(ParaScan { code: !p.code, ind: p.ind + 1, out: p.out.push("    "@ + marker), ..p })
    } else if starts_with(line, "- "@) {
        let (ul, n) = spec_parse_ul(tp, p.ind);
        Some(ParaScan { ind: p.ind + n, out: p.out.push(indent) + prefixed(ul, "    "@), ..p })
    } else if spec_is_ol(line) {
        let (ol, n) = spec_parse_ol(tp, p.ind);
        Some(ParaScan { ind: p.ind + n, out: p.out.push(indent) + prefixed(ol, "    "@), ..p })
    } else {
        match line_run(line, 0, p.inline, indent) {
            None => None,
            Some((st, text)) => Some(
                ParaScan {
                    inline: st,
                    ind: p.ind + 1,
                    out: p.out.push(finish_line(line, indent, st, text)),
                    ..p
                },
            ),
        }
    }
}

/// The paragraph from line `p.ind` on, up to an empty line or the end of `tp`.
pub open spec fn para_run(tp: Seq<Seq<char>>, p: ParaScan) -> Option<ParaScan>
    decreases tp.len() - p.ind,
{
    if p.ind < 0 || p.ind >= tp.len() || tp[p.ind].len() == 0 {
        Some(p)
    } else {
        match para_step(tp, p) {
            None => None,
            Some(q) => if p.ind < q.ind <= tp.len() {
                para_run(tp, q)
            } else {
                None
            },
        }
    }
}

pub open spec fn para_start() -> ParaScan {
    ParaScan { inline: inline_start(), code: false, ind: 0, out: seq!["<p>"@] }
}

/// The HTML of the paragraph that begins at line `start`, and the number of lines it spans.
/// `None` where the paragraph cannot be rendered.
pub open spec fn spec_parse_paragraph(lines: Seq<Seq<char>>, start: int) -> Option<
    (Seq<Seq<char>>, int),
> {
    if start < 0 || start > lines.len() {
        None
    } else {
        match para_run(lines.skip(start), para_start()) {
            None => None,
            Some(p) => Some((p.out.push("</p>"@), p.ind)),
        }
    }
}

/// Renders the paragraph that begins at `start_line`: the `<p>` block and the number of
/// lines it spans.
pub fn parse_paragraph(lines: &Vec<&str>, start_line: usize) -> (r: (Vec<String>, usize))
    requires
        spec_parse_paragraph(text_lines(lines@), start_line as int) is Some,
    ensures
        spec_parse_paragraph(text_lines(lines@), start_line as int) == Some(
            (strings_view(r.0@), r.1 as int),
        ),
{
    let to_be_parsed = tail_lines(lines, start_line);
    let ghost tp = text_lines(to_be_parsed@);
    assert(tp =~= text_lines(lines@).skip(start_line as int));
    let mut parsed: Vec<String> = Vec::new();
    parsed.push(String::from_str("<p>"));
    assert(strings_view(parsed@) =~= seq!["<p>"@]);
    let mut st = Inline {
        italic: false,
        bold: false,
        escape: false,
        image: false,
        skip: 0,
        underscores: 0,
        asterisks: 0,
    };
    let mut code = false;
    let mut ind: usize = 0;
    while ind < to_be_parsed.len() && !to_be_parsed[ind].is_empty()
        invariant
            tp == text_lines(to_be_parsed@),
            ind <= to_be_parsed.len(),
            para_run(tp, ParaScan { inline: st, code, ind: ind as int, out: strings_view(parsed@) })
                == para_run(tp, para_start()),
            para_run(tp, para_start()) is Some,
        decreases to_be_parsed.len() - ind,
    {
        let line = to_be_parsed[ind];
        let chars = chars_of(line);
        assert(tp[ind as int] == chars@);
        let indent: &str = if code {
            ""
        } else {
            "    "
        };
        if equals(&chars, "```") {
            code = !code;
            let mut l = String::from_str("    ");
            if code {
                l.append("<pre><code>");
            } else {
                l.append("</code></pre>");
            }
            push_line(&mut parsed, l);
            ind = ind + 1;
            continue ;
        }
        if has_prefix(&chars, "- ") {
            push_line(&mut parsed, String::from_str(indent));
            let ul = parse_ul(&to_be_parsed, ind);
            proof {
                crate::lists::lemma_ul_run(tp, ind as int);
            }
            push_prefixed(&mut parsed, &ul.0, "    ");
            ind = ind + ul.1;
            continue ;
        }
        if is_ol(line) {
            push_line(&mut parsed, String::from_str(indent));
            let ol = parse_ol(&to_be_parsed, ind);
            proof {
                crate::lists::lemma_ol_run(tp, ind as int);
            }
            push_prefixed(&mut parsed, &ol.0, "    ");
            ind = ind + ol.1;
            continue ;
        }
        let mut last = String::from_str(indent);
        render_chars(line, &chars, &mut st, &mut last);
        finish(&chars, indent, &st, &mut last);
        push_line(&mut parsed, last);
        ind = ind + 1;
    }
    push_line(&mut parsed, String::from_str("</p>"));
    (parsed, ind)
}

/// A character that no inline rule acts on.
pub open spec fn is_plain(c: char) -> bool {
    c != '\\' && c != '_' && c != '*' && c != '!' && c != '['
}

/// Nothing is pending: no link to pass over, no run of `'_'` or `'*'`, no escape.
pub open spec fn settled(st: Inline) -> bool {
    st.skip == 0 && st.underscores == 0 && st.asterisks == 0 && !st.escape
}

proof fn lemma_plain_run(line: Seq<char>, i: int, st: Inline, out: Seq<char>)
    requires
        0 <= i <= line.len(),
        settled(st),
        forall|j: int| 0 <= j < line.len() ==> #[trigger] is_plain(line[j]),
    ensures
        line_run(line, i, st, out) == Some(
            (
                if i < line.len() {
                    Inline { image: false, ..st }
                } else {
                    st
                },
                out + line.skip(i),
            ),
        ),
    decreases line.len() - i,
{
    if i < line.len() {
        assert(is_plain(line[i]));
        let st1 = Inline { image: false, escape: false, ..st };
        lemma_plain_run(line, i + 1, st1, out.push(line[i]));
        assert(out.push(line[i]) + line.skip(i + 1) =~= out + line.skip(i));
    } else {
        assert(out + line.skip(i) =~= out);
    }
}

/// Text without markup characters is copied as it is, and leaves nothing pending.
pub proof fn law_plain_text_verbatim(line: Seq<char>, st: Inline, out: Seq<char>)
    requires
        settled(st),
        forall|j: int| 0 <= j < line.len() ==> #[trigger] is_plain(line[j]),
    ensures
        line_run(line, 0, st, out) matches Some((st2, text)) && text == out + line && settled(st2)
            && st2.italic == st.italic && st2.bold == st.bold,
{
    lemma_plain_run(line, 0, st, out);
    assert(line.skip(0) =~= line);
}

proof fn lemma_para_run_shape(tp: Seq<Seq<char>>, p: ParaScan)
    requires
        0 <= p.ind <= tp.len(),
        para_run(tp, p) is Some,
    ensures
        ({
            let q = para_run(tp, p).unwrap();
            &&& p.ind <= q.ind <= tp.len()
            &&& q.ind == tp.len() || tp[q.ind].len() == 0
            &&& q.out.len() >= p.out.len()
            &&& forall|j: int| 0 <= j < p.out.len() ==> #[trigger] q.out[j] == p.out[j]
        }),
    decreases tp.len() - p.ind,
{
    if p.ind < tp.len() && tp[p.ind].len() != 0 {
        let q = para_step(tp, p).unwrap();
        lemma_para_run_shape(tp, q);
        assert(q.out.len() >= p.out.len());
        assert forall|j: int| 0 <= j < p.out.len() implies #[trigger] q.out[j] == p.out[j] by {
            assert(q.out[j] == p.out.push(q.out[p.out.len() as int])[j]);
        }
    }
}

/// A paragraph is wrapped in `<p>` and `</p>`, and runs from its first line up to the next
/// empty line or the end of the text; it takes at least its first line when that line is
/// not empty.
pub proof fn law_paragraph_block(lines: Seq<Seq<char>>, start: int)
    requires
        spec_parse_paragraph(lines, start) is Some,
    ensures
        ({
            let (block, n) = spec_parse_paragraph(lines, start).unwrap();
            &&& block[0] == "<p>"@
            &&& block[block.len() - 1] == "</p>"@
            &&& 0 <= n <= lines.len() - start
            &&& start + n == lines.len() || lines[start + n].len() == 0
            &&& start < lines.len() && lines[start].len() > 0 ==> n >= 1
        }),
{
    let tp = lines.skip(start);
    lemma_para_run_shape(tp, para_start());
    let q = para_run(tp, para_start()).unwrap();
    assert(q.out.push("</p>"@)[0] == q.out[0]);
    if start < lines.len() && lines[start].len() > 0 {
        assert(tp[0] == lines[start]);
    }
    if start + q.ind < lines.len() {
        assert(tp[q.ind] == lines[start + q.ind]);
    }
}

/// Every step of a paragraph takes at least one line and stays within the text, so a
/// paragraph only fails where one of its lines cannot be rendered.
pub proof fn law_para_step_advances(tp: Seq<Seq<char>>, p: ParaScan)
    requires
        0 <= p.ind < tp.len(),
        para_step(tp, p) is Some,
    ensures
        p.ind < para_step(tp, p).unwrap().ind <= tp.len(),
{
    crate::lists::lemma_ul_run(tp, p.ind);
    crate::lists::lemma_ol_run(tp, p.ind);
}

proof fn lemma_plain_segment(line: Seq<char>, i: int, j: int, st: Inline, out: Seq<char>)
    requires
        0 <= i <= j <= line.len(),
        settled(st),
        !st.image,
        forall|k: int| i <= k < j ==> #[trigger] is_plain(line[k]),
    ensures
        line_run(line, i, st, out) == line_run(line, j, st, out + line.subrange(i, j)),
    decreases j - i,
{
    if i < j {
        assert(is_plain(line[i]));
        assert(Inline { image: false, escape: false, ..st } == st);
        lemma_plain_segment(line, i + 1, j, st, out.push(line[i]));
        assert(out.push(line[i]) + line.subrange(i + 1, j) =~= out + line.subrange(i, j));
    } else {
        assert(out + line.subrange(i, j) =~= out);
    }
}

/// The tags that a run of `k` markers `m` writes, given the current state.
pub open spec fn marker_tag(k: int, m: char, st: Inline) -> Seq<char> {
    if k == 1 {
        em_tag(!st.italic)
    } else if k == 2 {
        strong_tag(!st.bold)
    } else if m == '*' {
        em_tag(!st.italic) + strong_tag(!st.bold)
    } else {
        strong_tag(!st.bold) + em_tag(!st.italic)
    }
}

pub open spec fn marker_toggle(k: int, st: Inline) -> Inline {
    if k == 1 {
        Inline { italic: !st.italic, ..st }
    } else if k == 2 {
        Inline { bold: !st.bold, ..st }
    } else {
        Inline { italic: !st.italic, bold: !st.bold, ..st }
    }
}

/// The state after `c` markers `m` have been read.
pub open spec fn counted(m: char, c: int, st: Inline) -> Inline {
    if m == '*' {
        Inline { asterisks: c as i32, ..st }
    } else {
        Inline { underscores: c as i32, ..st }
    }
}

proof fn lemma_count_markers(line: Seq<char>, i: int, c: int, k: int, m: char, st: Inline, out: Seq<char>)
    requires
        0 <= i,
        0 <= c <= k <= 3,
        i + k - c <= line.len(),
        m == '*' || m == '_',
        forall|x: int| i <= x < i + k - c ==> #[trigger] line[x] == m,
        settled(st),
    ensures
        line_run(line, i, counted(m, c, st), out) == line_run(line, i + k - c, counted(m, k, st), out),
    decreases k - c,
{
    if c < k {
        assert(line[i] == m);
        assert(line_run(line, i, counted(m, c, st), out) == line_run(line, i + 1, counted(m, c + 1, st), out));
        lemma_count_markers(line, i + 1, c + 1, k, m, st, out);
    }
}

proof fn lemma_marker_step(line: Seq<char>, i: int, k: int, m: char, st: Inline, out: Seq<char>)
    requires
        0 <= i,
        i + k < line.len(),
        1 <= k <= 3,
        m == '*' || m == '_',
        forall|x: int| i <= x < i + k ==> #[trigger] line[x] == m,
        is_plain(line[i + k]),
        settled(st),
    ensures
        line_run(line, i, st, out) == line_run(
            line,
            i + k + 1,
            marker_toggle(k, st),
            out + marker_tag(k, m, st) + seq![line[i + k]],
        ),
{
    assert(counted(m, 0, st) == st);
    lemma_count_markers(line, i, 0, k, m, st, out);
    let c = line[i + k];
    let s2 = counted(m, k, st);
    if m == '*' {
        let (t, o) = asterisk_run(s2, out);
        assert(line_run(line, i + k, s2, out) == line_run(
            line,
            i + k + 1,
            Inline { asterisks: 0, ..t },
            o.push(c),
        ));
        assert(Inline { asterisks: 0, ..t } == marker_toggle(k, st));
        assert(o.push(c) =~= out + marker_tag(k, m, st) + seq![c]);
    } else {
        let (t, o) = underscore_run(s2, out);
        assert(line_run(line, i + k, s2, out) == line_run(
            line,
            i + k + 1,
            Inline { underscores: 0, ..t },
            o.push(c),
        ));
        assert(Inline { underscores: 0, ..t } == marker_toggle(k, st));
        assert(o.push(c) =~= out + marker_tag(k, m, st) + seq![c]);
    }
}

/// The tags that open emphasis of a run of `k` markers `m`: italics for one, bold for two,
/// both for three (`'*'` opens italics first, `'_'` bold first).
pub open spec fn emphasis_open(k: int, m: char) -> Seq<char> {
    if k == 1 {
        "<em>"@
    } else if k == 2 {
        "<strong>"@
    } else if m == '*' {
        "<em><strong>"@
    } else {
        "<strong><em>"@
    }
}

/// The tags that close that emphasis, in the same order.
pub open spec fn emphasis_close(k: int, m: char) -> Seq<char> {
    if k == 1 {
        "</em>"@
    } else if k == 2 {
        "</strong>"@
    } else if m == '*' {
        "</em></strong>"@
    } else {
        "</strong></em>"@
    }
}

/// A line of `k` markers (`'*'` or `'_'`), a word, `k` markers again and more text renders as
/// the word in italics (`k == 1`), in bold (`k == 2`) or in both (`k == 3`), e.g.
/// `<em>w</em>v` or `<strong>w</strong>v`, every character of `w` and `v` kept. Markup-free means none of `'\\'`, `'_'`, `'*'`, `'!'`,
/// `'['`.
#[verifier::rlimit(40)]
pub proof fn law_emphasis_pair(m: char, k: int, w: Seq<char>, v: Seq<char>)
    requires
        m == '*' || m == '_',
        1 <= k <= 3,
        w.len() > 0,
        v.len() > 0,
        forall|x: int| 0 <= x < w.len() ==> #[trigger] is_plain(w[x]),
        forall|x: int| 0 <= x < v.len() ==> #[trigger] is_plain(v[x]),
        v[v.len() - 1] != ' ',
    ensures
        spec_parse_paragraph(
            seq![Seq::new(k as nat, |x: int| m) + w + Seq::new(k as nat, |x: int| m) + v],
            0,
        ) == Some(
            (
                seq![
                    "<p>"@,
                    "    "@ + emphasis_open(k, m) + w + emphasis_close(k, m) + v,
                    "</p>"@,
                ],
                1int,
            ),
        ),
{
    let mk = Seq::new(k as nat, |x: int| m);
    let line = mk + w + mk + v;
    let n = w.len() as int;
    let len = line.len() as int;
    assert(len == 2 * k + n + v.len());
    assert forall|x: int| 0 <= x < k implies #[trigger] line[x] == m by {}
    assert forall|x: int| k + n <= x < 2 * k + n implies #[trigger] line[x] == m by {
        assert(line[x] == mk[x - k - n]);
    }
    assert forall|x: int| k <= x < k + n implies #[trigger] is_plain(line[x]) by {
        assert(line[x] == w[x - k]);
    }
    assert forall|x: int| 2 * k + n <= x < len implies #[trigger] is_plain(line[x]) by {
        assert(line[x] == v[x - 2 * k - n]);
    }
    let st0 = inline_start();
    let indent = "    "@;
    lemma_marker_step(line, 0, k, m, st0, indent);
    let st1 = marker_toggle(k, st0);
    let o1 = indent + marker_tag(k, m, st0) + seq![line[k]];
    lemma_plain_segment(line, k + 1, k + n, st1, o1);
    let o2 = o1 + line.subrange(k + 1, k + n);
    lemma_marker_step(line, k + n, k, m, st1, o2);
    let st2 = marker_toggle(k, st1);
    let o3 = o2 + marker_tag(k, m, st1) + seq![line[2 * k + n]];
    lemma_plain_segment(line, 2 * k + n + 1, len, st2, o3);
    let o4 = o3 + line.subrange(2 * k + n + 1, len);
    assert(line_run(line, len, st2, o4) == Some((st2, o4)));
    assert(st2 == st0);
    let open = emphasis_open(k, m);
    let close = emphasis_close(k, m);
    reveal_strlit("<em>");
    reveal_strlit("<strong>");
    reveal_strlit("</em>");
    reveal_strlit("</strong>");
    reveal_strlit("<em><strong>");
    reveal_strlit("<strong><em>");
    reveal_strlit("</em></strong>");
    reveal_strlit("</strong></em>");
    assert(marker_tag(k, m, st0) =~= open);
    assert(marker_tag(k, m, st1) =~= close);
    assert(line[k] == w[0]);
    assert(line[2 * k + n] == v[0]);
    assert(seq![w[0]] + w.subrange(1, n) =~= w);
    assert(o4 =~= indent + open + w + close + v) by {
        assert(line.subrange(k + 1, k + n) =~= w.subrange(1, n));
        assert(line.subrange(2 * k + n + 1, len) =~= v.subrange(1, v.len() as int));
        assert(seq![v[0]] + v.subrange(1, v.len() as int) =~= v);
    }
    // The line is text: no fence, list item, quote or line break.
    reveal_strlit("```");
    reveal_strlit("- ");
    reveal_strlit("> ");
    reveal_strlit("  ");
    assert(line != "```"@) by {
        if line == "```"@ {
            assert(line[0] == '`');
        }
    }
    assert(!starts_with(line, "- "@)) by {
        if starts_with(line, "- "@) {
            assert(line.take(2)[0] == line[0]);
        }
    }
    assert(!crate::lists::spec_is_ol(line)) by {
        assert(!crate::chars::is_digit(line[0]));
    }
    assert(!crate::chars::is_white_space(line[0]));
    assert(trim_start(line) == line) by {
        assert(line.skip(0) =~= line);
    }
    assert(!starts_with(trim_start(line), "> "@)) by {
        if starts_with(line, "> "@) {
            assert(line.take(2)[0] == line[0]);
        }
    }
    assert(!ends_with(line, "  "@)) by {
        if ends_with(line, "  "@) {
            assert(line.skip(len - 2)[1] == line[len - 1]);
            assert(line[len - 1] == v[v.len() - 1]);
        }
    }
    let tp = seq![line];
    assert(seq![line].skip(0) =~= tp);
    let p0 = para_start();
    let p1 = ParaScan { inline: st2, ind: 1, out: p0.out.push(o4), ..p0 };
    assert(finish_line(line, indent, st2, o4) == o4);
    assert(para_step(tp, p0) == Some(p1));
    assert(para_run(tp, p1) == Some(p1));
    assert(p1.out.push("</p>"@) =~= seq!["<p>"@, indent + open + w + close + v, "</p>"@]);
}

proof fn lemma_single_text_line(line: Seq<char>, st: Inline, o: Seq<char>)
    requires
        line.len() > 0,
        !crate::chars::is_digit(line[0]),
        line[0] != '-',
        line[0] != '`',
        line_run(line, 0, inline_start(), "    "@) == Some((st, o)),
    ensures
        spec_parse_paragraph(seq![line], 0) == Some(
            (seq!["<p>"@, finish_line(line, "    "@, st, o), "</p>"@], 1int),
        ),
{
    reveal_strlit("```");
    reveal_strlit("- ");
    assert(line != "```"@) by {
        if line == "```"@ {
            assert(line[0] == '`');
        }
    }
    assert(!starts_with(line, "- "@)) by {
        if starts_with(line, "- "@) {
            assert(line.take(2)[0] == line[0]);
        }
    }
    assert(!crate::lists::spec_is_ol(line)) by {
        assert(!(crate::lists::digits())(line[0]));
    }
    let tp = seq![line];
    assert(seq![line].skip(0) =~= tp);
    let p0 = para_start();
    let p1 = ParaScan {
        inline: st,
        ind: 1,
        out: p0.out.push(finish_line(line, "    "@, st, o)),
        ..p0
    };
    assert(para_step(tp, p0) == Some(p1));
    assert(para_run(tp, p1) == Some(p1));
    assert(p1.out.push("</p>"@) =~= seq!["<p>"@, finish_line(line, "    "@, st, o), "</p>"@]);
}

/// A line of markup-free text that ends with two spaces becomes the text, without its
/// trailing white space, followed by `<br>`.
pub proof fn law_line_break(w: Seq<char>)
    requires
        w.len() > 0,
        forall|x: int| 0 <= x < w.len() ==> #[trigger] is_plain(w[x]),
        !crate::chars::is_white_space(w[w.len() - 1]),
        !crate::chars::is_white_space(w[0]),
        !crate::chars::is_digit(w[0]),
        w[0] != '-',
        w[0] != '`',
        w[0] != '>',
    ensures
        spec_parse_paragraph(seq![w + seq![' ', ' ']], 0) == Some(
            (seq!["<p>"@, "    "@ + w + "<br>"@, "</p>"@], 1int),
        ),
{
    let line = w + seq![' ', ' '];
    let n = line.len() as int;
    assert forall|x: int| 0 <= x < n implies #[trigger] is_plain(line[x]) by {
        if x < w.len() {
            assert(line[x] == w[x]);
        }
    }
    let st0 = inline_start();
    lemma_plain_segment(line, 0, n, st0, "    "@);
    assert(line.subrange(0, n) =~= line);
    let o = "    "@ + line;
    assert(line_run(line, n, st0, o) == Some((st0, o)));
    assert(line[0] == w[0]);
    lemma_single_text_line(line, st0, o);
    reveal_strlit("  ");
    reveal_strlit("> ");
    reveal_strlit("    ");
    assert(ends_with(line, "  "@)) by {
        assert(line.skip(n - 2) =~= "  "@);
    }
    let m = o.len() as int;
    assert(o[m - 1] == ' ' && o[m - 2] == ' ');
    assert(o[m - 3] == w[w.len() - 1]);
    assert((crate::chars::ws())(o[m - 1]));
    assert(span_start(o, m, crate::chars::ws()) == span_start(o, m - 1, crate::chars::ws()));
    assert((crate::chars::ws())(o[m - 2]));
    assert(span_start(o, m - 1, crate::chars::ws()) == span_start(o, m - 2, crate::chars::ws()));
    assert(!(crate::chars::ws())(o[m - 3]));
    assert(span_start(o, m - 2, crate::chars::ws()) == m - 2);
    assert(trim_end(o) =~= "    "@ + w);
    assert(span_end(line, 0, crate::chars::ws()) == 0);
    assert(trim_start(line) =~= line);
    assert(!starts_with(trim_start(line), "> "@)) by {
        if starts_with(line, "> "@) {
            assert(line.take(2)[0] == line[0]);
        }
    }
}

/// A line of `'>'`, a space and markup-free text, after any white space, becomes a block
/// quote of that text.
pub proof fn law_block_quote(pre: Seq<char>, q: Seq<char>)
    requires
        forall|x: int| 0 <= x < pre.len() ==> crate::chars::is_white_space(#[trigger] pre[x]),
        forall|x: int| 0 <= x < q.len() ==> #[trigger] is_plain(q[x]),
    ensures
        spec_parse_paragraph(seq![pre + seq!['>', ' '] + q], 0) == Some(
            (seq!["<p>"@, "    <blockquote>"@ + q + "</blockquote>"@, "</p>"@], 1int),
        ),
{
    let line = pre + seq!['>', ' '] + q;
    let n = line.len() as int;
    let k = pre.len() as int;
    assert forall|x: int| 0 <= x < n implies #[trigger] is_plain(line[x]) by {
        if x < k {
            assert(line[x] == pre[x]);
        } else if x >= k + 2 {
            assert(line[x] == q[x - k - 2]);
        }
    }
    let st0 = inline_start();
    lemma_plain_segment(line, 0, n, st0, "    "@);
    assert(line.subrange(0, n) =~= line);
    let o = "    "@ + line;
    assert(line_run(line, n, st0, o) == Some((st0, o)));
    lemma_single_text_line(line, st0, o);
    reveal_strlit("> ");
    reveal_strlit("    ");
    reveal_strlit("<blockquote>");
    reveal_strlit("    <blockquote>");
    crate::chars::lemma_span_end(line, 0, crate::chars::ws());
    assert(span_end(line, 0, crate::chars::ws()) == k) by {
        assert forall|x: int| 0 <= x < k implies (crate::chars::ws())(#[trigger] line[x]) by {
            assert(line[x] == pre[x]);
        }
        crate::chars::lemma_span_end_exact(line, 0, k, crate::chars::ws());
    }
    assert(trim_start(line) =~= seq!['>', ' '] + q);
    assert(starts_with(trim_start(line), "> "@)) by {
        assert(trim_start(line).take(2) =~= "> "@);
    }
    assert(trim_start(line).skip(2) =~= q);
    assert("    "@ + "<blockquote>"@ =~= "    <blockquote>"@);
}

proof fn lemma_ascii_byte_len(s: Seq<char>)
    requires
        forall|k: int| 0 <= k < s.len() ==> (#[trigger] s[k] as u32) < 0x80,
    ensures
        encode_utf8(s).len() == s.len(),
    decreases s.len(),
{
    if s.len() > 0 {
        assert forall|k: int| 0 <= k < s.drop_first().len() implies (#[trigger] s.drop_first()[k] as u32)
            < 0x80 by {
            assert(s.drop_first()[k] == s[k + 1]);
        }
        lemma_ascii_byte_len(s.drop_first());
        assert((s[0] as u32) < 0x80);
        assert(vstd::utf8::encode_scalar(s[0] as u32).len() == 1);
    }
}

proof fn lemma_skip_run(line: Seq<char>, i: int, k: int, st: Inline, out: Seq<char>)
    requires
        0 <= i,
        i + k <= line.len(),
        0 <= k <= usize::MAX,
        st.skip == k,
    ensures
        line_run(line, i, st, out) == line_run(line, i + k, Inline { skip: 0, ..st }, out),
    decreases k,
{
    if k > 0 {
        lemma_skip_run(line, i + 1, k - 1, Inline { skip: (k - 1) as usize, ..st }, out);
    } else {
        assert(Inline { skip: 0, ..st } == st);
    }
}

/// A line that is `[t](u)` (or `![t](u)` for an image) in ASCII, one more character `x`, and
/// markup-free text `v`, renders as the link `<a href="u">t</a>` (or the image
/// `<img src="u">`) followed by `v`: after the link, as many characters are passed over as
/// the link's text and target take bytes, plus four, which here takes in `x`.
pub proof fn law_link_rendering(img: bool, t: Seq<char>, u: Seq<char>, x: char, v: Seq<char>)
    requires
        forall|k: int|
            0 <= k < t.len() ==> crate::link::is_link_plain(#[trigger] t[k]) && (t[k] as u32)
                < 0x80,
        forall|k: int|
            0 <= k < u.len() ==> crate::link::is_link_plain(#[trigger] u[k]) && (u[k] as u32)
                < 0x80,
        t.len() + u.len() + 4 <= usize::MAX,
        v.len() > 0,
        forall|k: int| 0 <= k < v.len() ==> #[trigger] is_plain(v[k]),
        v[v.len() - 1] != ' ',
    ensures
        spec_parse_paragraph(
            seq![
                (if img {
                    seq!['!']
                } else {
                    seq![]
                }) + seq!['['] + t + seq![']', '('] + u + seq![')', x] + v,
            ],
            0,
        ) == Some(
            (
                seq![
                    "<p>"@,
                    "    "@ + (if img {
                        "<img src=\""@ + u + "\">"@
                    } else {
                        "<a href=\""@ + u + "\">"@ + t + "</a>"@
                    }) + v,
                    "</p>"@,
                ],
                1int,
            ),
        ),
{
    let pre: Seq<char> = if img {
        seq!['!']
    } else {
        seq![]
    };
    let line = pre + seq!['['] + t + seq![']', '('] + u + seq![')', x] + v;
    let a = pre.len() as int;
    let n = t.len() as int;
    let m = u.len() as int;
    let len = line.len() as int;
    assert(line =~= pre + seq!['['] + t + seq![']', '('] + u + seq![')'] + (seq![x] + v));
    assert forall|k: int| 0 <= k < pre.len() implies #[trigger] crate::link::is_link_plain(pre[k]) by {}
    crate::link::law_link_text_and_target(pre, t, u, seq![x] + v);
    lemma_ascii_byte_len(t);
    lemma_ascii_byte_len(u);
    let st0 = inline_start();
    let indent = "    "@;
    let st1 = Inline { image: img, ..st0 };
    if img {
        assert(line[0] == '!');
        assert(line_run(line, 0, st0, indent) == line_run(line, 1, st1, indent));
    } else {
        assert(st1 == st0);
    }
    assert(line[a] == '[');
    let html = if img {
        "<img src=\""@ + u + "\">"@
    } else {
        "<a href=\""@ + u + "\">"@ + t + "</a>"@
    };
    let k = 4 + n + m;
    let st2 = Inline { skip: k as usize, ..st1 };
    assert(line_run(line, a, st1, indent) == line_run(line, a + 1, st2, indent + html));
    lemma_skip_run(line, a + 1, k, st2, indent + html);
    let st3 = Inline { skip: 0, ..st2 };
    let b = a + 5 + n + m;
    assert(a + 1 + k == b);
    assert(line[b] == v[0]);
    assert(is_plain(v[0]));
    let st4 = Inline { image: false, escape: false, ..st3 };
    assert(st4 == st0);
    assert(line_run(line, b, st3, indent + html) == line_run(line, b + 1, st0, (indent + html).push(v[0])));
    assert forall|q: int| b + 1 <= q < len implies #[trigger] is_plain(line[q]) by {
        assert(line[q] == v[q - b]);
    }
    lemma_plain_segment(line, b + 1, len, st0, (indent + html).push(v[0]));
    let o = (indent + html).push(v[0]) + line.subrange(b + 1, len);
    assert(o =~= indent + html + v) by {
        assert(line.subrange(b + 1, len) =~= v.subrange(1, v.len() as int));
        assert(seq![v[0]] + v.subrange(1, v.len() as int) =~= v);
    }
    assert(line_run(line, len, st0, o) == Some((st0, o)));
    assert(line[0] == '!' || line[0] == '[');
    lemma_single_text_line(line, st0, o);
    reveal_strlit("  ");
    reveal_strlit("> ");
    assert(!crate::chars::is_white_space(line[0]));
    assert(trim_start(line) =~= line) by {
        assert(span_end(line, 0, crate::chars::ws()) == 0);
    }
    assert(!starts_with(trim_start(line), "> "@)) by {
        if starts_with(line, "> "@) {
            assert(line.take(2)[0] == line[0]);
        }
    }
    assert(!ends_with(line, "  "@)) by {
        if ends_with(line, "  "@) {
            assert(line.skip(len - 2)[1] == line[len - 1]);
            assert(line[len - 1] == v[v.len() - 1]);
        }
    }
    assert(finish_line(line, indent, st0, o) == o);
}

/// Between two code fences, a line of markup-free text is kept as it is, without indent, and
/// the fences become `<pre><code>` and `</code></pre>`.
pub proof fn law_code_fence(w: Seq<char>)
    requires
        w.len() > 0,
        forall|x: int| 0 <= x < w.len() ==> #[trigger] is_plain(w[x]),
        w[w.len() - 1] != ' ',
        !crate::chars::is_white_space(w[0]),
        !crate::chars::is_digit(w[0]),
        w[0] != '-',
        w[0] != '`',
        w[0] != '>',
    ensures
        spec_parse_paragraph(seq!["```"@, w, "```"@], 0) == Some(
            (seq!["<p>"@, "    <pre><code>"@, w, "    </code></pre>"@, "</p>"@], 3int),
        ),
{
    reveal_strlit("```");
    reveal_strlit("- ");
    reveal_strlit("> ");
    reveal_strlit("  ");
    reveal_strlit("");
    reveal_strlit("    ");
    reveal_strlit("<pre><code>");
    reveal_strlit("</code></pre>");
    reveal_strlit("    <pre><code>");
    reveal_strlit("    </code></pre>");
    let tp = seq!["```"@, w, "```"@];
    assert(tp.skip(0) =~= tp);
    let n = w.len() as int;
    let st0 = inline_start();
    lemma_plain_segment(w, 0, n, st0, ""@);
    assert(""@ + w.subrange(0, n) =~= w);
    assert(line_run(w, n, st0, w) == Some((st0, w)));
    assert(w != "```"@) by {
        if w == "```"@ {
            assert(w[0] == '`');
        }
    }
    assert(!starts_with(w, "- "@)) by {
        if starts_with(w, "- "@) {
            assert(w.take(2)[0] == w[0]);
        }
    }
    assert(!crate::lists::spec_is_ol(w)) by {
        assert(!(crate::lists::digits())(w[0]));
    }
    assert(trim_start(w) =~= w) by {
        assert(span_end(w, 0, crate::chars::ws()) == 0);
    }
    assert(!starts_with(trim_start(w), "> "@)) by {
        if starts_with(w, "> "@) {
            assert(w.take(2)[0] == w[0]);
        }
    }
    assert(!ends_with(w, "  "@)) by {
        if ends_with(w, "  "@) {
            assert(w.skip(n - 2)[1] == w[n - 1]);
        }
    }
    assert(finish_line(w, ""@, st0, w) == w);
    let p0 = para_start();
    let p1 = ParaScan { code: true, ind: 1, out: p0.out.push("    "@ + "<pre><code>"@), ..p0 };
    let p2 = ParaScan { ind: 2, out: p1.out.push(w), ..p1 };
    let p3 = ParaScan { code: false, ind: 3, out: p2.out.push("    "@ + "</code></pre>"@), ..p2 };
    assert(para_step(tp, p0) == Some(p1));
    assert(para_step(tp, p1) == Some(p2));
    assert(para_step(tp, p2) == Some(p3));
    assert(para_run(tp, p3) == Some(p3));
    assert(para_run(tp, p2) == Some(p3));
    assert(para_run(tp, p1) == Some(p3));
    assert("    "@ + "<pre><code>"@ =~= "    <pre><code>"@);
    assert("    "@ + "</code></pre>"@ =~= "    </code></pre>"@);
    assert(p3.out.push("</p>"@) =~= seq!["<p>"@, "    <pre><code>"@, w, "    </code></pre>"@, "</p>"@]);
}

/// A line of markup-free text followed by a list item line (`"- a"`, or `"1. a"` when
/// `ordered`) renders as the text, an indent line, and the list with the item `a` nested four
/// spaces deeper.
pub proof fn law_nested_list(w: Seq<char>, a: Seq<char>, ordered: bool)
    requires
        w.len() > 0,
        forall|x: int| 0 <= x < w.len() ==> #[trigger] is_plain(w[x]),
        w[w.len() - 1] != ' ',
        !crate::chars::is_white_space(w[0]),
        !crate::chars::is_digit(w[0]),
        w[0] != '-',
        w[0] != '`',
        w[0] != '>',
        a.len() > 0 ==> !crate::chars::is_white_space(a[0]),
    ensures
        spec_parse_paragraph(
            seq![
                w,
                (if ordered {
                    seq!['1', '.', ' ']
                } else {
                    seq!['-', ' ']
                }) + a,
            ],
            0,
        ) == Some(
            (
                seq![
                    "<p>"@,
                    "    "@ + w,
                    "    "@,
                    if ordered {
                        "    <ol>"@
                    } else {
                        "    <ul>"@
                    },
                    "        <li>"@ + a + "</li>"@,
                    if ordered {
                        "    </ol>"@
                    } else {
                        "    </ul>"@
                    },
                    "</p>"@,
                ],
                2int,
            ),
        ),
{
    reveal_strlit("```");
    reveal_strlit("- ");
    reveal_strlit("> ");
    reveal_strlit("  ");
    reveal_strlit("    ");
    reveal_strlit("<ul>");
    reveal_strlit("</ul>");
    reveal_strlit("<ol>");
    reveal_strlit("</ol>");
    reveal_strlit("    <ul>");
    reveal_strlit("    </ul>");
    reveal_strlit("    <ol>");
    reveal_strlit("    </ol>");
    reveal_strlit("    <li>");
    reveal_strlit("        <li>");
    let item = (if ordered {
        seq!['1', '.', ' ']
    } else {
        seq!['-', ' ']
    }) + a;
    let tp = seq![w, item];
    assert(tp.skip(0) =~= tp);
    let n = w.len() as int;
    let st0 = inline_start();
    lemma_plain_segment(w, 0, n, st0, "    "@);
    assert("    "@ + w.subrange(0, n) =~= "    "@ + w);
    let o = "    "@ + w;
    assert(line_run(w, n, st0, o) == Some((st0, o)));
    assert(w != "```"@) by {
        if w == "```"@ {
            assert(w[0] == '`');
        }
    }
    assert(!starts_with(w, "- "@)) by {
        if starts_with(w, "- "@) {
            assert(w.take(2)[0] == w[0]);
        }
    }
    assert(!crate::lists::spec_is_ol(w)) by {
        assert(!(crate::lists::digits())(w[0]));
    }
    assert(trim_start(w) =~= w) by {
        assert(span_end(w, 0, crate::chars::ws()) == 0);
    }
    assert(!starts_with(trim_start(w), "> "@)) by {
        if starts_with(w, "> "@) {
            assert(w.take(2)[0] == w[0]);
        }
    }
    assert(!ends_with(w, "  "@)) by {
        if ends_with(w, "  "@) {
            assert(w.skip(n - 2)[1] == w[n - 1]);
        }
    }
    assert(finish_line(w, "    "@, st0, o) == o);
    let p0 = para_start();
    let p1 = ParaScan { ind: 1, out: p0.out.push(o), ..p0 };
    assert(para_step(tp, p0) == Some(p1));
    assert(tp[1] == item);
    assert(item != "```"@) by {
        if item == "```"@ {
            assert(item[0] == '`');
        }
    }
    let expected_item = "        <li>"@ + a + "</li>"@;
    if ordered {
        assert(!starts_with(item, "- "@)) by {
            if starts_with(item, "- "@) {
                assert(item.take(2)[0] == item[0]);
            }
        }
        assert(crate::chars::span_end(item, 0, crate::lists::digits()) == 1) by {
            crate::chars::lemma_span_end_exact(item, 0, 1, crate::lists::digits());
        }
        assert(crate::chars::span_end(item, 2, crate::chars::ws()) == 3) by {
            if a.len() > 0 {
                assert(item[3] == a[0]);
            }
            crate::chars::lemma_span_end_exact(item, 2, 3, crate::chars::ws());
        }
        assert(item.skip(3) =~= a);
        assert(crate::lists::spec_is_ol(item));
        assert(crate::lists::ol_end(tp, 2) == 2);
        assert(crate::lists::ol_end(tp, 1) == 2);
        let (ol, k) = spec_parse_ol(tp, 1);
        assert(ol =~= seq!["<ol>"@, crate::lists::ol_item(item), "</ol>"@]);
        let p2 = ParaScan { ind: 2, out: p1.out.push("    "@) + prefixed(ol, "    "@), ..p1 };
        assert(para_step(tp, p1) == Some(p2));
        assert(para_run(tp, p2) == Some(p2));
        assert(para_run(tp, p1) == Some(p2));
        assert(para_run(tp, p0) == Some(p2));
        assert(spec_parse_paragraph(tp, 0) == Some((p2.out.push("</p>"@), 2int)));
        assert(("    "@ + "<ol>"@) =~= "    <ol>"@);
        assert(("    "@ + "</ol>"@) =~= "    </ol>"@);
        assert(("    "@ + ("    <li>"@ + a + "</li>"@)) =~= expected_item);
        assert(prefixed(ol, "    "@)[0] == "    "@ + ol[0]);
        assert(prefixed(ol, "    "@)[1] == "    "@ + ol[1]);
        assert(prefixed(ol, "    "@)[2] == "    "@ + ol[2]);
        assert(prefixed(ol, "    "@) =~= seq!["    <ol>"@, expected_item, "    </ol>"@]);
        assert(p2.out.push("</p>"@) =~= seq![
            "<p>"@,
            "    "@ + w,
            "    "@,
            "    <ol>"@,
            expected_item,
            "    </ol>"@,
            "</p>"@,
        ]);
    } else {
        assert(starts_with(item, "- "@)) by {
            assert(item.take(2) =~= "- "@);
        }
        assert(crate::lists::ul_end(tp, 2) == 2);
        assert(crate::lists::ul_end(tp, 1) == 2);
        assert(item.skip(2) =~= a);
        let (ul, k) = spec_parse_ul(tp, 1);
        assert(ul =~= seq!["<ul>"@, crate::lists::ul_item(item), "</ul>"@]);
        let p2 = ParaScan { ind: 2, out: p1.out.push("    "@) + prefixed(ul, "    "@), ..p1 };
        assert(para_step(tp, p1) == Some(p2));
        assert(para_run(tp, p2) == Some(p2));
        assert(para_run(tp, p1) == Some(p2));
        assert(para_run(tp, p0) == Some(p2));
        assert(spec_parse_paragraph(tp, 0) == Some((p2.out.push("</p>"@), 2int)));
        assert(("    "@ + "<ul>"@) =~= "    <ul>"@);
        assert(("    "@ + "</ul>"@) =~= "    </ul>"@);
        assert(("    "@ + ("    <li>"@ + a + "</li>"@)) =~= expected_item);
        assert(prefixed(ul, "    "@)[0] == "    "@ + ul[0]);
        assert(prefixed(ul, "    "@)[1] == "    "@ + ul[1]);
        assert(prefixed(ul, "    "@)[2] == "    "@ + ul[2]);
        assert(prefixed(ul, "    "@) =~= seq!["    <ul>"@, expected_item, "    </ul>"@]);
        assert(p2.out.push("</p>"@) =~= seq![
            "<p>"@,
            "    "@ + w,
            "    "@,
            "    <ul>"@,
            expected_item,
            "    </ul>"@,
            "</p>"@,
        ]);
    }
}

} // verus!
