//! Inline links `[text](target)` and images `![alt](target)`.

use vstd::prelude::*;
use crate::chars::chars_of;

verus! {

/// The state of the scan for a link: the text and target read so far and which part is
/// being read.
pub struct LinkScan {
    pub text: Seq<char>,
    pub link: Seq<char>,
    pub writing_text: bool,
    pub writing_link: bool,
    pub did_write_text: bool,
    pub is_link: bool,
    pub escaped: bool,
}

pub open spec fn link_scan_start() -> LinkScan {
    LinkScan {
        text: seq![],
        link: seq![],
        writing_text: false,
        writing_link: false,
        did_write_text: false,
        is_link: false,
        escaped: false,
    }
}

/// Scans `line` from index `i`. A `'\\'` escapes the next character; the first unescaped
/// `'['` opens the text, the next unescaped `']'` closes it, a later unescaped `'('` opens the
/// target and the next unescaped `')'` ends the scan. `None` where the text is closed by the
/// last character of the line (the scan then looks one character past the end).
pub open spec fn link_run(line: Seq<char>, i: int, st: LinkScan) -> Option<LinkScan>
    decreases line.len() - i,
{
    if i < 0 || i >= line.len() {
        Some(st)
    } else {
        let c = line[i];
        if c == '\\' && !st.escaped {
            link_run(line, i + 1, LinkScan { escaped: true, ..st })
        } else if c == '[' && !st.escaped && !st.writing_text && !st.did_write_text {
            link_run(line, i + 1, LinkScan { writing_text: true, ..st })
        } else if c == ']' && !st.escaped && st.writing_text && i == line.len() - 1 {
            None
        } else {
            let st1 = if c == ']' && !st.escaped && st.writing_text {
                LinkScan { writing_text: false, did_write_text: true, ..st }
            } else {
                st
            };
            if c == '(' && !st1.escaped && st1.did_write_text && !st1.writing_link {
                link_run(line, i + 1, LinkScan { writing_link: true, is_link: true, ..st1 })
            } else if c == ')' && !st1.escaped && st1.writing_link {
                Some(st1)
            } else {
                let st2 = if st1.writing_text {
                    LinkScan { text: st1.text.push(c), ..st1 }
                } else if st1.writing_link {
                    LinkScan { link: st1.link.push(c), ..st1 }
                } else {
                    st1
                };
                link_run(line, i + 1, LinkScan { escaped: false, ..st2 })
            }
        }
    }
}

/// The text, the target, and whether a target was opened; `None` where the scan fails.
pub open spec fn spec_parse_link(line: Seq<char>) -> Option<(Seq<char>, Seq<char>, bool)> {
    match link_run(line, 0, link_scan_start()) {
        Some(st) => Some((st.text, st.link, st.is_link)),
        None => None,
    }
}

/// Reads the first link of `line`: its text, its target, and whether it has a target.
pub fn parse_link(line: &str) -> (r: (String, String, bool))
    requires
        spec_parse_link(line@) is Some,
    ensures
        spec_parse_link(line@) == Some((r.0@, r.1@, r.2)),
{
    let chars = chars_of(line);
    let mut text = String::new();
    let mut link = String::new();
    let mut writing_text = false;
    let mut writing_link = false;
    let mut did_write_text = false;
    let mut is_link = false;
    let mut escaped = false;
    let mut closed = false;
    let mut i: usize = 0;
    while i < chars.len() && !closed
        invariant
            chars@ == line@,
            i <= chars.len(),
            link_run(line@, 0, link_scan_start()) is Some,
            !closed ==> link_run(line@, i as int, LinkScan {
                text: text@,
                link: link@,
                writing_text,
                writing_link,
                did_write_text,
                is_link,
                escaped,
            }) == link_run(line@, 0, link_scan_start()),
            closed ==> link_run(line@, 0, link_scan_start()) == Some(LinkScan {
                text: text@,
                link: link@,
                writing_text,
                writing_link,
                did_write_text,
                is_link,
                escaped,
            }),
        decreases chars.len() - i + (if closed { 0int } else { 1int }),
    {
        let c = chars[i];
        if c == '\\' && !escaped {
            escaped = true;
            i = i + 1;
            continue ;
        }
        if c == '[' && !escaped && !writing_text && !did_write_text {
            writing_text = true;
            i = i + 1;
            continue ;
        }
        if c == ']' && !escaped && writing_text {
            writing_text = false;
            did_write_text = true;
        }
        if c == '(' && !escaped && did_write_text && !writing_link {
            writing_link = true;
            is_link = true;
            i = i + 1;
            continue ;
        }
        if c == ')' && !escaped && writing_link {
            closed = true;
            continue ;
        }
        if writing_text {
            text.push(c);
        } else if writing_link {
            link.push(c);
        }
        escaped = false;
        i = i + 1;
    }
    (text, link, is_link)
}

proof fn lemma_link_run_no_bracket(line: Seq<char>, i: int, e: bool)
    requires
        0 <= i <= line.len(),
        forall|j: int| 0 <= j < line.len() ==> line[j] != '[',
    ensures
        link_run(line, i, LinkScan { escaped: e, ..link_scan_start() }) matches Some(st) && st.text
            == Seq::<char>::empty() && st.link == Seq::<char>::empty() && !st.is_link,
    decreases line.len() - i,
{
    if i < line.len() {
        if line[i] == '\\' && !e {
            lemma_link_run_no_bracket(line, i + 1, true);
        } else {
            lemma_link_run_no_bracket(line, i + 1, false);
        }
    }
}

/// A line without `'['` holds no link: the scan succeeds with no text and no target.
pub proof fn law_no_bracket_no_link(line: Seq<char>)
    requires
        forall|j: int| 0 <= j < line.len() ==> line[j] != '[',
    ensures
        spec_parse_link(line) == Some((Seq::<char>::empty(), Seq::<char>::empty(), false)),
{
    lemma_link_run_no_bracket(line, 0, false);
    assert(LinkScan { escaped: false, ..link_scan_start() } == link_scan_start());
}

/// A character with no meaning to the link scan.
pub open spec fn is_link_plain(c: char) -> bool {
    c != '\\' && c != '[' && c != ']' && c != '(' && c != ')'
}

proof fn lemma_link_segment(line: Seq<char>, i: int, j: int, st: LinkScan)
    requires
        0 <= i <= j <= line.len(),
        !st.escaped,
        forall|k: int| i <= k < j ==> #[trigger] is_link_plain(line[k]),
    ensures
        link_run(line, i, st) == link_run(
            line,
            j,
            LinkScan {
                text: if st.writing_text {
                    st.text + line.subrange(i, j)
                } else {
                    st.text
                },
                link: if !st.writing_text && st.writing_link {
                    st.link + line.subrange(i, j)
                } else {
                    st.link
                },
                ..st
            },
        ),
    decreases j - i,
{
    if i < j {
        assert(is_link_plain(line[i]));
        let st2 = if st.writing_text {
            LinkScan { text: st.text.push(line[i]), ..st }
        } else if st.writing_link {
            LinkScan { link: st.link.push(line[i]), ..st }
        } else {
            st
        };
        assert(link_run(line, i, st) == link_run(line, i + 1, st2));
        lemma_link_segment(line, i + 1, j, st2);
        assert(st.text.push(line[i]) + line.subrange(i + 1, j) =~= st.text + line.subrange(i, j));
        assert(st.link.push(line[i]) + line.subrange(i + 1, j) =~= st.link + line.subrange(i, j));
    } else {
        assert(st.text + line.subrange(i, j) =~= st.text);
        assert(st.link + line.subrange(i, j) =~= st.link);
    }
}

/// A line whose first `'['` opens `[t](u)`, where `t` and `u` hold none of `'\\'`, `'['`,
/// `']'`, `'('`, `')'` (nor does what comes before), yields the text `t` and the target `u`,
/// every character kept, whatever follows.
pub proof fn law_link_text_and_target(pre: Seq<char>, t: Seq<char>, u: Seq<char>, rest: Seq<char>)
    requires
        forall|k: int| 0 <= k < pre.len() ==> #[trigger] is_link_plain(pre[k]),
        forall|k: int| 0 <= k < t.len() ==> #[trigger] is_link_plain(t[k]),
        forall|k: int| 0 <= k < u.len() ==> #[trigger] is_link_plain(u[k]),
    ensures
        spec_parse_link(pre + seq!['['] + t + seq![']', '('] + u + seq![')'] + rest) == Some(
            (t, u, true),
        ),
{
    let line = pre + seq!['['] + t + seq![']', '('] + u + seq![')'] + rest;
    let a = pre.len() as int;
    let n = t.len() as int;
    let m = u.len() as int;
    assert(line[a] == '[');
    assert(line[a + n + 1] == ']');
    assert(line[a + n + 2] == '(');
    assert(line[a + n + m + 3] == ')');
    let s0 = link_scan_start();
    assert forall|k: int| 0 <= k < a implies #[trigger] is_link_plain(line[k]) by {
        assert(line[k] == pre[k]);
    }
    lemma_link_segment(line, 0, a, s0);
    let s1 = LinkScan { writing_text: true, ..s0 };
    assert(link_run(line, a, s0) == link_run(line, a + 1, s1));
    assert forall|k: int| a + 1 <= k < a + n + 1 implies #[trigger] is_link_plain(line[k]) by {
        assert(line[k] == t[k - a - 1]);
    }
    lemma_link_segment(line, a + 1, a + n + 1, s1);
    assert(line.subrange(a + 1, a + n + 1) =~= t);
    let s2 = LinkScan { text: t, ..s1 };
    let s3 = LinkScan { writing_text: false, did_write_text: true, ..s2 };
    assert(link_run(line, a + n + 1, s2) == link_run(line, a + n + 2, s3));
    let s4 = LinkScan { writing_link: true, is_link: true, ..s3 };
    assert(link_run(line, a + n + 2, s3) == link_run(line, a + n + 3, s4));
    assert forall|k: int| a + n + 3 <= k < a + n + m + 3 implies #[trigger] is_link_plain(line[k]) by {
        assert(line[k] == u[k - a - n - 3]);
    }
    lemma_link_segment(line, a + n + 3, a + n + m + 3, s4);
    assert(line.subrange(a + n + 3, a + n + m + 3) =~= u);
    let s5 = LinkScan { link: u, ..s4 };
    assert(link_run(line, a + n + m + 3, s5) == Some(s5));
}

} // verus!
