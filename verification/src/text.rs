//! Headings and the anchors derived from their text.

use vstd::prelude::*;
use crate::chars::{
    alpha, chars_of, graphic, is_alpha, is_graphic, is_white_space, lower, span_end, to_lower,
    white_space,
};

verus! {

broadcast use vstd::string::group_string_axioms;

/// What one character of a heading becomes in its anchor: white space becomes `'-'`,
/// visible ASCII is lowercased, everything else is dropped.
pub open spec fn normalise_char(c: char) -> Seq<char> {
    if is_white_space(c) {
        seq!['-']
    } else if is_alpha(c) {
        seq![to_lower(c)]
    } else if is_graphic(c) {
        seq![to_lower(c)]
    } else {
        seq![]
    }
}

pub open spec fn spec_normalise(s: Seq<char>) -> Seq<char>
    decreases s.len(),
{
    if s.len() == 0 {
        seq![]
    } else {
        spec_normalise(s.drop_last()) + normalise_char(s.last())
    }
}

/// The anchor (`id`) of a heading with text `string`.
pub fn normalise_string(string: &String) -> (r: String)
    ensures
        r@ == spec_normalise(string@),
{
    let s = chars_of(string.as_str());
    let mut out = String::new();
    let mut i: usize = 0;
    while i < s.len()
        invariant
            s@ == string@,
            i <= s.len(),
            out@ == spec_normalise(s@.take(i as int)),
        decreases s.len() - i,
    {
        let c = s[i];
        let ghost before = out@;
        if white_space(c) {
            out.push('-');
        } else if alpha(c) {
            out.push(lower(c));
        } else if graphic(c) {
            out.push(lower(c));
        }
        proof {
            assert(s@.take(i + 1).drop_last() =~= s@.take(i as int));
            assert(out@ =~= before + normalise_char(c));
        }
        i = i + 1;
    }
    assert(s@.take(s.len() as int) =~= s@);
    out
}

pub open spec fn hashes() -> spec_fn(char) -> bool {
    |c: char| c == '#'
}

/// Number of `'#'` that begin the line.
pub open spec fn header_level(s: Seq<char>) -> int {
    span_end(s, 0, hashes())
}

/// The lines on which `get_header` returns: at most 255 leading `'#'`, followed by an
/// ASCII character (the text is cut one byte after the `'#'`).
pub open spec fn header_ok(s: Seq<char>) -> bool {
    let h = header_level(s);
    h <= 255 && h < s.len() && (s[h] as u32) < 0x80
}

/// The level, whether the line is a heading (the `'#'` are followed by a space), and the text
/// after the character that follows the `'#'`.
pub open spec fn spec_get_header(s: Seq<char>) -> (u8, bool, Seq<char>) {
    let h = header_level(s);
    (h as u8, h < s.len() && s[h] == ' ', s.skip(h + 1))
}

/// Reads a heading line such as `"## Title"`.
pub fn get_header(line: &str) -> (r: (u8, bool, String))
    requires
        header_ok(line@),
    ensures
        (r.0, r.1, r.2@) == spec_get_header(line@),
{
    let s = chars_of(line);
    let mut hashtags: u8 = 0;
    let mut k: usize = 0;
    while k < s.len() && s[k] == '#'
        invariant
            s@ == line@,
            k <= s.len(),
            k == hashtags,
            header_ok(s@),
            span_end(s@, k as int, hashes()) == header_level(s@),
        decreases s.len() - k,
    {
        proof {
            crate::chars::lemma_span_end(s@, k + 1, hashes());
        }
        hashtags = hashtags + 1;
        k = k + 1;
    }
    let is_header = k < s.len() && s[k] == ' ';
    let text = line.substring_char(k + 1, s.len()).to_owned();
    assert(text@ =~= line@.skip(k + 1));
    (hashtags, is_header, text)
}

proof fn lemma_normalise_concat(a: Seq<char>, b: Seq<char>)
    ensures
        spec_normalise(a + b) == spec_normalise(a) + spec_normalise(b),
    decreases b.len(),
{
    if b.len() == 0 {
        assert(a + b =~= a);
        assert(spec_normalise(a) + spec_normalise(b) =~= spec_normalise(a));
    } else {
        lemma_normalise_concat(a, b.drop_last());
        assert((a + b).drop_last() =~= a + b.drop_last());
        assert((a + b).last() == b.last());
        assert(spec_normalise(a) + spec_normalise(b) =~= spec_normalise(a) + spec_normalise(
            b.drop_last(),
        ) + normalise_char(b.last()));
    }
}

proof fn lemma_normalise_char_fixed(c: char)
    ensures
        spec_normalise(normalise_char(c)) == normalise_char(c),
        forall|j: int|
            0 <= j < normalise_char(c).len() ==> is_graphic(#[trigger] normalise_char(c)[j])
                && !crate::chars::is_upper(normalise_char(c)[j]),
{
    let n = normalise_char(c);
    if n.len() == 1 {
        let d = n[0];
        assert(n.drop_last() =~= seq![]);
        assert(spec_normalise(seq![]) =~= seq![]);
        assert(is_graphic(d) && !crate::chars::is_upper(d) && !is_white_space(d) && to_lower(d) == d);
        assert(normalise_char(d) =~= seq![d]);
    } else {
        assert(n =~= seq![]);
    }
}

/// A heading anchor is made of visible ASCII with no uppercase letters, and is never longer
/// than the heading.
pub proof fn law_normalise_charset(s: Seq<char>)
    ensures
        spec_normalise(s).len() <= s.len(),
        forall|j: int|
            0 <= j < spec_normalise(s).len() ==> is_graphic(#[trigger] spec_normalise(s)[j])
                && !crate::chars::is_upper(spec_normalise(s)[j]),
    decreases s.len(),
{
    if s.len() > 0 {
        law_normalise_charset(s.drop_last());
        lemma_normalise_char_fixed(s.last());
        let a = spec_normalise(s.drop_last());
        let b = normalise_char(s.last());
        assert forall|j: int| 0 <= j < spec_normalise(s).len() implies is_graphic(
            #[trigger] spec_normalise(s)[j],
        ) && !crate::chars::is_upper(spec_normalise(s)[j]) by {
            if j >= a.len() {
                assert(spec_normalise(s)[j] == b[j - a.len()]);
            } else {
                assert(spec_normalise(s)[j] == a[j]);
            }
        }
    }
}

/// Normalising a heading anchor again leaves it as it is.
pub proof fn law_normalise_idempotent(s: Seq<char>)
    ensures
        spec_normalise(spec_normalise(s)) == spec_normalise(s),
    decreases s.len(),
{
    if s.len() > 0 {
        law_normalise_idempotent(s.drop_last());
        lemma_normalise_char_fixed(s.last());
        lemma_normalise_concat(spec_normalise(s.drop_last()), normalise_char(s.last()));
    }
}

/// A heading line is its level's `'#'`, a space, and the heading text.
pub proof fn law_heading_shape(s: Seq<char>)
    requires
        header_ok(s),
    ensures
        ({
            let (level, is_header, text) = spec_get_header(s);
            is_header ==> s == Seq::new(level as nat, |j: int| '#') + seq![' '] + text
        }),
{
    let h = header_level(s);
    crate::chars::lemma_span_end(s, 0, hashes());
    let (level, is_header, text) = spec_get_header(s);
    if is_header {
        assert(level == h);
        assert forall|j: int| 0 <= j < h implies s[j] == '#' by {
            assert((hashes())(s[j]));
        }
        assert(s =~= Seq::new(level as nat, |j: int| '#') + seq![' '] + text);
    }
}

/// In a heading made of visible ASCII (`'!'` to `'~'`) and white space, the anchor keeps every
/// character in place: white space becomes `'-'`, an uppercase letter its lowercase letter, and
/// every other visible character (digits and punctuation included) stays as it is.
pub proof fn law_normalise_keeps_visible_ascii(s: Seq<char>)
    requires
        forall|j: int|
            0 <= j < s.len() ==> ('!' <= #[trigger] s[j] && s[j] <= '~') || is_white_space(s[j]),
    ensures
        spec_normalise(s).len() == s.len(),
        forall|j: int|
            0 <= j < s.len() ==> #[trigger] spec_normalise(s)[j] == (if is_white_space(s[j]) {
                '-'
            } else if 'A' <= s[j] && s[j] <= 'Z' {
                ((s[j] as u32) + 32) as char
            } else {
                s[j]
            }),
    decreases s.len(),
{
    if s.len() > 0 {
        let p = s.drop_last();
        assert forall|j: int|
            0 <= j < p.len() implies ('!' <= #[trigger] p[j] && p[j] <= '~') || is_white_space(
            p[j],
        ) by {
            assert(p[j] == s[j]);
        }
        law_normalise_keeps_visible_ascii(p);
        let c = s.last();
        assert(('!' <= s[s.len() - 1] && s[s.len() - 1] <= '~') || is_white_space(s[s.len() - 1]));
        assert(normalise_char(c).len() == 1);
        assert forall|j: int| 0 <= j < s.len() implies #[trigger] spec_normalise(s)[j] == (
        if is_white_space(s[j]) {
            '-'
        } else if 'A' <= s[j] && s[j] <= 'Z' {
            ((s[j] as u32) + 32) as char
        } else {
            s[j]
        }) by {
            if j < p.len() {
                assert(spec_normalise(s)[j] == spec_normalise(p)[j]);
                assert(p[j] == s[j]);
            } else {
                assert(spec_normalise(s)[j] == normalise_char(c)[0]);
            }
        }
    }
}

} // verus!
