//! Character classification and small text helpers shared by the converter.

use vstd::prelude::*;

verus! {

broadcast use vstd::string::group_string_axioms;

/// Trusted: `String::push` (std) appends `ch` to the end of `string`; this contract claims
/// that the characters afterwards are those before followed by `ch`, which the std
/// documentation of `push` states ("Appends the given char to the end of this String").
pub assume_specification[ String::push ](string: &mut String, ch: char)
    ensures
        final(string)@ == old(string)@.push(ch),
;

/// The Unicode `White_Space` property, as `char::is_whitespace` reports it.
pub open spec fn is_white_space(c: char) -> bool {
    ||| ('\t' <= c && c <= '\r')
    ||| c == ' '
    ||| c == '\u{85}'
    ||| c == '\u{a0}'
    ||| c == '\u{1680}'
    ||| ('\u{2000}' <= c && c <= '\u{200a}')
    ||| c == '\u{2028}'
    ||| c == '\u{2029}'
    ||| c == '\u{202f}'
    ||| c == '\u{205f}'
    ||| c == '\u{3000}'
}

pub open spec fn is_digit(c: char) -> bool {
    '0' <= c && c <= '9'
}

pub open spec fn is_upper(c: char) -> bool {
    'A' <= c && c <= 'Z'
}

pub open spec fn is_alpha(c: char) -> bool {
    is_upper(c) || ('a' <= c && c <= 'z')
}

/// Visible ASCII characters, `'!'` to `'~'`.
pub open spec fn is_graphic(c: char) -> bool {
    '!' <= c && c <= '~'
}

pub open spec fn to_lower(c: char) -> char {
    if is_upper(c) {
        ((c as u32) + 32) as char
    } else {
        c
    }
}

pub fn white_space(c: char) -> (b: bool)
    ensures
        b == is_white_space(c),
{
    ('\t' <= c && c <= '\r') || c == ' ' || c == '\u{85}' || c == '\u{a0}' || c == '\u{1680}' || (
    '\u{2000}' <= c && c <= '\u{200a}') || c == '\u{2028}' || c == '\u{2029}' || c == '\u{202f}'
        || c == '\u{205f}' || c == '\u{3000}'
}

pub fn digit(c: char) -> (b: bool)
    ensures
        b == is_digit(c),
{
    '0' <= c && c <= '9'
}

pub fn alpha(c: char) -> (b: bool)
    ensures
        b == is_alpha(c),
{
    ('A' <= c && c <= 'Z') || ('a' <= c && c <= 'z')
}

pub fn graphic(c: char) -> (b: bool)
    ensures
        b == is_graphic(c),
{
    '!' <= c && c <= '~'
}

pub fn lower(c: char) -> (r: char)
    ensures
        r == to_lower(c),
{
    if 'A' <= c && c <= 'Z' {
        let b: u8 = c as u8;
        let r = (b + 32) as char;
        assert(r == ((c as u32) + 32) as char);
        r
    } else {
        c
    }
}

/// End of the run of characters satisfying `p` that begins at `i`.
pub open spec fn span_end(s: Seq<char>, i: int, p: spec_fn(char) -> bool) -> int
    decreases s.len() - i,
{
    if 0 <= i < s.len() && p(s[i]) {
        span_end(s, i + 1, p)
    } else {
        i
    }
}

/// Start of the run of characters satisfying `p` that ends just before `j`.
pub open spec fn span_start(s: Seq<char>, j: int, p: spec_fn(char) -> bool) -> int
    decreases j,
{
    if 0 < j <= s.len() && p(s[j - 1]) {
        span_start(s, j - 1, p)
    } else {
        j
    }
}

pub proof fn lemma_span_end(s: Seq<char>, i: int, p: spec_fn(char) -> bool)
    requires
        0 <= i <= s.len(),
    ensures
        i <= span_end(s, i, p) <= s.len(),
        forall|j: int| i <= j < span_end(s, i, p) ==> #[trigger] p(s[j]),
        span_end(s, i, p) < s.len() ==> !p(s[span_end(s, i, p)]),
    decreases s.len() - i,
{
    if i < s.len() && p(s[i]) {
        lemma_span_end(s, i + 1, p);
    }
}

/// The run of characters satisfying `p` from `i` ends at `k` when all before `k` satisfy it
/// and the one at `k` does not.
pub proof fn lemma_span_end_exact(s: Seq<char>, i: int, k: int, p: spec_fn(char) -> bool)
    requires
        0 <= i <= k <= s.len(),
        forall|x: int| i <= x < k ==> #[trigger] p(s[x]),
        k == s.len() || !p(s[k]),
    ensures
        span_end(s, i, p) == k,
    decreases k - i,
{
    if i < k {
        lemma_span_end_exact(s, i + 1, k, p);
    }
}

pub proof fn lemma_span_start(s: Seq<char>, j: int, p: spec_fn(char) -> bool)
    requires
        0 <= j <= s.len(),
    ensures
        0 <= span_start(s, j, p) <= j,
        forall|k: int| span_start(s, j, p) <= k < j ==> #[trigger] p(s[k]),
        span_start(s, j, p) > 0 ==> !p(s[span_start(s, j, p) - 1]),
    decreases j,
{
    if 0 < j && p(s[j - 1]) {
        lemma_span_start(s, j - 1, p);
    }
}

pub open spec fn ws() -> spec_fn(char) -> bool {
    |c: char| is_white_space(c)
}

/// `s` without its leading white space.
pub open spec fn trim_start(s: Seq<char>) -> Seq<char> {
    s.skip(span_end(s, 0, ws()))
}

/// `s` without its trailing white space.
pub open spec fn trim_end(s: Seq<char>) -> Seq<char> {
    s.take(span_start(s, s.len() as int, ws()))
}

/// Every character of `s` is white space (so `s.trim()` is empty).
pub open spec fn all_white_space(s: Seq<char>) -> bool {
    forall|j: int| 0 <= j < s.len() ==> #[trigger] is_white_space(s[j])
}

pub open spec fn starts_with(s: Seq<char>, prefix: Seq<char>) -> bool {
    prefix.len() <= s.len() && s.take(prefix.len() as int) == prefix
}

pub open spec fn ends_with(s: Seq<char>, suffix: Seq<char>) -> bool {
    suffix.len() <= s.len() && s.skip(s.len() - suffix.len()) == suffix
}

/// The characters of each line.
pub open spec fn text_lines(lines: Seq<&str>) -> Seq<Seq<char>> {
    lines.map_values(|l: &str| l@)
}

/// The characters of each string.
pub open spec fn strings_view(v: Seq<String>) -> Seq<Seq<char>> {
    v.map_values(|s: String| s@)
}

/// The characters of `s`, in order.
pub fn chars_of(s: &str) -> (v: Vec<char>)
    ensures
        v@ == s@,
{
    let mut v: Vec<char> = Vec::new();
    for c in it: s.chars()
        invariant
            it.seq() == s@,
            v@ == it.seq().take(it.index()),
    {
        v.push(c);
        proof {
            assert(v@ =~= it.seq().take(it.index() + 1));
        }
    }
    proof {
        assert(v@ =~= s@);
    }
    v
}

/// Index just past the leading white space of `s`.
pub fn leading_white_space(s: &Vec<char>) -> (k: usize)
    ensures
        k == span_end(s@, 0, ws()),
{
    let mut k: usize = 0;
    while k < s.len() && white_space(s[k])
        invariant
            k <= s.len(),
            span_end(s@, k as int, ws()) == span_end(s@, 0, ws()),
        decreases s.len() - k,
    {
        k = k + 1;
    }
    k
}

/// Index at which the trailing white space of `s` begins.
pub fn trailing_white_space(s: &Vec<char>) -> (k: usize)
    ensures
        k == span_start(s@, s@.len() as int, ws()),
{
    let mut k: usize = s.len();
    while k > 0 && white_space(s[k - 1])
        invariant
            k <= s.len(),
            span_start(s@, k as int, ws()) == span_start(s@, s@.len() as int, ws()),
        decreases k,
    {
        k = k - 1;
    }
    k
}

/// Whether every character of `s` is white space.
pub fn is_blank(s: &Vec<char>) -> (b: bool)
    ensures
        b == all_white_space(s@),
{
    let mut i: usize = 0;
    while i < s.len()
        invariant
            i <= s.len(),
            forall|j: int| 0 <= j < i ==> #[trigger] is_white_space(s@[j]),
        decreases s.len() - i,
    {
        if !white_space(s[i]) {
            return false;
        }
        i = i + 1;
    }
    true
}

/// Whether `s` begins with the characters of `prefix`.
pub fn has_prefix(s: &Vec<char>, prefix: &str) -> (b: bool)
    ensures
        b == starts_with(s@, prefix@),
{
    let p = chars_of(prefix);
    if p.len() > s.len() {
        return false;
    }
    let mut i: usize = 0;
    while i < p.len()
        invariant
            p@ == prefix@,
            p.len() <= s.len(),
            i <= p.len(),
            forall|j: int| 0 <= j < i ==> s@[j] == p@[j],
        decreases p.len() - i,
    {
        if s[i] != p[i] {
            assert(s@.take(p.len() as int)[i as int] != p@[i as int]);
            return false;
        }
        i = i + 1;
    }
    assert(s@.take(p.len() as int) =~= p@);
    true
}

/// Whether `s` ends with the characters of `suffix`.
pub fn has_suffix(s: &Vec<char>, suffix: &str) -> (b: bool)
    ensures
        b == ends_with(s@, suffix@),
{
    let p = chars_of(suffix);
    if p.len() > s.len() {
        return false;
    }
    let off: usize = s.len() - p.len();
    let mut i: usize = 0;
    while i < p.len()
        invariant
            p@ == suffix@,
            off + p.len() == s.len(),
            i <= p.len(),
            forall|j: int| 0 <= j < i ==> s@[off + j] == p@[j],
        decreases p.len() - i,
    {
        if s[off + i] != p[i] {
            assert(s@.skip(off as int)[i as int] != p@[i as int]);
            return false;
        }
        i = i + 1;
    }
    assert(s@.skip(off as int) =~= p@);
    true
}

/// A string holding the characters `s[from..to]`.
pub fn string_of(s: &Vec<char>, from: usize, to: usize) -> (r: String)
    requires
        from <= to <= s.len(),
    ensures
        r@ == s@.subrange(from as int, to as int),
{
    let mut r = String::new();
    let mut i: usize = from;
    while i < to
        invariant
            from <= i <= to <= s.len(),
            r@ == s@.subrange(from as int, i as int),
        decreases to - i,
    {
        r.push(s[i]);
        assert(r@ =~= s@.subrange(from as int, i + 1));
        i = i + 1;
    }
    r
}

/// The lines of `lines` from index `start` on.
pub fn tail_lines<'a>(lines: &Vec<&'a str>, start: usize) -> (r: Vec<&'a str>)
    requires
        start <= lines.len(),
    ensures
        r@ == lines@.skip(start as int),
{
    let mut r: Vec<&'a str> = Vec::new();
    let mut i: usize = start;
    while i < lines.len()
        invariant
            start <= i <= lines.len(),
            r@ == lines@.subrange(start as int, i as int),
        decreases lines.len() - i,
    {
        r.push(lines[i]);
        assert(r@ =~= lines@.subrange(start as int, i + 1));
        i = i + 1;
    }
    assert(r@ =~= lines@.skip(start as int));
    r
}

/// Whether `s` holds exactly the characters of `t`.
pub fn equals(s: &Vec<char>, t: &str) -> (b: bool)
    ensures
        b == (s@ == t@),
{
    let v = chars_of(t);
    if v.len() != s.len() {
        return false;
    }
    let mut i: usize = 0;
    while i < v.len()
        invariant
            v@ == t@,
            v.len() == s.len(),
            i <= v.len(),
            forall|j: int| 0 <= j < i ==> s@[j] == v@[j],
        decreases v.len() - i,
    {
        if s[i] != v[i] {
            return false;
        }
        i = i + 1;
    }
    assert(s@ =~= v@);
    true
}

/// Appends `line` to `out`.
pub fn push_line(out: &mut Vec<String>, line: String)
    ensures
        strings_view(final(out)@) == strings_view(old(out)@).push(line@),
{
    let ghost l = line@;
    out.push(line);
    assert(strings_view(out@) =~= strings_view(old(out)@).push(l));
}

/// `lines`, each preceded by `prefix`.
pub open spec fn prefixed(lines: Seq<Seq<char>>, prefix: Seq<char>) -> Seq<Seq<char>> {
    lines.map_values(|l: Seq<char>| prefix + l)
}

/// Appends each of `lines`, preceded by `prefix`, to `out`.
pub fn push_prefixed(out: &mut Vec<String>, lines: &Vec<String>, prefix: &str)
    ensures
        strings_view(final(out)@) == strings_view(old(out)@) + prefixed(
            strings_view(lines@),
            prefix@,
        ),
{
    let mut i: usize = 0;
    while i < lines.len()
        invariant
            i <= lines.len(),
            strings_view(out@) == strings_view(old(out)@) + prefixed(
                strings_view(lines@.take(i as int)),
                prefix@,
            ),
        decreases lines.len() - i,
    {
        let mut l = String::from_str(prefix);
        l.append(lines[i].as_str());
        push_line(out, l);
        assert(prefixed(strings_view(lines@.take(i + 1)), prefix@) =~= prefixed(
            strings_view(lines@.take(i as int)),
            prefix@,
        ).push(prefix@ + lines@[i as int]@));
        i = i + 1;
    }
    assert(lines@.take(lines.len() as int) =~= lines@);
}

/// Appends all of `lines` to `out`.
pub fn extend_lines(out: &mut Vec<String>, lines: Vec<String>)
    ensures
        strings_view(final(out)@) == strings_view(old(out)@) + strings_view(lines@),
{
    let mut i: usize = 0;
    let mut rest = lines;
    let ghost all = lines@;
    while i < rest.len()
        invariant
            rest@ == all,
            i <= rest.len(),
            strings_view(out@) == strings_view(old(out)@) + strings_view(all.take(i as int)),
        decreases rest.len() - i,
    {
        let l = rest[i].clone();
        push_line(out, l);
        assert(strings_view(all.take(i + 1)) =~= strings_view(all.take(i as int)).push(all[i as int]@));
        i = i + 1;
    }
    assert(all.take(rest.len() as int) =~= all);
}

/// The lines of `lines` from index `from` up to `to`.
pub fn slice_lines<'a>(lines: &Vec<&'a str>, from: usize, to: usize) -> (r: Vec<&'a str>)
    requires
        from <= to <= lines.len(),
    ensures
        r@ == lines@.subrange(from as int, to as int),
{
    let mut r: Vec<&'a str> = Vec::new();
    let mut i: usize = from;
    while i < to
        invariant
            from <= i <= to <= lines.len(),
            r@ == lines@.subrange(from as int, i as int),
        decreases to - i,
    {
        r.push(lines[i]);
        assert(r@ =~= lines@.subrange(from as int, i + 1));
        i = i + 1;
    }
    r
}

} // verus!
