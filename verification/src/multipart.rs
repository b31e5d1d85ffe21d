//! The text side of an MJPEG-over-HTTP stream (`multipart/x-mixed-replace`):
//! the boundary named in the Content-Type header, the boundary lines between
//! parts and the headers of a part.
use vstd::prelude::*;
use crate::text::{chars_of, push_range, string_of};

verus! {

/// Unicode `White_Space`, as `char::is_whitespace` tests it.
pub open spec fn is_ws(c: char) -> bool {
    ||| ('\u{9}' <= c && c <= '\u{d}')
    ||| c == ' '
    ||| c == '\u{85}'
    ||| c == '\u{a0}'
    ||| c == '\u{1680}'
    ||| ('\u{2000}' <= c && c <= '\u{200a}')
    ||| c == '\u{2028}'
    ||| c == '\u{2029}'
    ||| c == '\u{202f}'
    ||| c == '\u{205f}'
    ||| c == '\u{3000}'
}

/// `char::is_whitespace`.
pub fn is_whitespace(c: char) -> (b: bool)
    ensures
        b == is_ws(c),
{
    ('\u{9}' <= c && c <= '\u{d}') || c == ' ' || c == '\u{85}' || c == '\u{a0}' || c
        == '\u{1680}' || ('\u{2000}' <= c && c <= '\u{200a}') || c == '\u{2028}' || c
        == '\u{2029}' || c == '\u{202f}' || c == '\u{205f}' || c == '\u{3000}'
}

/// `s` without the leading characters for which `p` holds.
pub open spec fn trim_start_by(s: Seq<char>, p: spec_fn(char) -> bool) -> Seq<char>
    decreases s.len(),
{
    if s.len() > 0 && p(s[0]) {
        trim_start_by(s.drop_first(), p)
    } else {
        s
    }
}

/// `s` without the trailing characters for which `p` holds.
pub open spec fn trim_end_by(s: Seq<char>, p: spec_fn(char) -> bool) -> Seq<char>
    decreases s.len(),
{
    if s.len() > 0 && p(s.last()) {
        trim_end_by(s.drop_last(), p)
    } else {
        s
    }
}

/// The character classes that the stream's text is trimmed by: whitespace (0),
/// the double quote (1) and the line-break characters `\r` and `\n` (2).
pub open spec fn trimmed_class(kind: u8) -> spec_fn(char) -> bool {
    if kind == 0 {
        |c: char| is_ws(c)
    } else if kind == 1 {
        |c: char| c == '"'
    } else {
        |c: char| c == '\r' || c == '\n'
    }
}

/// `str::trim`: without leading and trailing whitespace.
pub open spec fn trim(s: Seq<char>) -> Seq<char> {
    trim_end_by(trim_start_by(s, trimmed_class(0)), trimmed_class(0))
}

/// `str::trim_matches('"')`.
pub open spec fn trim_quotes(s: Seq<char>) -> Seq<char> {
    trim_end_by(trim_start_by(s, trimmed_class(1)), trimmed_class(1))
}

fn in_class(c: char, kind: u8) -> (b: bool)
    ensures
        b == trimmed_class(kind)(c),
{
    if kind == 0 {
        is_whitespace(c)
    } else if kind == 1 {
        c == '"'
    } else {
        c == '\r' || c == '\n'
    }
}

/// Where `v[from..to]` starts once its leading characters of class `kind`
/// are dropped.
fn trim_start_index(v: &Vec<char>, from: usize, to: usize, kind: u8) -> (a: usize)
    requires
        from <= to <= v@.len(),
    ensures
        from <= a <= to,
        v@.subrange(a as int, to as int) == trim_start_by(
            v@.subrange(from as int, to as int),
            trimmed_class(kind),
        ),
{
    let mut a = from;
    while a < to && in_class(v[a], kind)
        invariant
            from <= a <= to,
            to <= v@.len(),
            trim_start_by(v@.subrange(from as int, to as int), trimmed_class(kind))
                == trim_start_by(v@.subrange(a as int, to as int), trimmed_class(kind)),
        decreases to - a,
    {
        assert(v@.subrange(a as int, to as int).drop_first() =~= v@.subrange(a + 1, to as int));
        a = a + 1;
    }
    a
}

/// Where `v[from..to]` ends once its trailing characters of class `kind` are
/// dropped.
fn trim_end_index(v: &Vec<char>, from: usize, to: usize, kind: u8) -> (b: usize)
    requires
        from <= to <= v@.len(),
    ensures
        from <= b <= to,
        v@.subrange(from as int, b as int) == trim_end_by(
            v@.subrange(from as int, to as int),
            trimmed_class(kind),
        ),
{
    let mut b = to;
    while b > from && in_class(v[b - 1], kind)
        invariant
            from <= b <= to,
            to <= v@.len(),
            trim_end_by(v@.subrange(from as int, to as int), trimmed_class(kind))
                == trim_end_by(v@.subrange(from as int, b as int), trimmed_class(kind)),
        decreases b - from,
    {
        assert(v@.subrange(from as int, b as int).drop_last() =~= v@.subrange(
            from as int,
            b - 1,
        ));
        b = b - 1;
    }
    b
}

/// Whether `v[from..to]` equals `w`.
fn range_equals(v: &Vec<char>, from: usize, to: usize, w: &Vec<char>) -> (b: bool)
    requires
        from <= to <= v@.len(),
    ensures
        b == (v@.subrange(from as int, to as int) == w@),
{
    if to - from != w.len() {
        return false;
    }
    let mut i: usize = 0;
    while i < w.len()
        invariant
            from <= to <= v@.len(),
            to - from == w@.len(),
            i <= w@.len(),
            forall|j: int| 0 <= j < i ==> v@[from + j] == w@[j],
        decreases w@.len() - i,
    {
        if v[from + i] != w[i] {
            assert(v@.subrange(from as int, to as int)[i as int] != w@[i as int]);
            return false;
        }
        i = i + 1;
    }
    assert(v@.subrange(from as int, to as int) =~= w@);
    true
}

// ---------------------------------------------------------------------------
// The boundary parameter of the Content-Type header.

/// `boundary=`.
pub open spec fn boundary_key() -> Seq<char> {
    seq!['b', 'o', 'u', 'n', 'd', 'a', 'r', 'y', '=']
}

/// `--`, which precedes the boundary on a boundary line and follows it on the
/// last one.
pub open spec fn dashes() -> Seq<char> {
    seq!['-', '-']
}

/// What one `;`-separated piece of a Content-Type header gives: when the
/// trimmed piece starts with `boundary=` and the value after it, trimmed and
/// without surrounding double quotes, is not empty, that value with `--` in
/// front.
pub open spec fn boundary_of_piece(piece: Seq<char>) -> Option<Seq<char>> {
    let t = trim(piece);
    if t.len() >= 9 && t.take(9) == boundary_key() {
        let val = trim_quotes(trim(t.skip(9)));
        if val.len() > 0 {
            Some(dashes() + val)
        } else {
            None
        }
    } else {
        None
    }
}

/// The length of the first `;`-separated piece of `s`.
pub open spec fn piece_len(s: Seq<char>) -> nat
    decreases s.len(),
{
    if s.len() == 0 || s[0] == ';' {
        0
    } else {
        1 + piece_len(s.drop_first())
    }
}

/// The boundary that the first piece of `s` to give one gives, in the order
/// in which `str::split(';')` hands out the pieces.
pub open spec fn boundary_param(s: Seq<char>) -> Option<Seq<char>>
    decreases s.len(),
{
    let k = piece_len(s);
    match boundary_of_piece(s.take(k as int)) {
        Some(b) => Some(b),
        None => if k < s.len() {
            boundary_param(s.skip(k + 1 as int))
        } else {
            None
        },
    }
}

pub proof fn lemma_piece_len(s: Seq<char>, k: int)
    requires
        0 <= k <= s.len(),
        forall|i: int| 0 <= i < k ==> s[i] != ';',
        k == s.len() || s[k] == ';',
    ensures
        piece_len(s) == k,
    decreases k,
{
    if k > 0 {
        lemma_piece_len(s.drop_first(), k - 1);
    }
}

fn has_boundary_key(v: &Vec<char>, a: usize, b: usize) -> (r: bool)
    requires
        a <= b <= v@.len(),
    ensures
        r == (b - a >= 9 && v@.subrange(a as int, b as int).take(9) == boundary_key()),
{
    if b - a < 9 {
        return false;
    }
    let r = v[a] == 'b' && v[a + 1] == 'o' && v[a + 2] == 'u' && v[a + 3] == 'n' && v[a + 4]
        == 'd' && v[a + 5] == 'a' && v[a + 6] == 'r' && v[a + 7] == 'y' && v[a + 8] == '=';
    let ghost t = v@.subrange(a as int, b as int).take(9);
    if r {
        assert(t =~= boundary_key());
    } else {
        assert(t != boundary_key()) by {
            if t == boundary_key() {
                assert(t[0] == 'b' && t[1] == 'o' && t[2] == 'u' && t[3] == 'n' && t[4] == 'd'
                    && t[5] == 'a' && t[6] == 'r' && t[7] == 'y' && t[8] == '=');
            }
        }
    }
    r
}

/// The boundary of `v[from..to]`, one piece of a Content-Type header.
fn piece_boundary(v: &Vec<char>, from: usize, to: usize) -> (r: Option<Vec<char>>)
    requires
        from <= to <= v@.len(),
    ensures
        match r {
            Some(b) => boundary_of_piece(v@.subrange(from as int, to as int)) == Some(b@),
            None => boundary_of_piece(v@.subrange(from as int, to as int)) is None,
        },
{
    let ghost piece = v@.subrange(from as int, to as int);
    let a = trim_start_index(v, from, to, 0);
    let b = trim_end_index(v, a, to, 0);
    assert(v@.subrange(a as int, b as int) == trim(piece));
    if !has_boundary_key(v, a, b) {
        return None;
    }
    let c = a + 9;
    assert(trim(piece).skip(9) =~= v@.subrange(c as int, b as int));
    let a2 = trim_start_index(v, c, b, 0);
    let b2 = trim_end_index(v, a2, b, 0);
    let a3 = trim_start_index(v, a2, b2, 1);
    let b3 = trim_end_index(v, a3, b2, 1);
    assert(v@.subrange(a3 as int, b3 as int) == trim_quotes(trim(trim(piece).skip(9))));
    if b3 == a3 {
        return None;
    }
    let mut out: Vec<char> = Vec::new();
    out.push('-');
    out.push('-');
    push_range(&mut out, v, a3, b3);
    assert(out@ =~= dashes() + v@.subrange(a3 as int, b3 as int));
    Some(out)
}

/// The boundary named by a `multipart/x-mixed-replace` Content-Type header,
/// with `--` in front as it stands on the boundary lines: the value of the
/// first `;`-separated parameter `boundary=`, trimmed and unquoted, that is
/// not empty. `None` when there is none.
pub fn parse_boundary(content_type: &str) -> (r: Option<String>)
    ensures
        r is Some == boundary_param(content_type@) is Some,
        r is Some ==> r->0@ == boundary_param(content_type@)->0,
{
    let v = chars_of(content_type);
    let mut start: usize = 0;
    assert(v@.skip(0) =~= v@);
    loop
        invariant
            start <= v@.len(),
            v@ == content_type@,
            boundary_param(v@) == boundary_param(v@.skip(start as int)),
        decreases v@.len() - start,
    {
        let mut j = start;
        while j < v.len() && v[j] != ';'
            invariant
                start <= j <= v@.len(),
                forall|i: int| start <= i < j ==> v@[i] != ';',
            decreases v@.len() - j,
        {
            j = j + 1;
        }
        let ghost rest = v@.skip(start as int);
        proof {
            lemma_piece_len(rest, j - start);
            assert(rest.take(j - start) =~= v@.subrange(start as int, j as int));
        }
        match piece_boundary(&v, start, j) {
            Some(b) => {
                return Some(string_of(&b));
            },
            None => {},
        }
        if j == v.len() {
            return None;
        }
        assert(rest.skip(j - start + 1) =~= v@.skip(j + 1));
        start = j + 1;
    }
}

// ---------------------------------------------------------------------------
// Boundary lines.

/// What a line read while looking for the next part is.
#[derive(Clone, Copy, Debug, PartialEq, Eq, Structural)]
pub enum BoundaryLine {
    /// The boundary: a part follows.
    Part,
    /// The boundary followed by `--`: the stream has ended.
    End,
    /// Anything else, to be skipped.
    Other,
}

/// A line without its trailing `\r` and `\n` characters.
pub open spec fn without_line_break(line: Seq<char>) -> Seq<char> {
    trim_end_by(line, trimmed_class(2))
}

/// What `line` is when `boundary` (with its leading `--`) separates the
/// parts: the line, without its trailing line-break characters, is compared
/// with the boundary first and then with the boundary followed by `--`.
pub open spec fn boundary_line_kind(line: Seq<char>, boundary: Seq<char>) -> BoundaryLine {
    let t = without_line_break(line);
    if t == boundary {
        BoundaryLine::Part
    } else if t == boundary + dashes() {
        BoundaryLine::End
    } else {
        BoundaryLine::Other
    }
}

/// Tells what a line read while looking for the next part is.
pub fn classify_boundary_line(line: &str, boundary: &str) -> (k: BoundaryLine)
    ensures
        k == boundary_line_kind(line@, boundary@),
{
    let v = chars_of(line);
    let w = chars_of(boundary);
    let t = trim_end_index(&v, 0, v.len(), 2);
    assert(v@.subrange(0, v@.len() as int) =~= v@);
    if range_equals(&v, 0, t, &w) {
        return BoundaryLine::Part;
    }
    let mut end = w.clone();
    end.push('-');
    end.push('-');
    assert(end@ =~= boundary@ + dashes());
    if range_equals(&v, 0, t, &end) {
        BoundaryLine::End
    } else {
        BoundaryLine::Other
    }
}

// ---------------------------------------------------------------------------
// Part headers.

/// What a header line of a part says.
#[derive(Clone, Copy, Debug, PartialEq, Eq, Structural)]
pub enum HeaderLine {
    /// A blank line: the headers have ended and the body follows.
    End,
    /// A `Content-Length` header with a valid length.
    ContentLength(usize),
    /// Any other header, or a `Content-Length` whose value is not a length.
    Other,
}

/// `char::to_ascii_lowercase`.
pub open spec fn ascii_lower(c: char) -> char {
    if 'A' <= c && c <= 'Z' {
        (((c as u32) + 32) as u8) as char
    } else {
        c
    }
}

/// `str::to_ascii_lowercase`.
pub open spec fn lowercase(s: Seq<char>) -> Seq<char> {
    s.map_values(|c: char| ascii_lower(c))
}

/// `content-length:`.
pub open spec fn content_length_key() -> Seq<char> {
    seq!['c', 'o', 'n', 't', 'e', 'n', 't', '-', 'l', 'e', 'n', 'g', 't', 'h', ':']
}

pub open spec fn is_digit(c: char) -> bool {
    '0' <= c && c <= '9'
}

/// The value of a string of decimal digits.
pub open spec fn digits_value(d: Seq<char>) -> nat
    decreases d.len(),
{
    if d.len() == 0 {
        0
    } else {
        digits_value(d.drop_last()) * 10 + ((d.last() as u32) - 48) as nat
    }
}

/// The digits that `usize::from_str` reads: all of `s`, or what follows a
/// leading `+`; `None` when there are none.
pub open spec fn unsigned_digits(s: Seq<char>) -> Option<Seq<char>> {
    if s.len() == 0 {
        None
    } else if s[0] == '+' {
        if s.len() == 1 {
            None
        } else {
            Some(s.drop_first())
        }
    } else {
        Some(s)
    }
}

/// `usize::from_str`: decimal digits, after an optional `+`, whose value fits
/// in a `usize`.
pub open spec fn parse_usize(s: Seq<char>) -> Option<usize> {
    match unsigned_digits(s) {
        Some(d) => if (forall|i: int| 0 <= i < d.len() ==> is_digit(#[trigger] d[i]))
            && digits_value(d) <= usize::MAX {
            Some(digits_value(d) as usize)
        } else {
            None
        },
        None => None,
    }
}

/// What a header line of a part (with its line break) says: blank once
/// trimmed, it ends the headers; a line whose ASCII-lowercased form starts
/// with `content-length:` gives the length that follows, trimmed, where it
/// parses as a `usize`.
pub open spec fn header_line_kind(line: Seq<char>) -> HeaderLine {
    if trim(line).len() == 0 {
        HeaderLine::End
    } else {
        let lower = lowercase(line);
        if lower.len() >= 15 && lower.take(15) == content_length_key() {
            match parse_usize(trim(lower.skip(15))) {
                Some(n) => HeaderLine::ContentLength(n),
                None => HeaderLine::Other,
            }
        } else {
            HeaderLine::Other
        }
    }
}

/// `char::to_ascii_lowercase`.
pub fn to_ascii_lower(c: char) -> (r: char)
    ensures
        r == ascii_lower(c),
{
    if 'A' <= c && c <= 'Z' {
        (((c as u32) + 32) as u8) as char
    } else {
        c
    }
}

proof fn lemma_digits_value_grows(d: Seq<char>, i: int)
    requires
        0 <= i <= d.len(),
        forall|j: int| 0 <= j < d.len() ==> is_digit(#[trigger] d[j]),
    ensures
        digits_value(d.take(i)) <= digits_value(d),
    decreases d.len() - i,
{
    if i < d.len() {
        lemma_digits_value_grows(d, i + 1);
        assert(d.take(i + 1).drop_last() =~= d.take(i));
    } else {
        assert(d.take(i) =~= d);
    }
}

/// `usize::from_str` on `v[from..to]`.
fn parse_usize_range(v: &Vec<char>, from: usize, to: usize) -> (r: Option<usize>)
    requires
        from <= to <= v@.len(),
    ensures
        r == parse_usize(v@.subrange(from as int, to as int)),
{
    let ghost s = v@.subrange(from as int, to as int);
    if from == to {
        return None;
    }
    let mut a = from;
    if v[from] == '+' {
        if to - from == 1 {
            return None;
        }
        a = from + 1;
        assert(s.drop_first() =~= v@.subrange(a as int, to as int));
    } else {
        assert(s =~= v@.subrange(a as int, to as int));
    }
    let ghost d = v@.subrange(a as int, to as int);
    assert(unsigned_digits(s) == Some(d));
    let mut value: usize = 0;
    let mut i = a;
    while i < to
        invariant
            from <= a <= i <= to <= v@.len(),
            d == v@.subrange(a as int, to as int),
            s == v@.subrange(from as int, to as int),
            unsigned_digits(s) == Some(d),
            forall|j: int| 0 <= j < i - a ==> is_digit(#[trigger] d[j]),
            value == digits_value(d.take(i - a)),
        decreases to - i,
    {
        let c = v[i];
        if c < '0' || c > '9' {
            assert(!is_digit(d[i - a]));
            return None;
        }
        let digit = (c as u32 - 48) as usize;
        assert(d.take(i + 1 - a).drop_last() =~= d.take(i - a));
        assert(d.take(i + 1 - a).last() == c);
        if value > (usize::MAX - digit) / 10 {
            proof {
                assert(digits_value(d.take(i + 1 - a)) > usize::MAX) by (nonlinear_arith)
                    requires
                        value > (usize::MAX - digit) / 10,
                        digits_value(d.take(i + 1 - a)) == value * 10 + digit,
                        digit <= 9,
                ;
                if forall|j: int| 0 <= j < d.len() ==> is_digit(#[trigger] d[j]) {
                    lemma_digits_value_grows(d, i + 1 - a);
                }
            }
            return None;
        }
        assert(value * 10 + digit <= usize::MAX) by (nonlinear_arith)
            requires
                value <= (usize::MAX - digit) / 10,
                digit <= 9,
        ;
        value = value * 10 + digit;
        i = i + 1;
    }
    assert(d.take(to - a) =~= d);
    Some(value)
}

fn has_content_length_key(v: &Vec<char>) -> (r: bool)
    ensures
        r == (v@.len() >= 15 && v@.take(15) == content_length_key()),
{
    if v.len() < 15 {
        return false;
    }
    let r = v[0] == 'c' && v[1] == 'o' && v[2] == 'n' && v[3] == 't' && v[4] == 'e' && v[5]
        == 'n' && v[6] == 't' && v[7] == '-' && v[8] == 'l' && v[9] == 'e' && v[10] == 'n'
        && v[11] == 'g' && v[12] == 't' && v[13] == 'h' && v[14] == ':';
    let ghost t = v@.take(15);
    if r {
        assert(t =~= content_length_key());
    } else {
        assert(t != content_length_key()) by {
            if t == content_length_key() {
                assert(t[0] == 'c' && t[1] == 'o' && t[2] == 'n' && t[3] == 't' && t[4] == 'e'
                    && t[5] == 'n' && t[6] == 't' && t[7] == '-' && t[8] == 'l' && t[9] == 'e'
                    && t[10] == 'n' && t[11] == 'g' && t[12] == 't' && t[13] == 'h' && t[14]
                    == ':');
            }
        }
    }
    r
}

/// Tells what a header line of a part says.
pub fn classify_header_line(line: &str) -> (k: HeaderLine)
    ensures
        k == header_line_kind(line@),
{
    let v = chars_of(line);
    let a = trim_start_index(&v, 0, v.len(), 0);
    let b = trim_end_index(&v, a, v.len(), 0);
    assert(v@.subrange(0, v@.len() as int) =~= v@);
    if a == b {
        return HeaderLine::End;
    }
    let mut lower: Vec<char> = Vec::new();
    let mut i: usize = 0;
    while i < v.len()
        invariant
            i <= v@.len(),
            lower@ == lowercase(v@).take(i as int),
        decreases v@.len() - i,
    {
        let c = to_ascii_lower(v[i]);
        lower.push(c);
        i = i + 1;
        assert(lower@ =~= lowercase(v@).take(i as int));
    }
    assert(lower@ =~= lowercase(line@));
    if !has_content_length_key(&lower) {
        return HeaderLine::Other;
    }
    let n = lower.len();
    let a2 = trim_start_index(&lower, 15, n, 0);
    let b2 = trim_end_index(&lower, a2, n, 0);
    assert(lower@.skip(15) =~= lower@.subrange(15, n as int));
    match parse_usize_range(&lower, a2, b2) {
        Some(len) => HeaderLine::ContentLength(len),
        None => HeaderLine::Other,
    }
}

} // verus!
