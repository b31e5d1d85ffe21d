//! The MJPEG stream the configuration helper serves, and the proof that the
//! detector's own stream reader understands it.
use vstd::prelude::*;
use crate::multipart::{
    boundary_key, boundary_line_kind, boundary_of_piece, boundary_param, content_length_key,
    dashes, digits_value, header_line_kind, is_digit, is_ws, lemma_piece_len, lowercase,
    parse_usize, trim, trim_end_by, trim_quotes, trim_start_by, trimmed_class,
    unsigned_digits, ascii_lower, BoundaryLine, HeaderLine,
};
use crate::text::{decimal, digit_char, push_decimal, string_of};
use crate::ts::push_all;

verus! {

/// The boundary between the parts of the served stream.
pub open spec fn served_boundary() -> Seq<char> {
    seq!['f', 'r', 'a', 'm', 'e']
}

/// `multipart/x-mixed-replace`.
pub open spec fn mixed_replace() -> Seq<char> {
    seq![
        'm', 'u', 'l', 't', 'i', 'p', 'a', 'r', 't', '/', 'x', '-', 'm', 'i', 'x', 'e', 'd', '-',
        'r', 'e', 'p', 'l', 'a', 'c', 'e'
    ]
}

/// The Content-Type of the served stream:
/// `multipart/x-mixed-replace; boundary=frame`.
pub open spec fn stream_content_type_text() -> Seq<char> {
    mixed_replace() + seq![';', ' '] + boundary_key() + served_boundary()
}

/// `\r\n`.
pub open spec fn crlf() -> Seq<char> {
    seq!['\r', '\n']
}

/// `Content-Type: image/jpeg`.
pub open spec fn jpeg_type_header() -> Seq<char> {
    seq![
        'C', 'o', 'n', 't', 'e', 'n', 't', '-', 'T', 'y', 'p', 'e', ':', ' ', 'i', 'm', 'a', 'g',
        'e', '/', 'j', 'p', 'e', 'g'
    ]
}

/// `Content-Length: `.
pub open spec fn length_header_name() -> Seq<char> {
    seq!['C', 'o', 'n', 't', 'e', 'n', 't', '-', 'L', 'e', 'n', 'g', 't', 'h', ':', ' ']
}

/// The lines that precede a JPEG picture of `len` bytes in the served
/// stream: the boundary line, the two headers and the blank line.
pub open spec fn part_head_lines(len: nat) -> Seq<Seq<char>> {
    seq![
        dashes() + served_boundary() + crlf(),
        jpeg_type_header() + crlf(),
        length_header_name() + decimal(len) + crlf(),
        crlf(),
    ]
}

/// The text that precedes a JPEG picture of `len` bytes in the served stream.
pub open spec fn part_head_text(len: nat) -> Seq<char> {
    let l = part_head_lines(len);
    l[0] + l[1] + l[2] + l[3]
}

/// The Content-Type of the served stream.
pub fn stream_content_type() -> (s: String)
    ensures
        s@ == stream_content_type_text(),
{
    let cs: [char; 41] = [
        'm', 'u', 'l', 't', 'i', 'p', 'a', 'r', 't', '/', 'x', '-', 'm', 'i', 'x', 'e', 'd', '-',
        'r', 'e', 'p', 'l', 'a', 'c', 'e', ';', ' ', 'b', 'o', 'u', 'n', 'd', 'a', 'r', 'y', '=',
        'f', 'r', 'a', 'm', 'e',
    ];
    assert(cs@ =~= stream_content_type_text());
    string_of(&cs)
}

/// The text that precedes a JPEG picture of `len` bytes in the served stream.
pub fn part_head(len: usize) -> (s: String)
    ensures
        s@ == part_head_text(len as nat),
{
    let head: [char; 35] = [
        '-', '-', 'f', 'r', 'a', 'm', 'e', '\r', '\n', 'C', 'o', 'n', 't', 'e', 'n', 't', '-', 'T',
        'y', 'p', 'e', ':', ' ', 'i', 'm', 'a', 'g', 'e', '/', 'j', 'p', 'e', 'g', '\r', '\n',
    ];
    let name: [char; 16] = ['C', 'o', 'n', 't', 'e', 'n', 't', '-', 'L', 'e', 'n', 'g', 't', 'h', ':', ' '];
    let tail: [char; 4] = ['\r', '\n', '\r', '\n'];
    let mut v: Vec<char> = Vec::new();
    push_all(&mut v, &head);
    push_all(&mut v, &name);
    push_decimal(&mut v, len as u64);
    push_all(&mut v, &tail);
    assert(v@ =~= part_head_text(len as nat));
    string_of(&v)
}

// ---------------------------------------------------------------------------
// Facts about trimming.

proof fn lemma_trim_start_at_keeper(s: Seq<char>, p: spec_fn(char) -> bool)
    requires
        s.len() > 0,
        !p(s[0]),
    ensures
        trim_start_by(s, p) == s,
{
}

proof fn lemma_trim_end_at_keeper(s: Seq<char>, p: spec_fn(char) -> bool)
    requires
        s.len() > 0,
        !p(s.last()),
    ensures
        trim_end_by(s, p) == s,
{
}

proof fn lemma_trim_start_drops(a: Seq<char>, b: Seq<char>, p: spec_fn(char) -> bool)
    requires
        forall|i: int| 0 <= i < a.len() ==> p(#[trigger] a[i]),
    ensures
        trim_start_by(a + b, p) == trim_start_by(b, p),
    decreases a.len(),
{
    if a.len() > 0 {
        assert((a + b)[0] == a[0]);
        assert((a + b).drop_first() =~= a.drop_first() + b);
        lemma_trim_start_drops(a.drop_first(), b, p);
    } else {
        assert(a + b =~= b);
    }
}

proof fn lemma_trim_end_drops(a: Seq<char>, b: Seq<char>, p: spec_fn(char) -> bool)
    requires
        forall|i: int| 0 <= i < b.len() ==> p(#[trigger] b[i]),
    ensures
        trim_end_by(a + b, p) == trim_end_by(a, p),
    decreases b.len(),
{
    if b.len() > 0 {
        assert((a + b).last() == b.last());
        assert((a + b).drop_last() =~= a + b.drop_last());
        lemma_trim_end_drops(a, b.drop_last(), p);
    } else {
        assert(a + b =~= a);
    }
}

/// `s` trimmed of whitespace, when it neither starts nor ends with any.
proof fn lemma_trim_keeps(s: Seq<char>)
    requires
        s.len() > 0,
        !is_ws(s[0]),
        !is_ws(s.last()),
    ensures
        trim(s) == s,
{
    lemma_trim_start_at_keeper(s, trimmed_class(0));
    lemma_trim_end_at_keeper(s, trimmed_class(0));
}

// ---------------------------------------------------------------------------
// Facts about decimal numbers.

proof fn lemma_digit_value(k: int)
    requires
        0 <= k < 10,
    ensures
        ((digit_char(k) as u32) - 48) as nat == k,
        is_digit(digit_char(k)),
{
    let b: u8 = (48 + k) as u8;
    assert(b == 48 + k);
    assert((b as char) as u32 == b as u32);
}

proof fn lemma_decimal_digits(n: nat)
    ensures
        decimal(n).len() > 0,
        forall|i: int| 0 <= i < decimal(n).len() ==> is_digit(#[trigger] decimal(n)[i]),
        digits_value(decimal(n)) == n,
    decreases n,
{
    lemma_digit_value((n % 10) as int);
    if n < 10 {
        let d = decimal(n);
        assert(d.drop_last() =~= Seq::<char>::empty());
        assert(digits_value(d.drop_last()) == 0);
    } else {
        lemma_decimal_digits(n / 10);
        let d = decimal(n);
        assert(d.drop_last() =~= decimal(n / 10));
        assert(d.last() == digit_char((n % 10) as int));
        assert(forall|i: int| 0 <= i < d.len() ==> is_digit(#[trigger] d[i])) by {
            assert forall|i: int| 0 <= i < d.len() implies is_digit(#[trigger] d[i]) by {
                if i < d.len() - 1 {
                    assert(d[i] == decimal(n / 10)[i]);
                }
            }
        }
    }
}

proof fn lemma_lowercase_digits(n: nat)
    ensures
        lowercase(decimal(n)) == decimal(n),
{
    lemma_decimal_digits(n);
    assert(lowercase(decimal(n)) =~= decimal(n));
}

proof fn lemma_lowercase_concat(a: Seq<char>, b: Seq<char>)
    ensures
        lowercase(a + b) == lowercase(a) + lowercase(b),
{
    assert(lowercase(a + b) =~= lowercase(a) + lowercase(b));
}

// ---------------------------------------------------------------------------
// The law.

proof fn lemma_content_type_gives_boundary()
    ensures
        boundary_param(stream_content_type_text()) == Some(dashes() + served_boundary()),
{
    let ct = stream_content_type_text();
    // The first piece, `multipart/x-mixed-replace`, names no boundary.
    let first = mixed_replace();
    assert(ct.take(25) =~= first);
    assert forall|i: int| 0 <= i < 25 implies ct[i] != ';' by {
        assert(ct[i] == first[i]);
    }
    lemma_piece_len(ct, 25);
    lemma_trim_keeps(first);
    assert(first.take(9)[0] != boundary_key()[0]);
    assert(boundary_of_piece(first) is None);
    // The rest, ` boundary=frame`, names `frame`.
    let rest = ct.skip(26);
    let t = boundary_key() + served_boundary();
    assert(rest =~= seq![' '] + t);
    assert forall|i: int| 0 <= i < rest.len() implies rest[i] != ';' by {
        if i == 0 {
        } else {
            assert(rest[i] == t[i - 1]);
        }
    }
    lemma_piece_len(rest, rest.len() as int);
    assert(rest.take(rest.len() as int) =~= rest);
    lemma_trim_start_drops(seq![' '], t, trimmed_class(0));
    lemma_trim_keeps(t);
    assert(trim(rest) == t);
    assert(t.take(9) =~= boundary_key());
    assert(t.skip(9) =~= served_boundary());
    lemma_trim_keeps(served_boundary());
    lemma_trim_start_at_keeper(served_boundary(), trimmed_class(1));
    lemma_trim_end_at_keeper(served_boundary(), trimmed_class(1));
    assert(trim_quotes(served_boundary()) == served_boundary());
    assert(boundary_of_piece(rest) == Some(dashes() + served_boundary()));
    assert(boundary_param(rest) == Some(dashes() + served_boundary()));
}

proof fn lemma_boundary_line_is_part()
    ensures
        boundary_line_kind(part_head_lines(0)[0], dashes() + served_boundary()) == BoundaryLine::Part,
{
    let b = dashes() + served_boundary();
    let line = b + crlf();
    lemma_trim_end_drops(b, crlf(), trimmed_class(2));
    lemma_trim_end_at_keeper(b, trimmed_class(2));
}

proof fn lemma_type_header_is_other()
    ensures
        header_line_kind(jpeg_type_header() + crlf()) == HeaderLine::Other,
{
    let line = jpeg_type_header() + crlf();
    lemma_trim_start_at_keeper(line, trimmed_class(0));
    lemma_trim_end_drops(jpeg_type_header(), crlf(), trimmed_class(0));
    lemma_trim_end_at_keeper(jpeg_type_header(), trimmed_class(0));
    assert(trim(line).len() > 0);
    let lower = lowercase(line);
    assert(lower[8] == ascii_lower(line[8]));
    assert(lower.take(15)[8] != content_length_key()[8]);
}

proof fn lemma_length_header_gives_length(len: nat)
    requires
        len <= usize::MAX,
    ensures
        header_line_kind(length_header_name() + decimal(len) + crlf())
            == HeaderLine::ContentLength(len as usize),
{
    let d = decimal(len);
    lemma_decimal_digits(len);
    let name = length_header_name();
    let line = name + d + crlf();
    // The line is not blank.
    lemma_trim_start_at_keeper(line, trimmed_class(0));
    assert(trim(line).len() > 0) by {
        lemma_trim_end_drops(name + d, crlf(), trimmed_class(0));
        assert((name + d).last() == d.last());
        assert(is_digit(d[d.len() - 1]));
        lemma_trim_end_at_keeper(name + d, trimmed_class(0));
    }
    // Lowercased, it starts with `content-length:`.
    let lower_name = lowercase(name);
    assert(lower_name =~= content_length_key() + seq![' ']);
    lemma_lowercase_concat(name + d, crlf());
    lemma_lowercase_concat(name, d);
    lemma_lowercase_digits(len);
    assert(lowercase(crlf()) =~= crlf());
    let lower = lowercase(line);
    assert(lower =~= content_length_key() + (seq![' '] + d + crlf()));
    assert(lower.take(15) =~= content_length_key());
    assert(lower.skip(15) =~= seq![' '] + (d + crlf()));
    // What follows trims to the digits.
    lemma_trim_start_drops(seq![' '], d + crlf(), trimmed_class(0));
    assert(is_digit(d[0]));
    assert((d + crlf())[0] == d[0]);
    lemma_trim_start_at_keeper(d + crlf(), trimmed_class(0));
    lemma_trim_end_drops(d, crlf(), trimmed_class(0));
    assert(is_digit(d[d.len() - 1]));
    lemma_trim_end_at_keeper(d, trimmed_class(0));
    assert(trim(lower.skip(15)) == d);
    // And the digits parse to the length.
    assert(unsigned_digits(d) == Some(d));
    assert(parse_usize(d) == Some(len as usize));
}

/// What the configuration helper serves, the detector's MJPEG reader
/// understands: the Content-Type names the boundary `--frame`; before each
/// picture the boundary line starts a part, the Content-Type header is
/// passed over, the Content-Length header gives the picture's length, and
/// the blank line ends the headers.
pub proof fn law_served_stream_is_readable(len: nat)
    requires
        len <= usize::MAX,
    ensures
        boundary_param(stream_content_type_text()) == Some(dashes() + served_boundary()),
        boundary_line_kind(part_head_lines(len)[0], dashes() + served_boundary())
            == BoundaryLine::Part,
        header_line_kind(part_head_lines(len)[1]) == HeaderLine::Other,
        header_line_kind(part_head_lines(len)[2]) == HeaderLine::ContentLength(len as usize),
        header_line_kind(part_head_lines(len)[3]) == HeaderLine::End,
{
    lemma_content_type_gives_boundary();
    lemma_boundary_line_is_part();
    lemma_type_header_is_other();
    lemma_length_header_gives_length(len);
    let blank = crlf();
    assert(blank =~= Seq::<char>::empty() + crlf());
    lemma_trim_start_drops(crlf(), Seq::<char>::empty(), trimmed_class(0));
    assert(crlf() + Seq::<char>::empty() =~= crlf());
    assert(trim_start_by(Seq::<char>::empty(), trimmed_class(0)) == Seq::<char>::empty());
}

/// Every boundary that a Content-Type can name (`--` and a value whose
/// last character is not a line break) recognises its own lines: the
/// boundary followed by a line break starts a part, and followed by `--` and
/// a line break ends the stream.
pub proof fn law_boundary_lines_are_recognised(boundary: Seq<char>)
    requires
        boundary.len() > 0,
        !trimmed_class(2)(boundary.last()),
    ensures
        boundary_line_kind(boundary + crlf(), boundary) == BoundaryLine::Part,
        boundary_line_kind(boundary + dashes() + crlf(), boundary) == BoundaryLine::End,
{
    lemma_trim_end_drops(boundary, crlf(), trimmed_class(2));
    lemma_trim_end_at_keeper(boundary, trimmed_class(2));
    let end = boundary + dashes();
    lemma_trim_end_drops(end, crlf(), trimmed_class(2));
    assert(end.last() == '-');
    lemma_trim_end_at_keeper(end, trimmed_class(2));
    assert(end.len() != boundary.len());
}

} // verus!
