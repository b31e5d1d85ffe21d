//! The little HTTP that the configuration helper speaks: the path of a
//! request and the page it is routed to.
use vstd::prelude::*;
use vstd::utf8::{decode_utf8, valid_utf8};
use crate::config::equals_chars;
use crate::multipart::{is_ws, trimmed_class, trim_start_by, is_whitespace};
use crate::text::{chars_of, push_range, string_of};

verus! {

/// Calls `std::str::from_utf8`. Trusted: it gives the text that the bytes
/// encode exactly when they are valid UTF-8 (as its documentation says),
/// with validity and decoding as vstd's UTF-8 model defines them.
#[verifier::external_body]
fn utf8_text(bytes: &[u8]) -> (r: Option<&str>)
    ensures
        r is Some == valid_utf8(bytes@),
        r is Some ==> r->0@ == decode_utf8(bytes@),
{
    std::str::from_utf8(bytes).ok()
}

/// The length of the part of `s` before its first `c` (all of `s` when it
/// holds none).
pub open spec fn len_before(s: Seq<char>, c: char) -> nat
    decreases s.len(),
{
    if s.len() == 0 || s[0] == c {
        0
    } else {
        1 + len_before(s.drop_first(), c)
    }
}

/// The first item of `str::lines`: up to the first `\n`, without a `\r`
/// right before it; `None` for the empty text.
pub open spec fn first_line(s: Seq<char>) -> Option<Seq<char>> {
    if s.len() == 0 {
        None
    } else {
        let k = len_before(s, '\n');
        if k < s.len() && k > 0 && s[k - 1] == '\r' {
            Some(s.take(k - 1))
        } else {
            Some(s.take(k as int))
        }
    }
}

/// The length of the run of characters at the start of `s` that are not
/// whitespace.
pub open spec fn word_len(s: Seq<char>) -> nat
    decreases s.len(),
{
    if s.len() == 0 || is_ws(s[0]) {
        0
    } else {
        1 + word_len(s.drop_first())
    }
}

/// The first item of `str::split_whitespace`.
pub open spec fn first_word(s: Seq<char>) -> Option<Seq<char>> {
    let t = trim_start_by(s, trimmed_class(0));
    if t.len() == 0 {
        None
    } else {
        Some(t.take(word_len(t) as int))
    }
}

/// What follows the first item of `str::split_whitespace`.
pub open spec fn after_first_word(s: Seq<char>) -> Seq<char> {
    let t = trim_start_by(s, trimmed_class(0));
    t.skip(word_len(t) as int)
}

/// The path of an HTTP request: the second word of its first line, without
/// the query that follows a `?`. `None` when the request is not UTF-8 text,
/// is empty, or its first line has fewer than two words.
pub open spec fn request_path_of(bytes: Seq<u8>) -> Option<Seq<char>> {
    if !valid_utf8(bytes) {
        None
    } else {
        match first_line(decode_utf8(bytes)) {
            None => None,
            Some(line) => match first_word(after_first_word(line)) {
                None => None,
                Some(target) => Some(target.take(len_before(target, '?') as int)),
            },
        }
    }
}

proof fn lemma_len_before(s: Seq<char>, c: char, k: int)
    requires
        0 <= k <= s.len(),
        forall|i: int| 0 <= i < k ==> s[i] != c,
        k == s.len() || s[k] == c,
    ensures
        len_before(s, c) == k,
    decreases k,
{
    if k > 0 {
        lemma_len_before(s.drop_first(), c, k - 1);
    }
}

proof fn lemma_word_len(s: Seq<char>, k: int)
    requires
        0 <= k <= s.len(),
        forall|i: int| 0 <= i < k ==> !is_ws(s[i]),
        k == s.len() || is_ws(s[k]),
    ensures
        word_len(s) == k,
    decreases k,
{
    if k > 0 {
        lemma_word_len(s.drop_first(), k - 1);
    }
}

/// Where the first `c` at or after `from` stands in `v`, or `to` when there
/// is none before it.
fn index_of(v: &Vec<char>, from: usize, to: usize, c: char) -> (k: usize)
    requires
        from <= to <= v@.len(),
    ensures
        from <= k <= to,
        len_before(v@.subrange(from as int, to as int), c) == k - from,
{
    let mut k = from;
    while k < to && v[k] != c
        invariant
            from <= k <= to <= v@.len(),
            forall|i: int| from <= i < k ==> v@[i] != c,
        decreases to - k,
    {
        k = k + 1;
    }
    proof {
        lemma_len_before(v@.subrange(from as int, to as int), c, k - from);
    }
    k
}

/// Where the first whitespace at or after `from` stands in `v`, or `to`.
fn word_end(v: &Vec<char>, from: usize, to: usize) -> (k: usize)
    requires
        from <= to <= v@.len(),
    ensures
        from <= k <= to,
        word_len(v@.subrange(from as int, to as int)) == k - from,
{
    let mut k = from;
    while k < to && !is_whitespace(v[k])
        invariant
            from <= k <= to <= v@.len(),
            forall|i: int| from <= i < k ==> !is_ws(v@[i]),
        decreases to - k,
    {
        k = k + 1;
    }
    proof {
        lemma_word_len(v@.subrange(from as int, to as int), k - from);
    }
    k
}

/// Where the leading whitespace of `v[from..to]` ends.
fn skip_spaces(v: &Vec<char>, from: usize, to: usize) -> (a: usize)
    requires
        from <= to <= v@.len(),
    ensures
        from <= a <= to,
        v@.subrange(a as int, to as int) == trim_start_by(
            v@.subrange(from as int, to as int),
            trimmed_class(0),
        ),
{
    let mut a = from;
    while a < to && is_whitespace(v[a])
        invariant
            from <= a <= to,
            to <= v@.len(),
            trim_start_by(v@.subrange(from as int, to as int), trimmed_class(0))
                == trim_start_by(v@.subrange(a as int, to as int), trimmed_class(0)),
        decreases to - a,
    {
        assert(v@.subrange(a as int, to as int).drop_first() =~= v@.subrange(a + 1, to as int));
        a = a + 1;
    }
    a
}

/// The path of an HTTP request read into `bytes`.
pub fn request_path(bytes: &[u8]) -> (r: Option<String>)
    ensures
        r is Some == request_path_of(bytes@) is Some,
        r is Some ==> r->0@ == request_path_of(bytes@)->0,
{
    let text = match utf8_text(bytes) {
        Some(t) => t,
        None => return None,
    };
    let v = chars_of(text);
    if v.len() == 0 {
        return None;
    }
    let ghost s = v@;
    let nl = index_of(&v, 0, v.len(), '\n');
    assert(v@.subrange(0, v@.len() as int) =~= v@);
    let end = if nl < v.len() && nl > 0 && v[nl - 1] == '\r' {
        nl - 1
    } else {
        nl
    };
    let ghost line = v@.subrange(0, end as int);
    assert(first_line(s) == Some(line)) by {
        assert(s.take(end as int) =~= line);
    }
    // The first word.
    let a1 = skip_spaces(&v, 0, end);
    let e1 = word_end(&v, a1, end);
    assert(after_first_word(line) =~= v@.subrange(e1 as int, end as int)) by {
        assert(trim_start_by(line, trimmed_class(0)) == v@.subrange(a1 as int, end as int));
    }
    // The second word.
    let a2 = skip_spaces(&v, e1, end);
    if a2 == end {
        return None;
    }
    let e2 = word_end(&v, a2, end);
    let ghost target = v@.subrange(a2 as int, e2 as int);
    assert(first_word(after_first_word(line)) == Some(target)) by {
        assert(v@.subrange(a2 as int, end as int).take(e2 - a2) =~= target);
    }
    let q = index_of(&v, a2, e2, '?');
    let mut out: Vec<char> = Vec::new();
    push_range(&mut out, &v, a2, q);
    assert(out@ =~= target.take(len_before(target, '?') as int));
    Some(string_of(&out))
}

/// The pages the configuration helper serves.
#[derive(Clone, Copy, Debug, PartialEq, Eq, Structural)]
pub enum Route {
    /// `/stream.mjpeg`: the live picture as an MJPEG stream.
    Stream,
    /// `/stream.jpeg`: the latest picture.
    Snapshot,
    /// `/cameras`: the cameras found, as JSON.
    Cameras,
    /// Anything else: the page itself.
    Page,
}

/// The page a request path is routed to.
pub open spec fn route_of(path: Seq<char>) -> Route {
    if path == "/stream.mjpeg"@ {
        Route::Stream
    } else if path == "/stream.jpeg"@ {
        Route::Snapshot
    } else if path == "/cameras"@ {
        Route::Cameras
    } else {
        Route::Page
    }
}

fn is_path(v: &Vec<char>, p: &str) -> (b: bool)
    ensures
        b == (v@ == p@),
{
    let w = chars_of(p);
    assert(v@.skip(0) =~= v@);
    equals_chars(v, 0, w.as_slice())
}

/// The page a request path is routed to.
pub fn route(path: &str) -> (r: Route)
    ensures
        r == route_of(path@),
{
    let v = chars_of(path);
    if is_path(&v, "/stream.mjpeg") {
        Route::Stream
    } else if is_path(&v, "/stream.jpeg") {
        Route::Snapshot
    } else if is_path(&v, "/cameras") {
        Route::Cameras
    } else {
        Route::Page
    }
}

} // verus!
