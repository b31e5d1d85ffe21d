//! Framing of JPEG images in a continuous MJPEG byte stream (for example the
//! standard output of a camera process).
//!
//! The scanner never decodes an image: it follows the JPEG segment structure
//! from the start-of-image marker to the end-of-image marker and hands back
//! exactly the bytes in between (both markers included).
use vstd::prelude::*;

verus! {

pub const MARKER: u8 = 0xFF;
pub const RST0: u8 = 0xD0;
pub const RST7: u8 = 0xD7;
pub const SOI: u8 = 0xD8;
pub const EOI: u8 = 0xD9;
pub const SOS: u8 = 0xDA;

/// Why a stream does not start with a well-formed JPEG image.
#[derive(Debug, Clone, Copy, PartialEq, Eq, Structural)]
pub enum ScanError {
    /// The first two bytes are not the start-of-image marker.
    InvalidSoi { b0: u8, b1: u8 },
    /// The stream ended where a segment marker should start.
    EofMarker,
    /// A segment starts with this byte instead of 0xFF.
    ExpectedMarker { got: u8 },
    /// A restart marker stands where a segment marker should be.
    RstMarker,
    /// The stream ended where a segment length should start.
    EofLength,
    /// A segment length below two (it counts its own two bytes).
    InvalidSegmentLength { len: usize },
    /// The stream ended where segment data should start.
    EofData,
    /// The stream ended after `read` of the `wanted` bytes of a field.
    Truncated { read: usize, wanted: usize },
}

impl ScanError {
    /// Errors that only say the stream ended too early: more bytes could
    /// still turn the stream into a valid image.
    pub open spec fn spec_needs_more_input(&self) -> bool {
        match self {
            ScanError::EofMarker => true,
            ScanError::EofLength => true,
            ScanError::EofData => true,
            ScanError::Truncated { .. } => true,
            _ => false,
        }
    }

    #[verifier::when_used_as_spec(spec_needs_more_input)]
    pub fn needs_more_input(&self) -> (b: bool)
        ensures
            b == self.spec_needs_more_input(),
    {
        match self {
            ScanError::EofMarker => true,
            ScanError::EofLength => true,
            ScanError::EofData => true,
            ScanError::Truncated { .. } => true,
            _ => false,
        }
    }
}

pub open spec fn is_rst(b: u8) -> bool {
    RST0 <= b <= RST7
}

/// Where the entropy-coded data that starts at `q` ends: at the first 0xFF
/// that is followed by a byte other than 0x00 (a stuffed 0xFF) or a restart
/// marker, or at the end of the stream.
pub open spec fn image_data_end(s: Seq<u8>, q: int) -> int
    decreases s.len() - q,
{
    if q >= s.len() {
        s.len() as int
    } else if s[q] != MARKER {
        image_data_end(s, q + 1)
    } else if q + 1 >= s.len() {
        s.len() as int
    } else if s[q + 1] == 0x00 || is_rst(s[q + 1]) {
        image_data_end(s, q + 2)
    } else {
        q
    }
}

pub proof fn lemma_image_data_end_bounds(s: Seq<u8>, q: int)
    requires
        0 <= q <= s.len(),
    ensures
        q <= image_data_end(s, q) <= s.len(),
    decreases s.len() - q,
{
    if q < s.len() {
        if s[q] != MARKER {
            lemma_image_data_end_bounds(s, q + 1);
        } else if q + 1 < s.len() && (s[q + 1] == 0x00 || is_rst(s[q + 1])) {
            lemma_image_data_end_bounds(s, q + 2);
        }
    }
}

/// The big-endian segment length stored at `p`.
pub open spec fn segment_len(s: Seq<u8>, p: int) -> int {
    s[p] * 256 + s[p + 1]
}

/// The segments of an image, starting with the marker at `p`: `Ok(Some(n))`
/// when the end-of-image marker ends at `n`.
pub open spec fn segments(s: Seq<u8>, p: int) -> Result<Option<int>, ScanError>
    decreases s.len() - p,
{
    let len = s.len() as int;
    if p < 2 || p >= len {
        Err(ScanError::EofMarker)
    } else if p + 1 == len {
        Err(ScanError::Truncated { read: 1, wanted: 2 })
    } else if s[p] != MARKER {
        Err(ScanError::ExpectedMarker { got: s[p] })
    } else if s[p + 1] == EOI {
        Ok(Some(p + 2))
    } else if is_rst(s[p + 1]) {
        Err(ScanError::RstMarker)
    } else if p + 2 == len {
        Err(ScanError::EofLength)
    } else if p + 3 == len {
        Err(ScanError::Truncated { read: 1, wanted: 2 })
    } else if segment_len(s, p + 2) < 2 {
        Err(ScanError::InvalidSegmentLength { len: segment_len(s, p + 2) as usize })
    } else {
        let data_len = segment_len(s, p + 2) - 2;
        let q = p + 4;
        if data_len > 0 && q == len {
            Err(ScanError::EofData)
        } else if q + data_len > len {
            Err(ScanError::Truncated { read: (len - q) as usize, wanted: data_len as usize })
        } else if s[p + 1] == SOS {
            let r = image_data_end(s, q + data_len);
            proof {
                lemma_image_data_end_bounds(s, q + data_len);
            }
            segments(s, r)
        } else {
            segments(s, q + data_len)
        }
    }
}

/// The first image of a stream: `Ok(None)` for an empty stream,
/// `Ok(Some(n))` when the first `n` bytes are one whole image, or why the
/// stream does not start with one.
pub open spec fn first_frame(s: Seq<u8>) -> Result<Option<int>, ScanError> {
    if s.len() == 0 {
        Ok(None)
    } else if s.len() == 1 {
        Err(ScanError::Truncated { read: 1, wanted: 2 })
    } else if s[0] != MARKER || s[1] != SOI {
        Err(ScanError::InvalidSoi { b0: s[0], b1: s[1] })
    } else {
        segments(s, 2)
    }
}

/// `r` is what `first_frame(s)` says, with positions as machine integers.
pub open spec fn reports(r: Result<Option<usize>, ScanError>, s: Seq<u8>) -> bool {
    match r {
        Ok(None) => first_frame(s) == Ok::<Option<int>, ScanError>(None),
        Ok(Some(n)) => first_frame(s) == Ok::<Option<int>, ScanError>(Some(n as int)),
        Err(e) => first_frame(s) == Err::<Option<int>, ScanError>(e),
    }
}

fn find_image_data_end(data: &[u8], q: usize) -> (r: usize)
    requires
        q <= data@.len(),
    ensures
        r as int == image_data_end(data@, q as int),
        q <= r <= data@.len(),
{
    proof {
        lemma_image_data_end_bounds(data@, q as int);
    }
    let len = data.len();
    let mut i = q;
    loop
        invariant
            q <= i <= len,
            len == data@.len(),
            image_data_end(data@, q as int) == image_data_end(data@, i as int),
        decreases len - i,
    {
        if i >= len {
            return len;
        }
        if data[i] != MARKER {
            i = i + 1;
        } else if i + 1 >= len {
            return len;
        } else {
            let b2 = data[i + 1];
            if b2 == 0x00 || (RST0 <= b2 && b2 <= RST7) {
                i = i + 2;
            } else {
                return i;
            }
        }
    }
}

/// Where the first image of `data` ends, following the JPEG segment
/// structure; `Ok(None)` when `data` is empty.
pub fn find_frame_end(data: &[u8]) -> (r: Result<Option<usize>, ScanError>)
    ensures
        reports(r, data@),
{
    let len = data.len();
    if len == 0 {
        return Ok(None);
    }
    if len == 1 {
        return Err(ScanError::Truncated { read: 1, wanted: 2 });
    }
    if data[0] != MARKER || data[1] != SOI {
        return Err(ScanError::InvalidSoi { b0: data[0], b1: data[1] });
    }
    let mut p: usize = 2;
    loop
        invariant
            2 <= p <= len,
            len == data@.len(),
            first_frame(data@) == segments(data@, p as int),
        decreases len - p,
    {
        if p >= len {
            return Err(ScanError::EofMarker);
        }
        if p + 1 == len {
            return Err(ScanError::Truncated { read: 1, wanted: 2 });
        }
        if data[p] != MARKER {
            return Err(ScanError::ExpectedMarker { got: data[p] });
        }
        let marker_type = data[p + 1];
        if marker_type == EOI {
            return Ok(Some(p + 2));
        }
        if RST0 <= marker_type && marker_type <= RST7 {
            return Err(ScanError::RstMarker);
        }
        if p + 2 == len {
            return Err(ScanError::EofLength);
        }
        if p + 3 == len {
            return Err(ScanError::Truncated { read: 1, wanted: 2 });
        }
        let seg_len: usize = (data[p + 2] as usize) * 256 + data[p + 3] as usize;
        if seg_len < 2 {
            return Err(ScanError::InvalidSegmentLength { len: seg_len });
        }
        let data_len = seg_len - 2;
        let q = p + 4;
        if data_len > 0 && q == len {
            return Err(ScanError::EofData);
        }
        if data_len > len - q {
            return Err(ScanError::Truncated { read: len - q, wanted: data_len });
        }
        let q2 = q + data_len;
        if marker_type == SOS {
            p = find_image_data_end(data, q2);
        } else {
            p = q2;
        }
    }
}

/// How many bytes a reader of the segments from `p` on has taken from the
/// stream when it stops on a malformed marker or segment length: the marker
/// (two bytes), and for a bad length the length field too.
pub open spec fn segments_read(s: Seq<u8>, p: int) -> int
    decreases s.len() - p,
{
    let len = s.len() as int;
    if p < 2 || p + 1 >= len {
        len
    } else if s[p] != MARKER {
        p + 2
    } else if s[p + 1] == EOI {
        len
    } else if is_rst(s[p + 1]) {
        p + 2
    } else if p + 3 >= len {
        len
    } else if segment_len(s, p + 2) < 2 {
        p + 4
    } else {
        let data_len = segment_len(s, p + 2) - 2;
        let q = p + 4;
        if q + data_len > len {
            len
        } else if s[p + 1] == SOS {
            let r = image_data_end(s, q + data_len);
            proof {
                lemma_image_data_end_bounds(s, q + data_len);
            }
            segments_read(s, r)
        } else {
            segments_read(s, q + data_len)
        }
    }
}

/// How many bytes a reader of the first image has taken from the stream
/// when it stops on a malformed image: the two bytes of a bad start marker,
/// or as `segments_read` says.
pub open spec fn malformed_read(s: Seq<u8>) -> int {
    if s.len() < 2 {
        s.len() as int
    } else if s[0] != MARKER || s[1] != SOI {
        2
    } else {
        segments_read(s, 2)
    }
}

/// How many bytes the reader has taken when `data` turns out malformed.
fn malformed_end(data: &[u8]) -> (n: usize)
    ensures
        n == malformed_read(data@),
        n <= data@.len(),
{
    let len = data.len();
    if len < 2 {
        return len;
    }
    if data[0] != MARKER || data[1] != SOI {
        return 2;
    }
    let mut p: usize = 2;
    loop
        invariant
            2 <= p <= len,
            len == data@.len(),
            malformed_read(data@) == segments_read(data@, p as int),
        decreases len - p,
    {
        if len - p <= 1 {
            return len;
        }
        if data[p] != MARKER {
            return p + 2;
        }
        let marker_type = data[p + 1];
        if marker_type == EOI {
            return len;
        }
        if RST0 <= marker_type && marker_type <= RST7 {
            return p + 2;
        }
        if len - p <= 3 {
            return len;
        }
        let seg_len: usize = (data[p + 2] as usize) * 256 + data[p + 3] as usize;
        if seg_len < 2 {
            return p + 4;
        }
        let data_len = seg_len - 2;
        let q = p + 4;
        if data_len > len - q {
            return len;
        }
        let q2 = q + data_len;
        if marker_type == SOS {
            p = find_image_data_end(data, q2);
        } else {
            p = q2;
        }
    }
}

/// A JPEG framer over the bytes received so far. Bytes are appended with
/// [`JpegScanner::push_bytes`]; [`JpegScanner::scan`] takes whole images off
/// the front.
pub struct JpegScanner {
    buf: Vec<u8>,
}

impl View for JpegScanner {
    type V = Seq<u8>;

    /// The bytes received and not yet handed out as an image.
    closed spec fn view(&self) -> Seq<u8> {
        self.buf@
    }
}

impl JpegScanner {
    /// A scanner whose stream starts with `data`.
    pub fn new(data: Vec<u8>) -> (s: JpegScanner)
        ensures
            s@ == data@,
    {
        JpegScanner { buf: data }
    }

    /// Appends bytes read from the stream.
    pub fn push_bytes(&mut self, more: &[u8])
        ensures
            final(self)@ == old(self)@ + more@,
    {
        let ghost start = self.buf@;
        let mut i: usize = 0;
        while i < more.len()
            invariant
                i <= more@.len(),
                self.buf@ == start + more@.subrange(0, i as int),
            decreases more@.len() - i,
        {
            self.buf.push(more[i]);
            i = i + 1;
            assert(self.buf@ =~= start + more@.subrange(0, i as int));
        }
        assert(more@.subrange(0, more@.len() as int) =~= more@);
    }

    /// Takes the next image off the front of the stream: `Ok(None)` when no
    /// byte is pending, the image's bytes when the pending bytes start with a
    /// whole image, and otherwise the reason. When more bytes could still
    /// complete the image, the pending bytes stay as they were; when the
    /// image is malformed, the bytes read up to the fault are dropped.
    pub fn scan(&mut self) -> (r: Result<Option<Vec<u8>>, ScanError>)
        ensures
            match r {
                Ok(None) => {
                    &&& first_frame(old(self)@) == Ok::<Option<int>, ScanError>(None)
                    &&& final(self)@ == old(self)@
                },
                Ok(Some(frame)) => {
                    &&& first_frame(old(self)@) == Ok::<Option<int>, ScanError>(
                        Some(frame@.len() as int),
                    )
                    &&& frame@ == old(self)@.subrange(0, frame@.len() as int)
                    &&& final(self)@ == old(self)@.subrange(
                        frame@.len() as int,
                        old(self)@.len() as int,
                    )
                },
                Err(e) => {
                    &&& first_frame(old(self)@) == Err::<Option<int>, ScanError>(e)
                    &&& e.needs_more_input() ==> final(self)@ == old(self)@
                    &&& !e.needs_more_input() ==> final(self)@ == old(self)@.subrange(
                        malformed_read(old(self)@),
                        old(self)@.len() as int,
                    )
                },
            },
            r is Ok ==> final(self)@ == pending_after(old(self)@, 1),
    {
        proof {
            assert(pending_after(self.buf@, 0) == self.buf@);
        }
        match find_frame_end(self.buf.as_slice()) {
            Ok(None) => Ok(None),
            Err(e) => {
                if !e.needs_more_input() {
                    let n = malformed_end(self.buf.as_slice());
                    let mut rest = self.buf.split_off(n);
                    std::mem::swap(&mut self.buf, &mut rest);
                }
                Err(e)
            },
            Ok(Some(n)) => {
                proof {
                    lemma_frame_shape(self.buf@);
                }
                let mut rest = self.buf.split_off(n);
                std::mem::swap(&mut self.buf, &mut rest);
                Ok(Some(rest))
            },
        }
    }
}

proof fn lemma_segments_shape(s: Seq<u8>, p: int)
    requires
        segments(s, p) matches Ok(Some(n)),
    ensures
        segments(s, p) matches Ok(Some(n)) && {
            &&& p + 2 <= n <= s.len()
            &&& s[n - 2] == MARKER
            &&& s[n - 1] == EOI
        },
    decreases s.len() - p,
{
    let len = s.len() as int;
    if 2 <= p < len && p + 1 != len && s[p] == MARKER && s[p + 1] != EOI && !is_rst(s[p + 1])
        && p + 3 < len && segment_len(s, p + 2) >= 2 {
        let data_len = segment_len(s, p + 2) - 2;
        let q = p + 4;
        if q + data_len <= len {
            if s[p + 1] == SOS {
                lemma_image_data_end_bounds(s, q + data_len);
                lemma_segments_shape(s, image_data_end(s, q + data_len));
            } else {
                lemma_segments_shape(s, q + data_len);
            }
        }
    }
}

/// The bytes handed out as an image start with the start-of-image marker and
/// end with the end-of-image marker.
pub proof fn lemma_frame_shape(s: Seq<u8>)
    requires
        first_frame(s) matches Ok(Some(n)),
    ensures
        first_frame(s) matches Ok(Some(n)) && {
            &&& 4 <= n <= s.len()
            &&& s[0] == MARKER
            &&& s[1] == SOI
            &&& s[n - 2] == MARKER
            &&& s[n - 1] == EOI
        },
{
    lemma_segments_shape(s, 2);
}

proof fn lemma_image_data_end_extend(s: Seq<u8>, t: Seq<u8>, q: int)
    requires
        0 <= q <= s.len(),
        image_data_end(s, q) < s.len(),
    ensures
        image_data_end(s + t, q) == image_data_end(s, q),
    decreases s.len() - q,
{
    let u = s + t;
    assert(u[q] == s[q]);
    if s[q] != MARKER {
        lemma_image_data_end_extend(s, t, q + 1);
    } else if q + 1 < s.len() {
        assert(u[q + 1] == s[q + 1]);
        if s[q + 1] == 0x00 || is_rst(s[q + 1]) {
            lemma_image_data_end_extend(s, t, q + 2);
        }
    }
}

proof fn lemma_segments_extend(s: Seq<u8>, t: Seq<u8>, p: int)
    requires
        match segments(s, p) {
            Ok(Some(_)) => true,
            Err(e) => !e.spec_needs_more_input(),
            Ok(None) => false,
        },
    ensures
        segments(s + t, p) == segments(s, p),
    decreases s.len() - p,
{
    let u = s + t;
    let len = s.len() as int;
    if 2 <= p && p + 1 < len {
        assert(u[p] == s[p]);
        assert(u[p + 1] == s[p + 1]);
        if s[p] == MARKER && s[p + 1] != EOI && !is_rst(s[p + 1]) && p + 3 < len {
            assert(u[p + 2] == s[p + 2]);
            assert(u[p + 3] == s[p + 3]);
            if segment_len(s, p + 2) >= 2 {
                let data_len = segment_len(s, p + 2) - 2;
                let q = p + 4;
                if q + data_len <= len {
                    if s[p + 1] == SOS {
                        let r = image_data_end(s, q + data_len);
                        lemma_image_data_end_bounds(s, q + data_len);
                        if r < len {
                            lemma_image_data_end_extend(s, t, q + data_len);
                        }
                        lemma_segments_extend(s, t, r);
                    } else {
                        lemma_segments_extend(s, t, q + data_len);
                    }
                }
            }
        }
    }
}

/// Once the bytes received hold a whole image, or show that the stream
/// cannot start with one, whatever follows them changes nothing: the scanner
/// never needs to look past the end of an image.
pub proof fn law_first_frame_is_stable(s: Seq<u8>, t: Seq<u8>)
    requires
        match first_frame(s) {
            Ok(Some(_)) => true,
            Err(e) => !e.spec_needs_more_input(),
            Ok(None) => false,
        },
    ensures
        first_frame(s + t) == first_frame(s),
{
    let u = s + t;
    assert(u[0] == s[0]);
    assert(u[1] == s[1]);
    if s[0] == MARKER && s[1] == SOI {
        lemma_segments_extend(s, t, 2);
    }
}

/// Images sent back to back come out one at a time: when `frame` is exactly
/// one whole image, the stream `frame + rest` yields `frame` first and leaves
/// `rest`.
pub proof fn law_back_to_back_frames(frame: Seq<u8>, rest: Seq<u8>)
    requires
        first_frame(frame) == Ok::<Option<int>, ScanError>(Some(frame.len() as int)),
    ensures
        first_frame(frame + rest) == Ok::<Option<int>, ScanError>(Some(frame.len() as int)),
        (frame + rest).subrange(0, frame.len() as int) == frame,
        (frame + rest).subrange(frame.len() as int, (frame + rest).len() as int) == rest,
{
    law_first_frame_is_stable(frame, rest);
    assert((frame + rest).subrange(0, frame.len() as int) =~= frame);
    assert((frame + rest).subrange(frame.len() as int, (frame + rest).len() as int) =~= rest);
}

/// The images one after another in a single stream.
pub open spec fn concat_all(images: Seq<Seq<u8>>) -> Seq<u8>
    decreases images.len(),
{
    if images.len() == 0 {
        Seq::empty()
    } else {
        images[0] + concat_all(images.drop_first())
    }
}

/// `image` is exactly one whole image.
pub open spec fn whole_image(image: Seq<u8>) -> bool {
    first_frame(image) == Ok::<Option<int>, ScanError>(Some(image.len() as int))
}

/// The bytes still pending after `k` scans of stream `s`, each taking the
/// leading image off (a scan that finds none leaves the bytes as they are):
/// what `JpegScanner::scan` leaves after each call that does not fail.
pub open spec fn pending_after(s: Seq<u8>, k: nat) -> Seq<u8>
    decreases k,
{
    if k == 0 {
        s
    } else {
        let p = pending_after(s, (k - 1) as nat);
        match first_frame(p) {
            Ok(Some(n)) => p.subrange(n, p.len() as int),
            _ => p,
        }
    }
}

proof fn lemma_pending_after_images(images: Seq<Seq<u8>>, i: nat)
    requires
        forall|j: int| 0 <= j < images.len() ==> whole_image(#[trigger] images[j]),
        i <= images.len(),
    ensures
        pending_after(concat_all(images), i) == concat_all(images.skip(i as int)),
    decreases i,
{
    if i == 0 {
        assert(images.skip(0) =~= images);
    } else {
        let k = (i - 1) as nat;
        lemma_pending_after_images(images, k);
        let rest = images.skip(k as int);
        assert(rest[0] == images[k as int]);
        assert(rest.drop_first() =~= images.skip(i as int));
        law_back_to_back_frames(rest[0], concat_all(rest.drop_first()));
    }
}

/// Scanning a stream of whole images one after another hands them out one
/// by one, byte for byte, and then finds no more: scan `i` (from 0) sees the
/// images from `i` on, takes off image `i`, and after the last the stream is
/// empty.
pub proof fn law_images_come_out_one_by_one(images: Seq<Seq<u8>>)
    requires
        forall|j: int| 0 <= j < images.len() ==> whole_image(#[trigger] images[j]),
    ensures
        forall|i: int|
            0 <= i < images.len() ==> {
                let p = #[trigger] pending_after(concat_all(images), i as nat);
                &&& first_frame(p) == Ok::<Option<int>, ScanError>(Some(images[i].len() as int))
                &&& p.subrange(0, images[i].len() as int) == images[i]
                &&& p.subrange(images[i].len() as int, p.len() as int) == concat_all(images.skip(i + 1))
            },
        first_frame(pending_after(concat_all(images), images.len())) == Ok::<Option<int>, ScanError>(
            None,
        ),
{
    assert forall|i: int| 0 <= i < images.len() implies {
        let p = #[trigger] pending_after(concat_all(images), i as nat);
        &&& first_frame(p) == Ok::<Option<int>, ScanError>(Some(images[i].len() as int))
        &&& p.subrange(0, images[i].len() as int) == images[i]
        &&& p.subrange(images[i].len() as int, p.len() as int) == concat_all(images.skip(i + 1))
    } by {
        lemma_pending_after_images(images, i as nat);
        let rest = images.skip(i);
        assert(rest[0] == images[i]);
        assert(rest.drop_first() =~= images.skip(i + 1));
        law_back_to_back_frames(rest[0], concat_all(rest.drop_first()));
    }
    lemma_pending_after_images(images, images.len());
    assert(images.skip(images.len() as int) =~= Seq::<Seq<u8>>::empty());
}

/// Bytes `q..e` of `s` are entropy-coded data: every 0xFF among them is a
/// stuffed 0xFF (followed by 0x00) or starts a restart marker (0xD0 to
/// 0xD7), both bytes lying in the range.
pub open spec fn entropy_coded(s: Seq<u8>, q: int, e: int) -> bool {
    forall|i: int|
        q <= i < e && #[trigger] s[i] == 0xFF ==> i + 1 < e && (s[i + 1] == 0x00 || 0xD0 <= s[i + 1]
            <= 0xD7)
}

/// Entropy-coded data runs up to the first marker that is neither a stuffed
/// 0xFF nor a restart marker: stuffed bytes and restart markers inside the
/// data belong to it.
pub proof fn law_image_data_keeps_restart_markers(s: Seq<u8>, q: int, e: int)
    requires
        0 <= q <= e,
        e + 1 < s.len(),
        entropy_coded(s, q, e),
        s[e] == 0xFF,
        s[e + 1] != 0x00,
        !(0xD0 <= s[e + 1] <= 0xD7),
    ensures
        image_data_end(s, q) == e,
    decreases e - q,
{
    if q < e {
        if s[q] != MARKER {
            law_image_data_keeps_restart_markers(s, q + 1, e);
        } else {
            assert(q + 1 < e);
            law_image_data_keeps_restart_markers(s, q + 2, e);
        }
    }
}

/// A stream that starts with an image made of the start-of-image marker, a
/// start-of-scan segment of `header.len() + 2` bytes, entropy-coded data
/// (restart markers included) and the end-of-image marker yields that whole
/// image as its first frame, whatever follows it.
pub proof fn law_scan_with_restart_markers_is_one_image(header: Seq<u8>, data: Seq<u8>, rest: Seq<u8>)
    requires
        header.len() + 2 <= 0xFFFF,
        entropy_coded(data, 0, data.len() as int),
    ensures
        ({
            let len: int = header.len() + 2int;
            let image = seq![0xFFu8, 0xD8, 0xFF, 0xDA, (len / 256) as u8, (len % 256) as u8] + header + data
                + seq![0xFFu8, 0xD9];
            first_frame(image + rest) == Ok::<Option<int>, ScanError>(Some(image.len() as int))
        }),
{
    let len: int = header.len() + 2int;
    let head = seq![0xFFu8, 0xD8, 0xFF, 0xDA, (len / 256) as u8, (len % 256) as u8];
    let image = head + header + data + seq![0xFFu8, 0xD9];
    let s = image + rest;
    let q: int = 6int + header.len();
    let e: int = q + data.len();
    assert(s[0] == 0xFF && s[1] == 0xD8 && s[2] == 0xFF && s[3] == 0xDA);
    assert(s[4] == (len / 256) as u8 && s[5] == (len % 256) as u8);
    assert(segment_len(s, 4) == len);
    assert forall|i: int| 0 <= i < data.len() implies s[q + i] == data[i] by {
        assert(s[q + i] == image[q + i]);
    }
    assert(s[e] == 0xFF && s[e + 1] == 0xD9);
    assert(entropy_coded(s, q, e)) by {
        assert forall|i: int| q <= i < e && #[trigger] s[i] == 0xFF implies i + 1 < e && (s[i + 1] == 0x00
            || 0xD0 <= s[i + 1] <= 0xD7) by {
            assert(s[i] == data[i - q]);
            assert(data[i - q] == 0xFF);
            assert(s[i + 1] == data[i - q + 1]);
        }
    }
    law_image_data_keeps_restart_markers(s, q, e);
    assert(segments(s, e) == Ok::<Option<int>, ScanError>(Some(e + 2)));
    assert(segments(s, 2) == segments(s, e));
}

} // verus!
