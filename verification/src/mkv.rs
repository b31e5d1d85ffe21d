//! The pieces of the Matroska stream that hands the frames of a sequence to
//! ffmpeg: the segment of unknown size and the body of a SimpleBlock, which
//! the Matroska library does not write, and the Cluster of each frame at its
//! timestamp.
use vstd::prelude::*;

verus! {

#[verifier::external_type_specification]
#[verifier::external_body]
pub struct ExBytesMut(bytes::BytesMut);

/// The bytes a `bytes::BytesMut` holds.
pub uninterp spec fn bytes_mut_contents(b: bytes::BytesMut) -> Seq<u8>;

/// Calls `bytes::BytesMut::with_capacity`. Trusted: the buffer is empty;
/// the room it was made with is not described.
#[verifier::external_body]
fn bytes_mut_with_capacity(capacity: usize) -> (b: bytes::BytesMut)
    requires
        capacity <= isize::MAX,
    ensures
        bytes_mut_contents(b) == Seq::<u8>::empty(),
{
    bytes::BytesMut::with_capacity(capacity)
}

/// Calls `bytes::BufMut::put_u8` on a `BytesMut`. Trusted: it appends the
/// byte (the buffer grows as needed, as the crate's source shows).
#[verifier::external_body]
fn put_u8(out: &mut bytes::BytesMut, n: u8)
    requires
        bytes_mut_contents(*old(out)).len() + 1 <= isize::MAX,
    ensures
        bytes_mut_contents(*final(out)) == bytes_mut_contents(*old(out)).push(n),
{
    bytes::BufMut::put_u8(out, n)
}

/// The two bytes of `n` in big-endian order (two's complement).
pub open spec fn be_bytes_i16(n: i16) -> Seq<u8> {
    let u = (n as int) % 65536;
    seq![(u / 256) as u8, (u % 256) as u8]
}

/// Calls `bytes::BufMut::put_i16` on a `BytesMut`. Trusted: it appends the
/// two bytes of `n` in big-endian order.
#[verifier::external_body]
fn put_i16(out: &mut bytes::BytesMut, n: i16)
    requires
        bytes_mut_contents(*old(out)).len() + 2 <= isize::MAX,
    ensures
        bytes_mut_contents(*final(out)) == bytes_mut_contents(*old(out)) + be_bytes_i16(n),
{
    bytes::BufMut::put_i16(out, n)
}

/// Calls `bytes::BufMut::put` on a `BytesMut` with a byte slice. Trusted:
/// it appends the bytes (an empty slice changes nothing; into an empty
/// buffer without room the bytes are copied whole).
#[verifier::external_body]
fn put_bytes(out: &mut bytes::BytesMut, payload: &[u8])
    requires
        bytes_mut_contents(*old(out)).len() + payload@.len() <= isize::MAX,
    ensures
        bytes_mut_contents(*final(out)) == bytes_mut_contents(*old(out)) + payload@,
{
    bytes::BufMut::put(out, payload)
}

/// The body of a Matroska SimpleBlock: the track number as a one-byte
/// variable-size integer, the timestamp relative to the cluster (big-endian),
/// the flags (keyframe, no lacing) and the frame's bytes.
pub open spec fn simple_block_of(track: u8, rel_ts: i16, keyframe: bool, payload: Seq<u8>) -> Seq<u8> {
    seq![0x80u8 | track] + be_bytes_i16(rel_ts) + seq![
        if keyframe {
            0x80u8
        } else {
            0x00u8
        },
    ] + payload
}

/// Appends the body of a SimpleBlock to `out`.
pub fn simple_block_body(
    out: &mut bytes::BytesMut,
    track: u8,
    rel_ts: i16,
    keyframe: bool,
    payload: &[u8],
)
    requires
        bytes_mut_contents(*old(out)).len() + 4 + payload@.len() <= isize::MAX,
    ensures
        bytes_mut_contents(*final(out)) == bytes_mut_contents(*old(out)) + simple_block_of(
            track,
            rel_ts,
            keyframe,
            payload@,
        ),
{
    let ghost start = bytes_mut_contents(*out);
    put_u8(out, 0x80 | track);
    put_i16(out, rel_ts);
    put_u8(out, if keyframe { 0x80 } else { 0x00 });
    put_bytes(out, payload);
    assert(bytes_mut_contents(*out) =~= start + simple_block_of(track, rel_ts, keyframe, payload@));
}

/// The track the frames go to.
pub const TRACK_NUMBER: u8 = 1;

/// The SimpleBlock for one frame of raw pixels: track 1, at the cluster's
/// own timestamp, a keyframe.
pub fn frame_block(raw_pixels: &[u8]) -> (b: bytes::BytesMut)
    requires
        raw_pixels@.len() + 4 <= isize::MAX,
    ensures
        bytes_mut_contents(b) == simple_block_of(TRACK_NUMBER, 0, true, raw_pixels@),
{
    let mut b = bytes_mut_with_capacity(4 + raw_pixels.len());
    simple_block_body(&mut b, TRACK_NUMBER, 0, true, raw_pixels);
    assert(Seq::<u8>::empty() + simple_block_of(TRACK_NUMBER, 0, true, raw_pixels@)
        =~= simple_block_of(TRACK_NUMBER, 0, true, raw_pixels@));
    b
}

/// The start of a Matroska segment whose size is not known while it is
/// written: the Segment ID and the eight-byte "unknown size".
pub open spec fn open_segment_bytes() -> Seq<u8> {
    seq![0x18u8, 0x53, 0x80, 0x67, 0x01, 0xFF, 0xFF, 0xFF, 0xFF, 0xFF, 0xFF, 0xFF]
}

/// The start of a Matroska segment of unknown size.
pub fn open_segment() -> (b: Vec<u8>)
    ensures
        b@ == open_segment_bytes(),
{
    let b: Vec<u8> = vec![0x18, 0x53, 0x80, 0x67, 0x01, 0xFF, 0xFF, 0xFF, 0xFF, 0xFF, 0xFF, 0xFF];
    assert(b@ =~= open_segment_bytes());
    b
}

/// Timestamp ticks per millisecond: the stream counts in microseconds.
pub const TICKS_PER_MS: u64 = 1000;

/// The timestamp of the cluster for a frame taken `elapsed_ms` milliseconds
/// after the first, in the stream's ticks.
pub fn cluster_timestamp(elapsed_ms: u128) -> (t: u64)
    requires
        elapsed_ms * TICKS_PER_MS <= u64::MAX,
    ensures
        t == elapsed_ms * TICKS_PER_MS,
{
    let ms = elapsed_ms as u64;
    ms * TICKS_PER_MS
}

/// The bytes `mkv_element` writes for a Cluster at `timestamp` that holds
/// one SimpleBlock whose body is `block`.
pub uninterp spec fn mkv_cluster(timestamp: u64, block: Seq<u8>) -> Seq<u8>;

/// The largest element body whose size `mkv_element` can write: its size
/// field takes at most eight bytes.
pub open spec fn max_body_len() -> int {
    0x00FF_FFFF_FFFF_FFFF
}

/// Writes, with `mkv_element`'s `WriteTo::write_to` into a `Vec`, a Cluster
/// at `timestamp` holding one SimpleBlock with the body `block`. Trusted:
/// the bytes are the name `mkv_cluster` of the timestamp and the block's
/// bytes, and writing succeeds (the crate's encoders of these elements
/// return no error, and writing to a `Vec` does not fail). A body of 2^56
/// bytes or more, whose size field would not fit, is left out.
#[verifier::external_body]
fn cluster_bytes(timestamp: u64, block: bytes::BytesMut) -> (r: Option<Vec<u8>>)
    requires
        bytes_mut_contents(block).len() + 32 <= max_body_len(),
        bytes_mut_contents(block).len() + 32 <= isize::MAX,
    ensures
        r is Some,
        r matches Some(b) ==> b@ == mkv_cluster(timestamp, bytes_mut_contents(block)),
{
    let cluster = mkv_element::prelude::Cluster {
        timestamp: mkv_element::prelude::Timestamp(timestamp),
        blocks: vec![mkv_element::ClusterBlock::Simple(mkv_element::prelude::SimpleBlock(block.freeze()))],
        ..Default::default()
    };
    let mut out: Vec<u8> = Vec::new();
    match mkv_element::io::blocking_impl::WriteTo::write_to(&cluster, &mut out) {
        Ok(()) => Some(out),
        Err(_) => None,
    }
}

/// The Cluster that carries one frame of raw pixels taken `elapsed_ms`
/// milliseconds after the first frame: at that time in the stream's ticks,
/// with the frame as a keyframe SimpleBlock on the video track.
pub open spec fn frame_cluster_bytes(raw_pixels: Seq<u8>, elapsed_ms: u128) -> Seq<u8> {
    mkv_cluster((elapsed_ms * TICKS_PER_MS) as u64, simple_block_of(TRACK_NUMBER, 0, true, raw_pixels))
}

/// The bytes of the Cluster for one frame of raw pixels taken `elapsed_ms`
/// milliseconds after the first frame of the sequence.
pub fn frame_cluster(raw_pixels: &[u8], elapsed_ms: u128) -> (b: Vec<u8>)
    requires
        raw_pixels@.len() + 36 <= max_body_len(),
        raw_pixels@.len() + 36 <= isize::MAX,
        elapsed_ms * TICKS_PER_MS <= u64::MAX,
    ensures
        b@ == frame_cluster_bytes(raw_pixels@, elapsed_ms),
{
    let block = frame_block(raw_pixels);
    let ts = cluster_timestamp(elapsed_ms);
    match cluster_bytes(ts, block) {
        Some(b) => b,
        None => Vec::new(),
    }
}

} // verus!
