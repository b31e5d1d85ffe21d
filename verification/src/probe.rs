//! What `ffprobe` tells of a video file: the one video stream, its frame
//! size and its frame rate as text.
use vstd::prelude::*;
use crate::config::equals_chars;
use crate::text::chars_of;

verus! {

/// One stream as `ffprobe` describes it (the fields the detector reads).
#[derive(Clone, Debug)]
pub struct StreamInfo {
    pub codec_type: Option<String>,
    pub width: Option<u32>,
    pub height: Option<u32>,
    pub avg_frame_rate: Option<String>,
}

/// A field that the video stream lacks.
#[derive(Clone, Copy, Debug, PartialEq, Eq, Structural)]
pub enum ProbeField {
    Width,
    Height,
    AvgFrameRate,
}

/// Why a file's streams give no usable video stream.
#[derive(Clone, Copy, Debug, PartialEq, Eq, Structural)]
pub enum StreamError {
    NoVideoStream,
    MultipleVideoStreams,
    Missing(ProbeField),
}

/// The video stream's frame size and frame rate (as `ffprobe` writes it,
/// such as `30000/1001`).
#[derive(Clone, Debug)]
pub struct VideoStream {
    pub width: u32,
    pub height: u32,
    pub avg_frame_rate: String,
}

/// `video`.
pub open spec fn video_type() -> Seq<char> {
    seq!['v', 'i', 'd', 'e', 'o']
}

pub open spec fn is_video(s: StreamInfo) -> bool {
    s.codec_type matches Some(t) && t@ == video_type()
}

/// The number of video streams among the first `k`.
pub open spec fn video_count(streams: Seq<StreamInfo>, k: int) -> nat
    decreases k,
{
    if k <= 0 {
        0
    } else {
        video_count(streams, k - 1) + if is_video(streams[k - 1]) {
            1nat
        } else {
            0nat
        }
    }
}

/// What the streams give: the one video stream's size and frame rate, or why
/// there is none. With several video streams, or none, the fields are not
/// looked at; then width, height and frame rate are checked in this order.
pub open spec fn video_stream_of(streams: Seq<StreamInfo>) -> Result<(u32, u32, Seq<char>), StreamError> {
    let n = video_count(streams, streams.len() as int);
    if n == 0 {
        Err(StreamError::NoVideoStream)
    } else if n > 1 {
        Err(StreamError::MultipleVideoStreams)
    } else {
        let s = streams[choose|i: int| 0 <= i < streams.len() && is_video(streams[i])];
        match (s.width, s.height, s.avg_frame_rate) {
            (None, _, _) => Err(StreamError::Missing(ProbeField::Width)),
            (Some(_), None, _) => Err(StreamError::Missing(ProbeField::Height)),
            (Some(_), Some(_), None) => Err(StreamError::Missing(ProbeField::AvgFrameRate)),
            (Some(w), Some(h), Some(r)) => Ok((w, h, r@)),
        }
    }
}

fn is_video_stream(s: &StreamInfo) -> (b: bool)
    ensures
        b == is_video(*s),
{
    match &s.codec_type {
        Some(t) => {
            let v = chars_of(t.as_str());
            let name: [char; 5] = ['v', 'i', 'd', 'e', 'o'];
            assert(name@ =~= video_type());
            assert(v@.skip(0) =~= v@);
            equals_chars(&v, 0, &name)
        },
        None => false,
    }
}

proof fn lemma_single_video(streams: Seq<StreamInfo>, i: int, k: int)
    requires
        0 <= i < k <= streams.len(),
        is_video(streams[i]),
        video_count(streams, k) == 1,
    ensures
        forall|j: int| 0 <= j < k && j != i ==> !is_video(#[trigger] streams[j]),
    decreases k,
{
    if k - 1 != i {
        assert(!is_video(streams[k - 1])) by {
            lemma_count_positive(streams, i, k - 1);
        }
        lemma_single_video(streams, i, k - 1);
    } else {
        assert forall|j: int| 0 <= j < k - 1 implies !is_video(#[trigger] streams[j]) by {
            if is_video(streams[j]) {
                lemma_count_positive(streams, j, k - 1);
            }
        }
    }
}

proof fn lemma_count_positive(streams: Seq<StreamInfo>, i: int, k: int)
    requires
        0 <= i < k <= streams.len(),
        is_video(streams[i]),
    ensures
        video_count(streams, k) >= 1,
    decreases k,
{
    if k - 1 != i {
        lemma_count_positive(streams, i, k - 1);
    }
}

/// The one video stream of a file, with its frame size and frame rate.
pub fn video_stream(streams: &[StreamInfo]) -> (r: Result<VideoStream, StreamError>)
    ensures
        match (r, video_stream_of(streams@)) {
            (Ok(v), Ok((w, h, rate))) => v.width == w && v.height == h && v.avg_frame_rate@ == rate,
            (Err(e), Err(f)) => e == f,
            _ => false,
        },
{
    let mut count: usize = 0;
    let mut found: usize = 0;
    let mut i: usize = 0;
    while i < streams.len()
        invariant
            i <= streams@.len(),
            count == video_count(streams@, i as int),
            count <= i,
            count > 0 ==> found < i && is_video(streams@[found as int]),
        decreases streams@.len() - i,
    {
        if is_video_stream(&streams[i]) {
            if count == 0 {
                found = i;
            }
            count = count + 1;
        }
        i = i + 1;
    }
    if count == 0 {
        return Err(StreamError::NoVideoStream);
    }
    if count > 1 {
        return Err(StreamError::MultipleVideoStreams);
    }
    proof {
        lemma_single_video(streams@, found as int, streams@.len() as int);
        let c = choose|i: int| 0 <= i < streams@.len() && is_video(streams@[i]);
        assert(c == found);
    }
    let s = &streams[found];
    match (s.width, s.height, &s.avg_frame_rate) {
        (None, _, _) => Err(StreamError::Missing(ProbeField::Width)),
        (Some(_), None, _) => Err(StreamError::Missing(ProbeField::Height)),
        (Some(_), Some(_), None) => Err(StreamError::Missing(ProbeField::AvgFrameRate)),
        (Some(w), Some(h), Some(rate)) => Ok(VideoStream { width: w, height: h, avg_frame_rate: rate.clone() }),
    }
}

} // verus!
