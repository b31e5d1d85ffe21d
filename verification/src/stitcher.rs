//! What the automatic stitcher does with each frame: skip it (and why),
//! record it into the running sequence, start a new sequence with it, or
//! stitch the sequence and start over. The measurements behind the decision
//! (frame period, contrast, cosine scores, the low-pass filtered offset) are
//! taken by the caller and handed in as facts.
use vstd::prelude::*;

verus! {

/// What was measured of a frame.
#[derive(Clone, Copy, Debug, PartialEq, Eq, Structural)]
pub struct FrameFacts {
    /// There was a frame before this one.
    pub has_prev: bool,
    /// It came too soon after the frame before.
    pub too_fast: bool,
    /// Its width in pixels.
    pub width: u32,
    /// The smallest and largest offset a train moves between two frames.
    pub min_dx: u32,
    pub max_dx: u32,
    /// Its contrast is too low to find an offset in.
    pub low_contrast: bool,
    /// The last recorded frame lies too far back.
    pub stale: bool,
    /// The offset found against the frame before.
    pub dx: i32,
    /// The offset's cosine score is good enough to call the picture still.
    pub cos_still: bool,
    /// The offset's cosine score is good enough to call the picture moving.
    pub cos_move: bool,
    /// The low-pass filtered offset, updated with this frame's, has dropped
    /// below the smallest offset.
    pub low_pass_below_min: bool,
}

/// Why a frame was not recorded, or what became of it, for the metrics.
#[derive(Clone, Copy, Debug, PartialEq, Eq, Structural)]
pub enum Disposition {
    Unknown,
    FastFrame,
    SlowFrame,
    LowContrast,
    NotMoving,
    Inconclusive,
    Recorded,
    RecordedNewSequence,
}

impl Disposition {
    /// The disposition's label in the metrics.
    pub fn name(self) -> (s: &'static str)
        ensures
            s@ == (match self {
                Disposition::Unknown => "unknown"@,
                Disposition::FastFrame => "fast_frame"@,
                Disposition::SlowFrame => "slow_frame"@,
                Disposition::LowContrast => "low_contrast"@,
                Disposition::NotMoving => "not_moving"@,
                Disposition::Inconclusive => "inconclusive"@,
                Disposition::Recorded => "recorded"@,
                Disposition::RecordedNewSequence => "recorded_new_sequence"@,
            }),
    {
        match self {
            Disposition::Unknown => "unknown",
            Disposition::FastFrame => "fast_frame",
            Disposition::SlowFrame => "slow_frame",
            Disposition::LowContrast => "low_contrast",
            Disposition::NotMoving => "not_moving",
            Disposition::Inconclusive => "inconclusive",
            Disposition::Recorded => "recorded",
            Disposition::RecordedNewSequence => "recorded_new_sequence",
        }
    }
}

/// What the stitcher does with a frame.
#[derive(Clone, Copy, Debug, PartialEq, Eq, Structural)]
pub enum FrameAction {
    /// The first frame: it only becomes the frame before the next one.
    NoPrevious,
    /// The frame is not recorded, for this reason.
    Skip(Disposition),
    /// The frame is added to the running sequence.
    Record,
    /// The frame starts a new sequence.
    StartSequence,
    /// The running sequence is stitched and the stitcher starts over; the
    /// frame's disposition is the one given.
    StitchAndReset(Disposition),
}

impl FrameAction {
    /// The disposition the frame is counted under: none for the first frame.
    pub open spec fn spec_disposition(self) -> Option<Disposition> {
        match self {
            FrameAction::NoPrevious => None,
            FrameAction::Skip(d) => Some(d),
            FrameAction::Record => Some(Disposition::Recorded),
            FrameAction::StartSequence => Some(Disposition::RecordedNewSequence),
            FrameAction::StitchAndReset(d) => Some(d),
        }
    }

    #[verifier::when_used_as_spec(spec_disposition)]
    pub fn disposition(self) -> (d: Option<Disposition>)
        ensures
            d == self.spec_disposition(),
    {
        match self {
            FrameAction::NoPrevious => None,
            FrameAction::Skip(d) => Some(d),
            FrameAction::Record => Some(Disposition::Recorded),
            FrameAction::StartSequence => Some(Disposition::RecordedNewSequence),
            FrameAction::StitchAndReset(d) => Some(d),
        }
    }
}

pub open spec fn abs_int(v: int) -> int {
    if v < 0 {
        -v
    } else {
        v
    }
}

/// Whether the decision reads the offset, its cosine scores and the
/// low-pass filter: only for a frame that follows another, not too soon, is
/// wide enough for the search and has enough contrast.
pub open spec fn offset_needed_of(f: FrameFacts) -> bool {
    f.has_prev && !f.too_fast && f.width >= 3 * f.max_dx && !f.low_contrast
}

/// What the stitcher does with a frame with these facts while the running
/// sequence holds `seq_len` frames and may hold `max_frames`:
/// - the first frame, a frame too soon after the one before, a frame too
///   narrow to search three largest offsets in, and a frame of low contrast
///   are skipped; a low-contrast frame long after the last recorded one
///   ends a running sequence;
/// - while a sequence runs, it is stitched when it holds more than
///   `max_frames` frames or the filtered offset has dropped below the
///   smallest, and otherwise the frame is recorded;
/// - otherwise a still picture (good score, offset below the smallest) is
///   skipped, a moving one (good score, offset between the smallest and the
///   largest) starts a sequence, and anything else is inconclusive.
pub open spec fn frame_action_of(f: FrameFacts, seq_len: nat, max_frames: nat) -> FrameAction {
    if !f.has_prev {
        FrameAction::NoPrevious
    } else if f.too_fast {
        FrameAction::Skip(Disposition::FastFrame)
    } else if f.width < 3 * f.max_dx {
        FrameAction::Skip(Disposition::SlowFrame)
    } else if f.low_contrast {
        if seq_len > 0 && f.stale {
            FrameAction::StitchAndReset(Disposition::LowContrast)
        } else {
            FrameAction::Skip(Disposition::LowContrast)
        }
    } else if seq_len > 0 {
        if seq_len > max_frames {
            FrameAction::StitchAndReset(Disposition::Unknown)
        } else if f.low_pass_below_min {
            FrameAction::StitchAndReset(Disposition::Unknown)
        } else {
            FrameAction::Record
        }
    } else if f.cos_still && abs_int(f.dx as int) < f.min_dx {
        FrameAction::Skip(Disposition::NotMoving)
    } else if f.cos_move && f.min_dx <= abs_int(f.dx as int) <= f.max_dx {
        FrameAction::StartSequence
    } else {
        FrameAction::Skip(Disposition::Inconclusive)
    }
}

/// Whether the offset, its scores and the low-pass filter must be measured
/// for a frame with these facts.
pub fn offset_needed(has_prev: bool, too_fast: bool, width: u32, max_dx: u32, low_contrast: bool) -> (b: bool)
    ensures
        b == (has_prev && !too_fast && width >= 3 * max_dx && !low_contrast),
{
    has_prev && !too_fast && (width as u64) >= 3 * (max_dx as u64) && !low_contrast
}

fn unsigned_abs(v: i32) -> (a: u32)
    ensures
        a == abs_int(v as int),
{
    if v < 0 {
        if v == i32::MIN {
            2147483648u32
        } else {
            (-v) as u32
        }
    } else {
        v as u32
    }
}

/// What the stitcher does with a frame.
pub fn decide_frame(f: FrameFacts, seq_len: usize, max_frames: usize) -> (a: FrameAction)
    ensures
        a == frame_action_of(f, seq_len as nat, max_frames as nat),
        (f.has_prev && !f.too_fast && seq_len > 0 && seq_len > max_frames && !f.low_contrast
            && f.width >= 3 * f.max_dx) ==> a is StitchAndReset,
        !offset_needed_of(f) ==> a == frame_action_of(
            FrameFacts { dx: 0, cos_still: false, cos_move: false, low_pass_below_min: false, ..f },
            seq_len as nat,
            max_frames as nat,
        ),
{
    if !f.has_prev {
        FrameAction::NoPrevious
    } else if f.too_fast {
        FrameAction::Skip(Disposition::FastFrame)
    } else if (f.width as u64) < 3 * (f.max_dx as u64) {
        FrameAction::Skip(Disposition::SlowFrame)
    } else if f.low_contrast {
        if seq_len > 0 && f.stale {
            FrameAction::StitchAndReset(Disposition::LowContrast)
        } else {
            FrameAction::Skip(Disposition::LowContrast)
        }
    } else if seq_len > 0 {
        if seq_len > max_frames {
            FrameAction::StitchAndReset(Disposition::Unknown)
        } else if f.low_pass_below_min {
            FrameAction::StitchAndReset(Disposition::Unknown)
        } else {
            FrameAction::Record
        }
    } else {
        let a = unsigned_abs(f.dx);
        if f.cos_still && a < f.min_dx {
            FrameAction::Skip(Disposition::NotMoving)
        } else if f.cos_move && f.min_dx <= a && a <= f.max_dx {
            FrameAction::StartSequence
        } else {
            FrameAction::Skip(Disposition::Inconclusive)
        }
    }
}

/// The length of the running sequence after the stitcher has taken a frame
/// with action `a` while it held `len` frames.
pub open spec fn length_after(len: nat, a: FrameAction) -> nat {
    match a {
        FrameAction::Record => len + 1,
        FrameAction::StartSequence => len + 1,
        FrameAction::StitchAndReset(_) => 0,
        _ => len,
    }
}

/// The length of the running sequence after the stitcher, starting empty,
/// has taken the first `k` frames of `frames`.
pub open spec fn length_after_frames(frames: Seq<FrameFacts>, max_frames: nat, k: int) -> nat
    decreases k,
{
    if k <= 0 {
        0
    } else {
        let len = length_after_frames(frames, max_frames, k - 1);
        length_after(len, frame_action_of(frames[k - 1], len, max_frames))
    }
}

/// A sequence that the stitcher builds never holds more than
/// `max_frames + 1` frames: once it holds more than `max_frames`, the next
/// frame with enough contrast stitches it instead of extending it.
pub proof fn law_sequence_length_is_bounded(frames: Seq<FrameFacts>, max_frames: nat, k: int)
    requires
        0 <= k <= frames.len(),
    ensures
        length_after_frames(frames, max_frames, k) <= max_frames + 1,
    decreases k,
{
    if k > 0 {
        law_sequence_length_is_bounded(frames, max_frames, k - 1);
    }
}

/// With no sequence running, a frame that can be measured (it follows
/// another, not too soon, is wide enough and has contrast) and that moves
/// by an offset between the smallest and the largest, with a score good
/// enough for a moving picture, starts a sequence, whatever the stricter
/// score for a still picture says.
pub proof fn law_moving_frame_starts_a_sequence(f: FrameFacts, max_frames: nat)
    requires
        offset_needed_of(f),
        f.cos_move,
        f.min_dx <= abs_int(f.dx as int) <= f.max_dx,
    ensures
        frame_action_of(f, 0, max_frames) == FrameAction::StartSequence,
        frame_action_of(FrameFacts { cos_still: !f.cos_still, ..f }, 0, max_frames)
            == FrameAction::StartSequence,
{
}

/// With no sequence running, a measurable frame whose score is good enough
/// for a still picture and whose offset is below the smallest is skipped as
/// not moving; one whose score passes neither threshold is inconclusive.
pub proof fn law_idle_frames_are_skipped(f: FrameFacts, max_frames: nat)
    requires
        offset_needed_of(f),
    ensures
        f.cos_still && abs_int(f.dx as int) < f.min_dx ==> frame_action_of(f, 0, max_frames)
            == FrameAction::Skip(Disposition::NotMoving),
        !f.cos_still && !f.cos_move ==> frame_action_of(f, 0, max_frames) == FrameAction::Skip(
            Disposition::Inconclusive,
        ),
        f.cos_move && abs_int(f.dx as int) > f.max_dx && !(f.cos_still && abs_int(f.dx as int)
            < f.min_dx) ==> frame_action_of(f, 0, max_frames) == FrameAction::Skip(
            Disposition::Inconclusive,
        ),
{
}

/// While a sequence runs, a measurable frame is recorded as long as the
/// sequence holds at most `max_frames` frames and the filtered offset stays
/// at or above the smallest; the scores of the frame do not matter then.
pub proof fn law_running_sequence_records(f: FrameFacts, seq_len: nat, max_frames: nat)
    requires
        offset_needed_of(f),
        0 < seq_len <= max_frames,
    ensures
        !f.low_pass_below_min ==> frame_action_of(f, seq_len, max_frames) == FrameAction::Record,
        f.low_pass_below_min ==> frame_action_of(f, seq_len, max_frames) == FrameAction::StitchAndReset(
            Disposition::Unknown,
        ),
        frame_action_of(FrameFacts { cos_still: !f.cos_still, cos_move: !f.cos_move, ..f }, seq_len, max_frames)
            == frame_action_of(f, seq_len, max_frames),
{
}

/// Frames that cannot be measured: the first frame only becomes the frame
/// before the next; a frame too soon after the one before is a fast frame, a
/// frame narrower than three largest offsets a slow one; a frame of low
/// contrast is skipped, or ends the running sequence when the last recorded
/// frame lies too far back. None of them is recorded.
pub proof fn law_unmeasurable_frames(f: FrameFacts, seq_len: nat, max_frames: nat)
    requires
        !offset_needed_of(f),
    ensures
        !f.has_prev ==> frame_action_of(f, seq_len, max_frames) == FrameAction::NoPrevious,
        f.has_prev && f.too_fast ==> frame_action_of(f, seq_len, max_frames) == FrameAction::Skip(
            Disposition::FastFrame,
        ),
        f.has_prev && !f.too_fast && f.width < 3 * f.max_dx ==> frame_action_of(f, seq_len, max_frames)
            == FrameAction::Skip(Disposition::SlowFrame),
        f.has_prev && !f.too_fast && f.width >= 3 * f.max_dx ==> frame_action_of(f, seq_len, max_frames)
            == if seq_len > 0 && f.stale {
            FrameAction::StitchAndReset(Disposition::LowContrast)
        } else {
            FrameAction::Skip(Disposition::LowContrast)
        },
        !(frame_action_of(f, seq_len, max_frames) is Record),
        !(frame_action_of(f, seq_len, max_frames) is StartSequence),
{
}

} // verus!
