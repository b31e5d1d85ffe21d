//! The integer side of turning a recorded sequence into a train: dropping
//! the still frames at its end, the least length a motion fit needs, and the
//! per-frame offsets regenerated from fitted positions.
use vstd::prelude::*;

verus! {

/// How many zero offsets `dx` ends with.
pub open spec fn trailing_zeros(dx: Seq<i32>) -> nat
    decreases dx.len(),
{
    if dx.len() > 0 && dx.last() == 0 {
        1 + trailing_zeros(dx.drop_last())
    } else {
        0
    }
}

/// `s` without its last `k` items (empty when it has no more than `k`).
pub open spec fn drop_back<T>(s: Seq<T>, k: nat) -> Seq<T> {
    if k >= s.len() {
        Seq::empty()
    } else {
        s.take(s.len() - k)
    }
}

proof fn lemma_drop_one_more<T>(s: Seq<T>, k: nat)
    requires
        k < s.len(),
    ensures
        drop_back(s, k + 1) == drop_back(s, k).drop_last(),
{
    assert(drop_back(s, k + 1) =~= drop_back(s, k).drop_last());
}

/// Drops the frames at the end of a sequence that did not move: while the
/// last offset is zero, the last offset, timestamp and frame go.
pub fn strip_still_tail<T, F>(dx: &mut Vec<i32>, ts: &mut Vec<T>, frames: &mut Vec<F>)
    ensures
        final(dx)@ == drop_back(old(dx)@, trailing_zeros(old(dx)@)),
        final(ts)@ == drop_back(old(ts)@, trailing_zeros(old(dx)@)),
        final(frames)@ == drop_back(old(frames)@, trailing_zeros(old(dx)@)),
        trailing_zeros(final(dx)@) == 0,
{
    let ghost dx0 = dx@;
    let ghost ts0 = ts@;
    let ghost frames0 = frames@;
    let ghost mut k: nat = 0;
    while dx.len() > 0 && dx[dx.len() - 1] == 0
        invariant
            k <= dx0.len(),
            dx@ == drop_back(dx0, k),
            ts@ == drop_back(ts0, k),
            frames@ == drop_back(frames0, k),
            trailing_zeros(dx0) == k + trailing_zeros(dx@),
        decreases dx@.len(),
    {
        proof {
            lemma_drop_one_more(dx0, k);
            if k < ts0.len() {
                lemma_drop_one_more(ts0, k);
            } else {
                assert(drop_back(ts0, k + 1) =~= drop_back(ts0, k));
            }
            if k < frames0.len() {
                lemma_drop_one_more(frames0, k);
            } else {
                assert(drop_back(frames0, k + 1) =~= drop_back(frames0, k));
            }
        }
        dx.pop();
        ts.pop();
        frames.pop();
        proof {
            k = k + 1;
        }
    }
}

/// The fewest offsets a motion fit is tried on.
pub const MIN_FIT_LEN: usize = 9;

/// Whether a sequence of `n` offsets is long enough to fit a motion to.
pub fn long_enough_to_fit(n: usize) -> (b: bool)
    ensures
        b == (n >= MIN_FIT_LEN),
{
    n >= MIN_FIT_LEN
}

/// The offset of frame `i` from positions `xs`: its position less the one
/// before (zero before the first).
pub open spec fn step_of(xs: Seq<i32>, i: int) -> int {
    if i == 0 {
        xs[0] as int
    } else {
        xs[i] - xs[i - 1]
    }
}

/// Whether every offset between consecutive positions fits in an `i32`.
pub open spec fn steps_fit(xs: Seq<i32>) -> bool {
    forall|i: int| 0 <= i < xs.len() ==> i32::MIN <= #[trigger] step_of(xs, i) <= i32::MAX
}

/// The per-frame offsets that move from position 0 through the positions
/// `xs` in turn.
pub fn steps_from_positions(xs: &[i32]) -> (dx: Vec<i32>)
    requires
        steps_fit(xs@),
    ensures
        dx@.len() == xs@.len(),
        forall|i: int| 0 <= i < xs@.len() ==> dx@[i] == #[trigger] step_of(xs@, i),
{
    let mut dx: Vec<i32> = Vec::new();
    let mut prev: i32 = 0;
    let mut i: usize = 0;
    while i < xs.len()
        invariant
            i <= xs@.len(),
            steps_fit(xs@),
            dx@.len() == i,
            prev == (if i == 0 { 0 } else { xs@[i - 1] as int }),
            forall|j: int| 0 <= j < i ==> dx@[j] == #[trigger] step_of(xs@, j),
        decreases xs@.len() - i,
    {
        let x = xs[i];
        assert(i32::MIN <= step_of(xs@, i as int) <= i32::MAX);
        dx.push(x - prev);
        prev = x;
        i = i + 1;
    }
    dx
}

/// The sum of the first `k` offsets.
pub open spec fn prefix_sum(dx: Seq<i32>, k: int) -> int
    decreases k,
{
    if k <= 0 {
        0
    } else {
        prefix_sum(dx, k - 1) + dx[k - 1]
    }
}

/// Summing the regenerated offsets gives the positions back: after the
/// first `k` frames the train has moved to position `xs[k - 1]`.
pub proof fn law_steps_sum_to_positions(xs: Seq<i32>, dx: Seq<i32>, k: int)
    requires
        dx.len() == xs.len(),
        forall|i: int| 0 <= i < xs.len() ==> dx[i] == #[trigger] step_of(xs, i),
        1 <= k <= xs.len(),
    ensures
        prefix_sum(dx, k) == xs[k - 1],
    decreases k,
{
    if k > 1 {
        law_steps_sum_to_positions(xs, dx, k - 1);
        assert(dx[k - 1] == step_of(xs, k - 1));
    } else {
        assert(prefix_sum(dx, 0) == 0);
        assert(dx[0] == step_of(xs, 0));
    }
}

/// What a recorded sequence is: when it started (the timestamp of the frame
/// before its first, and the wall-clock time of its first), and per frame
/// the picture, the offset from the frame before and the timestamp.
pub struct SequenceView<I, T, W> {
    pub start_wall: Option<W>,
    pub start_ts: Option<T>,
    pub frames: Seq<I>,
    pub dx: Seq<i32>,
    pub ts: Seq<T>,
}

impl<I, T, W> SequenceView<I, T, W> {
    /// One picture, offset and timestamp per frame.
    pub open spec fn well_formed(self) -> bool {
        self.frames.len() == self.dx.len() && self.ts.len() == self.dx.len()
    }
}

/// The frames of a passing train as they are recorded, with the offsets
/// between them and their timestamps; `I` is the picture type, `T` the
/// monotonic and `W` the wall-clock time.
pub struct Sequence<I, T, W> {
    start_wall: Option<W>,
    start_ts: Option<T>,
    frames: Vec<I>,
    dx: Vec<i32>,
    ts: Vec<T>,
}

impl<I, T, W> View for Sequence<I, T, W> {
    type V = SequenceView<I, T, W>;

    closed spec fn view(&self) -> SequenceView<I, T, W> {
        SequenceView {
            start_wall: self.start_wall,
            start_ts: self.start_ts,
            frames: self.frames@,
            dx: self.dx@,
            ts: self.ts@,
        }
    }
}

impl<I, T, W> Sequence<I, T, W> {
    #[verifier::type_invariant]
    spec fn lengths_agree(self) -> bool {
        self.frames@.len() == self.dx@.len() && self.ts@.len() == self.dx@.len()
    }

    /// An empty sequence that has not started.
    pub fn new() -> (s: Sequence<I, T, W>)
        ensures
            s@.well_formed(),
            s@.start_wall is None,
            s@.start_ts is None,
            s@.frames.len() == 0,
            s@.dx.len() == 0,
            s@.ts.len() == 0,
    {
        Sequence {
            start_wall: None,
            start_ts: None,
            frames: Vec::new(),
            dx: Vec::new(),
            ts: Vec::new(),
        }
    }

    /// Whether no frame is recorded.
    pub fn is_empty(&self) -> (b: bool)
        ensures
            b == (self@.dx.len() == 0),
    {
        self.dx.len() == 0
    }

    /// How many frames are recorded.
    pub fn len(&self) -> (n: usize)
        ensures
            n == self@.dx.len(),
    {
        self.dx.len()
    }

    /// Records a frame, its offset from the frame before and its
    /// timestamps. The first frame also starts the sequence: at `prev_ts`,
    /// the timestamp of the frame before it, and at wall-clock time `wall`.
    pub fn record(&mut self, prev_ts: T, frame: I, dx: i32, ts: T, wall: W)
        ensures
            final(self)@.well_formed(),
            final(self)@.start_ts == (match old(self)@.start_ts {
                Some(t) => Some(t),
                None => Some(prev_ts),
            }),
            final(self)@.start_wall == (match old(self)@.start_wall {
                Some(t) => Some(t),
                None => Some(wall),
            }),
            final(self)@.frames == old(self)@.frames.push(frame),
            final(self)@.dx == old(self)@.dx.push(dx),
            final(self)@.ts == old(self)@.ts.push(ts),
    {
        let mut taken = Sequence::new();
        std::mem::swap(&mut taken, self);
        proof {
            use_type_invariant(&taken);
        }
        let Sequence { start_wall, start_ts, mut frames, dx: mut dxs, ts: mut tss } = taken;
        let start_ts = match start_ts {
            Some(t) => Some(t),
            None => Some(prev_ts),
        };
        let start_wall = match start_wall {
            Some(t) => Some(t),
            None => Some(wall),
        };
        frames.push(frame);
        dxs.push(dx);
        tss.push(ts);
        *self = Sequence { start_wall, start_ts, frames, dx: dxs, ts: tss };
    }

    /// Drops the frames at the end that did not move.
    pub fn strip_still_tail(&mut self)
        ensures
            final(self)@.well_formed(),
            final(self)@.start_ts == old(self)@.start_ts,
            final(self)@.start_wall == old(self)@.start_wall,
            final(self)@.dx == drop_back(old(self)@.dx, trailing_zeros(old(self)@.dx)),
            final(self)@.ts == drop_back(old(self)@.ts, trailing_zeros(old(self)@.dx)),
            final(self)@.frames == drop_back(old(self)@.frames, trailing_zeros(old(self)@.dx)),
            trailing_zeros(final(self)@.dx) == 0,
    {
        let mut taken = Sequence::new();
        std::mem::swap(&mut taken, self);
        proof {
            use_type_invariant(&taken);
        }
        let Sequence { start_wall, start_ts, mut frames, dx: mut dxs, ts: mut tss } = taken;
        strip_still_tail(&mut dxs, &mut tss, &mut frames);
        *self = Sequence { start_wall, start_ts, frames, dx: dxs, ts: tss };
    }

    /// The recorded pictures.
    pub fn frames(&self) -> (f: &[I])
        ensures
            f@ == self@.frames,
    {
        self.frames.as_slice()
    }

    /// The recorded offsets.
    pub fn dx(&self) -> (d: &[i32])
        ensures
            d@ == self@.dx,
    {
        self.dx.as_slice()
    }

    /// The recorded timestamps.
    pub fn ts(&self) -> (t: &[T])
        ensures
            t@ == self@.ts,
    {
        self.ts.as_slice()
    }

    /// The timestamp of the frame before the first.
    pub fn start_ts(&self) -> (t: &Option<T>)
        ensures
            *t == self@.start_ts,
    {
        &self.start_ts
    }

    /// The wall-clock time of the first frame.
    pub fn start_wall(&self) -> (t: &Option<W>)
        ensures
            *t == self@.start_wall,
    {
        &self.start_wall
    }

    /// The recorded frames, offsets and timestamps, taken apart.
    pub fn into_parts(self) -> (r: (Vec<I>, Vec<i32>, Vec<T>))
        ensures
            r.0@ == self@.frames,
            r.1@ == self@.dx,
            r.2@ == self@.ts,
    {
        (self.frames, self.dx, self.ts)
    }
}

} // verus!
