use vstd::prelude::*;

verus! {

/// Keyframe payloads of one channel.
///
/// Every component is a 32-bit pattern. The library stores, selects and hands
/// these patterns back; it never computes with them, so what number a pattern
/// encodes is the caller's business.
#[derive(Debug)]
pub enum Keyframes {
    Translation(Vec<[u32; 3]>),
    Rotation(Vec<[u32; 4]>),
    Scale(Vec<[u32; 3]>),
    Weights(Vec<u32>),
    Empty,
}

/// Why a channel was rejected when it was built.
#[derive(Clone, Copy, Debug, PartialEq, Eq, Structural)]
pub enum ChannelError {
    /// A translation, rotation or scale channel whose payload count differs
    /// from its timestamp count.
    LengthMismatch,
    /// Some timestamp is smaller than the one before it.
    UnorderedTimestamps,
}

/// The two keyframes around a query time and the position of the time between
/// them, as the exact fraction `offset / span`.
#[derive(Clone, Copy, Debug, PartialEq, Eq)]
pub struct Blend<const N: usize> {
    /// Index of the keyframe at or before the query time.
    pub lower: usize,
    /// Index of the keyframe after `lower`, or `lower` itself at the last keyframe.
    pub upper: usize,
    /// Payload of keyframe `lower`.
    pub start: [u32; N],
    /// Payload of keyframe `upper`.
    pub end: [u32; N],
    /// Query time minus the time of `lower`; zero whenever `span` is zero, and
    /// zero for a query time before the first keyframe.
    pub offset: i128,
    /// Time of `upper` minus time of `lower`.
    pub span: i128,
}

/// Timestamps never decrease.
pub open spec fn sorted(ts: Seq<i64>) -> bool {
    forall|i: int, j: int| 0 <= i <= j < ts.len() ==> ts[i] <= ts[j]
}

/// `i` is the keyframe to interpolate from at time `t`: the last keyframe that
/// is not later than `t`, or keyframe 0 when `t` lies before all of them.
pub open spec fn is_lower_bracket(ts: Seq<i64>, t: i64, i: int) -> bool {
    &&& 0 <= i < ts.len()
    &&& (i == 0 || ts[i] <= t)
    &&& (i + 1 < ts.len() ==> t < ts[i + 1])
}

/// The lower bracket of `t`. On ordered, non-empty timestamps exactly one
/// index is a lower bracket (see [`lemma_lower_bracket_unique`]).
pub open spec fn lower_bracket(ts: Seq<i64>, t: i64) -> int {
    choose|i: int| is_lower_bracket(ts, t, i)
}

/// The keyframe to interpolate towards: the one after `lower`, clamped to the
/// last keyframe.
pub open spec fn upper_bracket(len: nat, lower: int) -> int {
    if lower + 1 < len {
        lower + 1
    } else {
        lower
    }
}

/// The blend that belongs to lower bracket `lower` at time `t`. A time before
/// keyframe `lower`, which is then the first keyframe, rests at that keyframe:
/// nothing is extrapolated.
pub open spec fn blend_at<const N: usize>(
    ts: Seq<i64>,
    frames: Seq<[u32; N]>,
    t: i64,
    lower: int,
) -> Blend<N> {
    let upper = upper_bracket(ts.len(), lower);
    let span = ts[upper] - ts[lower];
    Blend {
        lower: lower as usize,
        upper: upper as usize,
        start: frames[lower],
        end: frames[upper],
        offset: if span == 0 || t < ts[lower] { 0 } else { (t - ts[lower]) as i128 },
        span: span as i128,
    }
}

/// Whether payloads and timestamps of a channel fit together.
pub open spec fn lengths_agree(ts: Seq<i64>, keyframes: Keyframes) -> bool {
    match keyframes {
        Keyframes::Translation(v) => v@.len() == ts.len(),
        Keyframes::Rotation(v) => v@.len() == ts.len(),
        Keyframes::Scale(v) => v@.len() == ts.len(),
        Keyframes::Weights(_) => true,
        Keyframes::Empty => true,
    }
}

/// One animated property of one node: timestamps in ticks, and one payload
/// per timestamp.
#[derive(Debug)]
pub struct Channel {
    node_index: usize,
    timestamps: Vec<i64>,
    keyframes: Keyframes,
}

impl Channel {
    /// Index of the node that the channel animates.
    pub closed spec fn node(&self) -> usize {
        self.node_index
    }

    /// The channel's timestamps.
    pub closed spec fn times(&self) -> Seq<i64> {
        self.timestamps@
    }

    /// The channel's payloads.
    pub closed spec fn frames(&self) -> Keyframes {
        self.keyframes
    }

    /// Timestamps never decrease, and a translation, rotation or scale
    /// channel has one payload per timestamp.
    #[verifier::type_invariant]
    pub closed spec fn wf(&self) -> bool {
        sorted(self.timestamps@) && lengths_agree(self.timestamps@, self.keyframes)
    }

    /// Builds a channel, rejecting payloads that do not match the timestamps
    /// and timestamps that go backwards.
    pub fn new(node_index: usize, timestamps: Vec<i64>, keyframes: Keyframes) -> (r: Result<
        Channel,
        ChannelError,
    >)
        ensures
            match r {
                Ok(c) => {
                    &&& c.wf()
                    &&& c.node() == node_index
                    &&& c.times() == timestamps@
                    &&& c.frames() == keyframes
                    &&& lengths_agree(timestamps@, keyframes)
                    &&& sorted(timestamps@)
                },
                Err(ChannelError::LengthMismatch) => !lengths_agree(timestamps@, keyframes),
                Err(ChannelError::UnorderedTimestamps) => lengths_agree(timestamps@, keyframes)
                    && !sorted(timestamps@),
            },
    {
        let n: usize = timestamps.len();
        let agree: bool = match &keyframes {
            Keyframes::Translation(v) => v.len() == n,
            Keyframes::Rotation(v) => v.len() == n,
            Keyframes::Scale(v) => v.len() == n,
            Keyframes::Weights(_) => true,
            Keyframes::Empty => true,
        };
        if !agree {
            return Err(ChannelError::LengthMismatch);
        }
        let mut k: usize = 1;
        while k < n
            invariant
                n == timestamps@.len(),
                lengths_agree(timestamps@, keyframes),
                1 <= k,
                forall|i: int| 0 < i < k && i < n ==> timestamps@[i - 1] <= #[trigger] timestamps@[i],
            decreases n - k,
        {
            if timestamps[k] < timestamps[k - 1] {
                assert(!sorted(timestamps@)) by {
                    assert(timestamps@[k - 1] > timestamps@[k as int]);
                }
                return Err(ChannelError::UnorderedTimestamps);
            }
            k += 1;
        }
        proof {
            lemma_adjacent_sorted(timestamps@);
        }
        Ok(Channel { node_index, timestamps, keyframes })
    }

    pub fn node_index(&self) -> (i: usize)
        ensures
            i == self.node(),
    {
        self.node_index
    }

    pub fn timestamps(&self) -> (ts: &Vec<i64>)
        ensures
            ts@ == self.times(),
            sorted(ts@),
    {
        proof {
            use_type_invariant(self);
        }
        &self.timestamps
    }

    pub fn keyframes(&self) -> (k: &Keyframes)
        ensures
            *k == self.frames(),
            lengths_agree(self.times(), *k),
    {
        proof {
            use_type_invariant(self);
        }
        &self.keyframes
    }

    /// The last timestamp, if there is any.
    pub fn last_timestamp(&self) -> (t: Option<i64>)
        ensures
            t == if self.times().len() == 0 {
                None
            } else {
                Some(self.times().last())
            },
    {
        let n: usize = self.timestamps.len();
        if n == 0 {
            None
        } else {
            Some(self.timestamps[n - 1])
        }
    }
}

/// What sampling `frames` at time `t` gives: nothing without timestamps, else
/// the blend at the lower bracket of `t`.
pub open spec fn sampled<const N: usize>(ts: Seq<i64>, frames: Seq<[u32; N]>, t: i64) -> Option<
    Blend<N>,
> {
    if ts.len() == 0 {
        None
    } else {
        Some(blend_at(ts, frames, t, lower_bracket(ts, t)))
    }
}

/// The translation that `channel` gives at time `t`, if it is a translation
/// channel with keyframes.
pub open spec fn sampled_translation(channel: Channel, t: i64) -> Option<Blend<3>> {
    match channel.frames() {
        Keyframes::Translation(v) => sampled(channel.times(), v@, t),
        _ => None,
    }
}

/// The rotation that `channel` gives at time `t`, if it is a rotation channel
/// with keyframes.
pub open spec fn sampled_rotation(channel: Channel, t: i64) -> Option<Blend<4>> {
    match channel.frames() {
        Keyframes::Rotation(v) => sampled(channel.times(), v@, t),
        _ => None,
    }
}

/// The scale that `channel` gives at time `t`, if it is a scale channel with
/// keyframes.
pub open spec fn sampled_scale(channel: Channel, t: i64) -> Option<Blend<3>> {
    match channel.frames() {
        Keyframes::Scale(v) => sampled(channel.times(), v@, t),
        _ => None,
    }
}

/// On ordered timestamps a query time has one lower bracket only.
pub proof fn lemma_lower_bracket_unique(ts: Seq<i64>, t: i64, i: int, j: int)
    requires
        sorted(ts),
        is_lower_bracket(ts, t, i),
        is_lower_bracket(ts, t, j),
    ensures
        i == j,
        lower_bracket(ts, t) == i,
{
    if i < j {
        assert(ts[i + 1] <= ts[j]);
    }
    if j < i {
        assert(ts[j + 1] <= ts[i]);
    }
    let c = lower_bracket(ts, t);
    if c < i {
        assert(ts[c + 1] <= ts[i]);
    }
    if i < c {
        assert(ts[i + 1] <= ts[c]);
    }
}

proof fn lemma_lower_bracket_from(ts: Seq<i64>, t: i64, i: int)
    requires
        0 <= i < ts.len(),
        i == 0 || ts[i] <= t,
    ensures
        exists|j: int| is_lower_bracket(ts, t, j),
    decreases ts.len() - i,
{
    if i + 1 < ts.len() && ts[i + 1] <= t {
        lemma_lower_bracket_from(ts, t, i + 1);
    } else {
        assert(is_lower_bracket(ts, t, i));
    }
}

/// Non-empty timestamps have a lower bracket for every query time.
pub proof fn lemma_lower_bracket_exists(ts: Seq<i64>, t: i64)
    requires
        ts.len() > 0,
    ensures
        is_lower_bracket(ts, t, lower_bracket(ts, t)),
{
    lemma_lower_bracket_from(ts, t, 0);
}

/// A channel with a single keyframe gives that keyframe at every time, early
/// or late: the blend starts and ends at it and its fraction is zero.
pub proof fn lemma_single_keyframe<const N: usize>(ts: Seq<i64>, frames: Seq<[u32; N]>, t: i64)
    requires
        ts.len() == 1,
    ensures
        sampled(ts, frames, t) == Some(
            (Blend { lower: 0, upper: 0, start: frames[0], end: frames[0], offset: 0, span: 0 }),
        ),
{
    lemma_lower_bracket_exists(ts, t);
}

/// At the time of a keyframe the blend starts at a keyframe with that very
/// timestamp and its fraction is zero, so the sample is that keyframe's
/// payload. Where no other keyframe shares the timestamp, it is keyframe `k`
/// itself.
pub proof fn lemma_exact_keyframe<const N: usize>(ts: Seq<i64>, frames: Seq<[u32; N]>, k: int)
    requires
        sorted(ts),
        0 <= k < ts.len() <= usize::MAX,
        frames.len() == ts.len(),
    ensures
        sampled(ts, frames, ts[k]) matches Some(b) && {
            &&& ts[b.lower as int] == ts[k]
            &&& b.start == frames[b.lower as int]
            &&& b.offset == 0
            &&& (forall|j: int| 0 <= j < ts.len() && j != k ==> ts[j] != ts[k]) ==> b.lower == k
        },
{
    let t = ts[k];
    lemma_lower_bracket_exists(ts, t);
    let i = lower_bracket(ts, t);
    if i < k {
        assert(ts[i + 1] <= ts[k]);
    }
    assert(ts[i] <= t);
    assert(ts[k] <= ts[i]);
}

/// The fraction of a blend lies in the unit interval at every time: the offset
/// is not negative and, unless the span is zero, less than the span. From the
/// last keyframe on, the blend rests at the last keyframe.
pub proof fn lemma_fraction_in_unit_interval<const N: usize>(
    ts: Seq<i64>,
    frames: Seq<[u32; N]>,
    t: i64,
)
    requires
        sorted(ts),
        0 < ts.len() <= usize::MAX,
    ensures
        sampled(ts, frames, t) matches Some(b) && {
            &&& 0 <= b.offset <= b.span
            &&& b.span > 0 ==> b.offset < b.span
            &&& ts.last() <= t ==> b.lower == ts.len() - 1 && b.upper == b.lower && b.span == 0
        },
{
    lemma_lower_bracket_exists(ts, t);
    let i = lower_bracket(ts, t);
    if i > 0 {
        assert(ts[i] <= t);
    }
    if i + 1 < ts.len() {
        assert(ts[i] <= ts[i + 1]);
        assert(ts[i + 1] <= ts[ts.len() - 1]);
    }
    if ts.last() <= t {
        assert(ts[0] <= ts[ts.len() - 1]);
    }
}

/// Before the first keyframe the blend rests at the first keyframe: it starts
/// at keyframe 0 with a fraction of zero, so the sample is the first
/// keyframe's payload and nothing is extrapolated.
pub proof fn lemma_before_first_keyframe<const N: usize>(
    ts: Seq<i64>,
    frames: Seq<[u32; N]>,
    t: i64,
)
    requires
        sorted(ts),
        ts.len() > 0,
        t < ts[0],
    ensures
        sampled(ts, frames, t) matches Some(b) && {
            &&& b.lower == 0
            &&& b.start == frames[0]
            &&& b.offset == 0
            &&& b.span >= 0
        },
{
    lemma_lower_bracket_exists(ts, t);
    let i = lower_bracket(ts, t);
    if i > 0 {
        assert(ts[0] <= ts[i]);
    }
    if 1 < ts.len() {
        assert(ts[0] <= ts[1]);
    }
}

/// A sequence whose neighbours are in order is in order throughout.
pub proof fn lemma_adjacent_sorted(ts: Seq<i64>)
    requires
        forall|i: int| 0 < i < ts.len() ==> ts[i - 1] <= #[trigger] ts[i],
    ensures
        sorted(ts),
{
    assert forall|i: int, j: int| 0 <= i <= j < ts.len() implies ts[i] <= ts[j] by {
        lemma_adjacent_sorted_pair(ts, i, j);
    }
}

proof fn lemma_adjacent_sorted_pair(ts: Seq<i64>, i: int, j: int)
    requires
        forall|k: int| 0 < k < ts.len() ==> ts[k - 1] <= #[trigger] ts[k],
        0 <= i <= j < ts.len(),
    ensures
        ts[i] <= ts[j],
    decreases j - i,
{
    if i < j {
        lemma_adjacent_sorted_pair(ts, i, j - 1);
    }
}

/// Finds the lower bracket of `t` by binary search.
pub fn find_lower_bracket(ts: &Vec<i64>, t: i64) -> (lower: usize)
    requires
        sorted(ts@),
        ts@.len() > 0,
    ensures
        is_lower_bracket(ts@, t, lower as int),
{
    let n: usize = ts.len();
    let mut lo: usize = 0;
    let mut hi: usize = n;
    while lo < hi
        invariant
            n == ts@.len(),
            sorted(ts@),
            0 <= lo <= hi <= n,
            forall|i: int| 0 <= i < lo ==> ts@[i] <= t,
            forall|i: int| hi <= i < n ==> t < ts@[i],
        decreases hi - lo,
    {
        let mid: usize = lo + (hi - lo) / 2;
        if ts[mid] <= t {
            lo = mid + 1;
        } else {
            hi = mid;
        }
    }
    if lo == 0 {
        0
    } else {
        lo - 1
    }
}

/// The blend of `frames` at time `t`.
fn blend<const N: usize>(ts: &Vec<i64>, frames: &Vec<[u32; N]>, t: i64) -> (b: Blend<N>)
    requires
        sorted(ts@),
        ts@.len() > 0,
        frames@.len() == ts@.len(),
    ensures
        is_lower_bracket(ts@, t, b.lower as int),
        Some(b) == sampled(ts@, frames@, t),
{
    let n: usize = ts.len();
    let lower: usize = find_lower_bracket(ts, t);
    proof {
        lemma_lower_bracket_unique(ts@, t, lower as int, lower as int);
    }
    let upper: usize = if lower < n - 1 { lower + 1 } else { lower };
    let t0: i64 = ts[lower];
    let t1: i64 = ts[upper];
    let span: i128 = t1 as i128 - t0 as i128;
    let offset: i128 = if span == 0 || t < t0 { 0 } else { t as i128 - t0 as i128 };
    Blend { lower, upper, start: frames[lower], end: frames[upper], offset, span }
}

/// Samples a translation channel at `time`.
///
/// Returns `None` for a channel of another kind and for one without
/// timestamps. Otherwise the blend starts at the last keyframe that is not
/// later than `time` and ends at the keyframe after it, or at the same
/// keyframe if it is the last one. A `time` before the first keyframe gives
/// the first keyframe with a fraction of zero.
pub fn interpolate_position(channel: &Channel, time: i64) -> (r: Option<Blend<3>>)
    ensures
        r is Some <==> channel.frames() is Translation && channel.times().len() > 0,
        r matches Some(b) ==> {
            &&& is_lower_bracket(channel.times(), time, b.lower as int)
            &&& b == blend_at(channel.times(), channel.frames()->Translation_0@, time, b.lower as int)
        },
        r == sampled_translation(*channel, time),
{
    proof {
        use_type_invariant(channel);
    }
    match &channel.keyframes {
        Keyframes::Translation(frames) => {
            if channel.timestamps.len() == 0 {
                None
            } else {
                Some(blend(&channel.timestamps, frames, time))
            }
        },
        _ => None,
    }
}

/// Samples a rotation channel at `time`; see [`interpolate_position`].
pub fn interpolate_rotation(channel: &Channel, time: i64) -> (r: Option<Blend<4>>)
    ensures
        r is Some <==> channel.frames() is Rotation && channel.times().len() > 0,
        r matches Some(b) ==> {
            &&& is_lower_bracket(channel.times(), time, b.lower as int)
            &&& b == blend_at(channel.times(), channel.frames()->Rotation_0@, time, b.lower as int)
        },
        r == sampled_rotation(*channel, time),
{
    proof {
        use_type_invariant(channel);
    }
    match &channel.keyframes {
        Keyframes::Rotation(frames) => {
            if channel.timestamps.len() == 0 {
                None
            } else {
                Some(blend(&channel.timestamps, frames, time))
            }
        },
        _ => None,
    }
}

/// Samples a scale channel at `time`; see [`interpolate_position`]. The blend
/// is taken from the channel's scale payloads.
pub fn interpolate_scale(channel: &Channel, time: i64) -> (r: Option<Blend<3>>)
    ensures
        r is Some <==> channel.frames() is Scale && channel.times().len() > 0,
        r matches Some(b) ==> {
            &&& is_lower_bracket(channel.times(), time, b.lower as int)
            &&& b == blend_at(channel.times(), channel.frames()->Scale_0@, time, b.lower as int)
        },
        r == sampled_scale(*channel, time),
{
    proof {
        use_type_invariant(channel);
    }
    match &channel.keyframes {
        Keyframes::Scale(frames) => {
            if channel.timestamps.len() == 0 {
                None
            } else {
                Some(blend(&channel.timestamps, frames, time))
            }
        },
        _ => None,
    }
}

} // verus!
