use crate::animation::keyframes::{
    interpolate_position, interpolate_rotation, interpolate_scale, sampled_rotation, sampled_scale,
    sampled_translation, Blend, Channel,
};
use vstd::arithmetic::div_mod::lemma_mod_multiples_vanish;
use vstd::prelude::*;

verus! {

/// What one or more channels say about one node at one time. A property
/// without a channel is `None`: the node keeps its present value.
#[derive(Clone, Copy, Debug, PartialEq, Eq)]
pub struct PartialTransform {
    pub translation: Option<Blend<3>>,
    pub rotation: Option<Blend<4>>,
    pub scale: Option<Blend<3>>,
}

/// The partial transform that says nothing.
pub open spec fn no_override() -> PartialTransform {
    PartialTransform { translation: None, rotation: None, scale: None }
}

/// `prev` overridden by what `channel` gives at time `t`.
pub open spec fn overridden(prev: PartialTransform, channel: Channel, t: i64) -> PartialTransform {
    PartialTransform {
        translation: match sampled_translation(channel, t) {
            Some(b) => Some(b),
            None => prev.translation,
        },
        rotation: match sampled_rotation(channel, t) {
            Some(b) => Some(b),
            None => prev.rotation,
        },
        scale: match sampled_scale(channel, t) {
            Some(b) => Some(b),
            None => prev.scale,
        },
    }
}

/// What the first `k` channels say about `node` at time `t`. Where two
/// channels give the same property of a node, the later one counts.
pub open spec fn merged(channels: Seq<Channel>, k: nat, node: usize, t: i64) -> PartialTransform
    decreases k,
{
    if k == 0 {
        no_override()
    } else {
        let prev = merged(channels, (k - 1) as nat, node, t);
        if channels[k - 1].node() == node {
            overridden(prev, channels[k - 1], t)
        } else {
            prev
        }
    }
}

/// One of the first `k` channels animates `node`.
pub open spec fn targeted(channels: Seq<Channel>, k: nat, node: usize) -> bool {
    exists|j: int| 0 <= j < k && (#[trigger] channels[j]).node() == node
}

/// The nodes that the first `k` channels animate, each once, in the order
/// in which the channels first name them.
pub open spec fn animated_nodes(channels: Seq<Channel>, k: nat) -> Seq<usize>
    decreases k,
{
    if k == 0 {
        Seq::empty()
    } else {
        let rest = animated_nodes(channels, (k - 1) as nat);
        if targeted(channels, (k - 1) as nat, channels[k - 1].node()) {
            rest
        } else {
            rest.push(channels[k - 1].node())
        }
    }
}

/// The sample of the first `k` channels at time `t`: one entry for each
/// animated node, and in it what the channels say about that node.
pub open spec fn sample_of(channels: Seq<Channel>, k: nat, t: i64) -> Seq<
    (usize, PartialTransform),
> {
    Seq::new(
        animated_nodes(channels, k).len(),
        |i: int| (animated_nodes(channels, k)[i], merged(channels, k, animated_nodes(channels, k)[i], t)),
    )
}

/// The largest last timestamp among the first `k` channels, and at least 0.
pub open spec fn clip_duration(channels: Seq<Channel>, k: nat) -> int
    decreases k,
{
    if k == 0 {
        0
    } else {
        let d = clip_duration(channels, (k - 1) as nat);
        let ts = channels[k - 1].times();
        if ts.len() > 0 && ts.last() > d {
            ts.last() as int
        } else {
            d
        }
    }
}

/// What no channel among the first `k` animates has no override.
pub proof fn lemma_untargeted(channels: Seq<Channel>, k: nat, node: usize, t: i64)
    requires
        !targeted(channels, k, node),
    ensures
        merged(channels, k, node, t) == no_override(),
    decreases k,
{
    if k > 0 {
        assert(channels[k - 1].node() != node);
        assert(!targeted(channels, (k - 1) as nat, node)) by {
            if targeted(channels, (k - 1) as nat, node) {
                let j = choose|j: int| 0 <= j < k - 1 && (#[trigger] channels[j]).node() == node;
                assert(channels[j].node() == node);
            }
        }
        lemma_untargeted(channels, (k - 1) as nat, node, t);
    }
}

/// A sample is a map from nodes: no node has two entries, and a node has an
/// entry exactly if one of the channels animates it.
pub proof fn lemma_animated_nodes(channels: Seq<Channel>, k: nat)
    ensures
        forall|i: int, j: int|
            0 <= i < j < animated_nodes(channels, k).len() ==> animated_nodes(channels, k)[i]
                != animated_nodes(channels, k)[j],
        forall|node: usize|
            animated_nodes(channels, k).contains(node) <==> #[trigger] targeted(channels, k, node),
    decreases k,
{
    let s = animated_nodes(channels, k);
    if k > 0 {
        let k0 = (k - 1) as nat;
        let rest = animated_nodes(channels, k0);
        let n = channels[k - 1].node();
        lemma_animated_nodes(channels, k0);
        assert forall|node: usize| s.contains(node) <==> #[trigger] targeted(
            channels,
            k,
            node,
        ) by {
            if targeted(channels, k0, node) {
                let j = choose|j: int| 0 <= j < k0 && (#[trigger] channels[j]).node() == node;
                assert(channels[j].node() == node);
                assert(rest.contains(node));
                let i = choose|i: int| 0 <= i < rest.len() && rest[i] == node;
                assert(s[i] == node);
            }
            if node == n {
                assert(channels[k - 1].node() == node);
                if !targeted(channels, k0, n) {
                    assert(s[rest.len() as int] == node);
                }
            }
            if s.contains(node) && node != n {
                let i = choose|i: int| 0 <= i < s.len() && s[i] == node;
                assert(rest[i] == node);
                assert(targeted(channels, k0, node));
                let j = choose|j: int| 0 <= j < k0 && (#[trigger] channels[j]).node() == node;
                assert(channels[j].node() == node);
            }
            if targeted(channels, k, node) && node != n {
                let j = choose|j: int| 0 <= j < k && (#[trigger] channels[j]).node() == node;
                assert(channels[j].node() == node);
                assert(targeted(channels, k0, node));
            }
        }
        assert forall|i: int, j: int| 0 <= i < j < s.len() implies s[i] != s[j] by {
            if j == rest.len() {
                assert(rest[i] == s[i]);
                assert(rest.contains(s[i]));
            }
        }
    } else {
        assert forall|node: usize| s.contains(node) <==> #[trigger] targeted(
            channels,
            k,
            node,
        ) by {}
    }
}

/// A named set of channels. It does not change once it is built.
#[derive(Debug)]
pub struct AnimationClip {
    name: String,
    channels: Vec<Channel>,
    duration: i64,
}

impl AnimationClip {
    /// The clip's name.
    pub closed spec fn title(&self) -> Seq<char> {
        self.name@
    }

    /// The clip's channels.
    pub closed spec fn tracks(&self) -> Seq<Channel> {
        self.channels@
    }

    /// The clip's length in ticks.
    pub closed spec fn length(&self) -> i64 {
        self.duration
    }

    /// The cached length is the largest last timestamp of the channels.
    #[verifier::type_invariant]
    pub closed spec fn wf(&self) -> bool {
        self.duration == clip_duration(self.channels@, self.channels@.len())
    }

    /// Builds a clip and computes its length: the largest last timestamp of
    /// its channels, 0 for a clip without keyframes.
    pub fn new(name: &str, channels: Vec<Channel>) -> (clip: AnimationClip)
        ensures
            clip.wf(),
            clip.title() == name@,
            clip.tracks() == channels@,
            clip.length() == clip_duration(channels@, channels@.len()),
    {
        let n: usize = channels.len();
        let mut duration: i64 = 0;
        let mut k: usize = 0;
        while k < n
            invariant
                n == channels@.len(),
                0 <= k <= n,
                duration == clip_duration(channels@, k as nat),
            decreases n - k,
        {
            if let Some(last) = channels[k].last_timestamp() {
                if last > duration {
                    duration = last;
                }
            }
            k += 1;
        }
        AnimationClip { name: name.to_owned(), channels, duration }
    }

    pub fn get_name(&self) -> (name: &String)
        ensures
            name@ == self.title(),
    {
        &self.name
    }

    pub fn channels(&self) -> (channels: &Vec<Channel>)
        ensures
            channels@ == self.tracks(),
    {
        &self.channels
    }

    /// The clip's length in ticks.
    pub fn duration(&self) -> (d: i64)
        ensures
            d == self.length(),
            d == clip_duration(self.tracks(), self.tracks().len()),
            d >= 0,
    {
        proof {
            use_type_invariant(self);
            lemma_duration_not_negative(self.channels@, self.channels@.len());
        }
        self.duration
    }

    /// Samples every channel at `time` and merges the results by node.
    ///
    /// The result has one entry for each node that some channel animates, in
    /// the order in which the channels first name the nodes. The entry holds,
    /// for each property, the blend of the last channel that gives this
    /// property for the node, and `None` where no channel does.
    pub fn sample(&self, time: i64) -> (entries: Vec<(usize, PartialTransform)>)
        ensures
            entries@ == sample_of(self.tracks(), self.tracks().len(), time),
    {
        let mut entries: Vec<(usize, PartialTransform)> = Vec::new();
        let n: usize = self.channels.len();
        let mut k: usize = 0;
        assert(entries@ =~= sample_of(self.channels@, 0, time));
        while k < n
            invariant
                n == self.channels@.len(),
                0 <= k <= n,
                entries@ == sample_of(self.channels@, k as nat, time),
            decreases n - k,
        {
            let channel: &Channel = &self.channels[k];
            let node: usize = channel.node_index();
            let ghost cs = self.channels@;
            let ghost before = animated_nodes(cs, k as nat);
            proof {
                lemma_animated_nodes(cs, k as nat);
                lemma_animated_nodes(cs, (k + 1) as nat);
            }
            let at: usize = find_entry(&entries, node);
            let prev: PartialTransform = if at < entries.len() {
                assert(before[at as int] == node);
                entries[at].1
            } else {
                proof {
                    if targeted(cs, k as nat, node) {
                        let i = choose|i: int| 0 <= i < before.len() && before[i] == node;
                        assert(entries@[i].0 == node);
                    }
                    lemma_untargeted(cs, k as nat, node, time);
                }
                entries.push(
                    (node, PartialTransform { translation: None, rotation: None, scale: None }),
                );
                PartialTransform { translation: None, rotation: None, scale: None }
            };
            let next = PartialTransform {
                translation: match interpolate_position(channel, time) {
                    Some(b) => Some(b),
                    None => prev.translation,
                },
                rotation: match interpolate_rotation(channel, time) {
                    Some(b) => Some(b),
                    None => prev.rotation,
                },
                scale: match interpolate_scale(channel, time) {
                    Some(b) => Some(b),
                    None => prev.scale,
                },
            };
            entries.set(at, (node, next));
            proof {
                let after = animated_nodes(cs, (k + 1) as nat);
                let want = sample_of(cs, (k + 1) as nat, time);
                assert(after.len() == entries@.len());
                assert forall|i: int| 0 <= i < entries@.len() implies entries@[i] == want[i] by {
                    if i != at {
                        assert(after[i] == before[i]);
                        assert(before[i] != node);
                    }
                }
                assert(entries@ =~= want);
            }
            k += 1;
        }
        entries
    }
}

/// The clip length is never negative.
pub proof fn lemma_duration_not_negative(channels: Seq<Channel>, k: nat)
    ensures
        clip_duration(channels, k) >= 0,
    decreases k,
{
    if k > 0 {
        lemma_duration_not_negative(channels, (k - 1) as nat);
    }
}

/// Position of the entry for `node`, or the length of `entries` when there is
/// none.
fn find_entry(entries: &Vec<(usize, PartialTransform)>, node: usize) -> (at: usize)
    ensures
        at <= entries@.len(),
        at < entries@.len() ==> entries@[at as int].0 == node,
        at == entries@.len() ==> forall|i: int|
            0 <= i < entries@.len() ==> (#[trigger] entries@[i]).0 != node,
{
    let n: usize = entries.len();
    let mut i: usize = 0;
    while i < n
        invariant
            n == entries@.len(),
            0 <= i <= n,
            forall|j: int| 0 <= j < i ==> (#[trigger] entries@[j]).0 != node,
        decreases n - i,
    {
        if entries[i].0 == node {
            return i;
        }
        i += 1;
    }
    i
}

/// How playback continues at the end of a clip. Every mode is sampled as
/// `Loop`: the other modes are kept for callers that tell them apart.
#[derive(Clone, Copy, Debug, PartialEq, Eq, Structural)]
pub enum PlaybackMode {
    Loop,
    Once,
    PingPong,
}

/// Whether the clock of the controller runs.
#[derive(Clone, Copy, Debug, PartialEq, Eq, Structural)]
pub enum PlayState {
    Stopped,
    Playing,
    Paused,
}

/// The state of a playback controller.
#[derive(Clone, Copy, Debug, PartialEq, Eq, Structural)]
pub struct PlaybackState {
    /// Index of the current clip.
    pub current: usize,
    /// Ticks played since the clock was last set to zero.
    pub time: u64,
    pub state: PlayState,
    pub playback_mode: PlaybackMode,
}

/// The state of a new controller: stopped at the start of clip 0, looping.
pub open spec fn initial_state() -> PlaybackState {
    PlaybackState {
        current: 0,
        time: 0,
        state: PlayState::Stopped,
        playback_mode: PlaybackMode::Loop,
    }
}

/// `play`: the clock runs, whatever it did before.
pub open spec fn after_play(s: PlaybackState) -> PlaybackState {
    PlaybackState {
        current: s.current,
        time: s.time,
        state: PlayState::Playing,
        playback_mode: s.playback_mode,
    }
}

/// `pause`: a running clock halts; a stopped or paused one stays as it is.
pub open spec fn after_pause(s: PlaybackState) -> PlaybackState {
    PlaybackState {
        current: s.current,
        time: s.time,
        state: if s.state == PlayState::Playing {
            PlayState::Paused
        } else {
            s.state
        },
        playback_mode: s.playback_mode,
    }
}

/// `toggle`: a running clock halts; a paused or stopped one runs.
pub open spec fn after_toggle(s: PlaybackState) -> PlaybackState {
    PlaybackState {
        current: s.current,
        time: s.time,
        state: if s.state == PlayState::Playing {
            PlayState::Paused
        } else {
            PlayState::Playing
        },
        playback_mode: s.playback_mode,
    }
}

/// `stop`: the clock is set to zero and stopped.
pub open spec fn after_stop(s: PlaybackState) -> PlaybackState {
    PlaybackState {
        current: s.current,
        time: 0,
        state: PlayState::Stopped,
        playback_mode: s.playback_mode,
    }
}

/// `reset`: the clock is set to zero and goes on as before.
pub open spec fn after_reset(s: PlaybackState) -> PlaybackState {
    PlaybackState { current: s.current, time: 0, state: s.state, playback_mode: s.playback_mode }
}

/// `set_current`: an index of one of the `count` clips becomes current and
/// the clock is set to zero; any other index is ignored.
pub open spec fn after_set_current(s: PlaybackState, index: usize, count: nat) -> PlaybackState {
    if index < count {
        PlaybackState { current: index, time: 0, state: s.state, playback_mode: s.playback_mode }
    } else {
        s
    }
}

/// `set_playback_mode`.
pub open spec fn after_set_mode(s: PlaybackState, mode: PlaybackMode) -> PlaybackState {
    PlaybackState { current: s.current, time: s.time, state: s.state, playback_mode: mode }
}

/// Whether `advance` moves the clock: it runs and there is a clip to play.
pub open spec fn ticks(s: PlaybackState, count: nat) -> bool {
    s.state == PlayState::Playing && count > 0
}

/// `advance`: a ticking clock moves on by `delta`, and rests at the largest
/// `u64` once it gets there.
pub open spec fn after_advance(s: PlaybackState, delta: u64, count: nat) -> PlaybackState {
    if ticks(s, count) {
        PlaybackState {
            current: s.current,
            time: if s.time + delta > u64::MAX {
                u64::MAX
            } else {
                (s.time + delta) as u64
            },
            state: s.state,
            playback_mode: s.playback_mode,
        }
    } else {
        s
    }
}

/// The time at which a clip of length `duration` is sampled after `elapsed`
/// ticks: the clip repeats, and a clip without length rests at 0.
pub open spec fn wrap_time(elapsed: nat, duration: int) -> int {
    if duration > 0 {
        elapsed as int % duration
    } else {
        0
    }
}

/// Playback repeats with the period of the clip: after any number of whole
/// clip lengths more, the same time is sampled.
pub proof fn lemma_loop_wraparound(elapsed: nat, duration: int, rounds: nat)
    requires
        duration > 0,
    ensures
        wrap_time((elapsed + rounds * duration) as nat, duration) == wrap_time(elapsed, duration),
        0 <= wrap_time(elapsed, duration) < duration,
{
    lemma_mod_multiples_vanish(rounds as int, elapsed as int, duration);
    assert(duration * rounds == rounds * duration) by (nonlinear_arith);
}

/// A controller that is a whole number of clip lengths ahead of another one
/// on the same clip samples it at the same time.
pub proof fn lemma_playback_is_periodic(a: Animations, b: Animations, rounds: nat)
    requires
        a.clips() == b.clips(),
        a.clips().len() > 0,
        a.state().current == b.state().current,
        a.clips()[a.state().current as int].length() > 0,
        b.state().time == a.state().time + rounds * a.clips()[a.state().current as int].length(),
    ensures
        a.sample_time_spec() == b.sample_time_spec(),
{
    lemma_loop_wraparound(
        a.state().time as nat,
        a.clips()[a.state().current as int].length() as int,
        rounds,
    );
}

/// The time at which a clip of length `duration` is sampled after `elapsed`
/// ticks.
pub fn wrap(elapsed: u64, duration: i64) -> (t: i64)
    ensures
        t == wrap_time(elapsed as nat, duration as int),
{
    if duration > 0 {
        let period: u64 = duration as u64;
        (elapsed % period) as i64
    } else {
        0
    }
}

/// The clips of a model and the controller that plays them.
#[derive(Debug)]
pub struct Animations {
    animations: Vec<AnimationClip>,
    playback_state: PlaybackState,
}

impl Animations {
    /// The clips, in the order in which they were given.
    pub closed spec fn clips(&self) -> Seq<AnimationClip> {
        self.animations@
    }

    /// The state of the controller.
    pub closed spec fn state(&self) -> PlaybackState {
        self.playback_state
    }

    /// The current index names a clip, unless there is none.
    #[verifier::type_invariant]
    pub closed spec fn wf(&self) -> bool {
        self.animations@.len() == 0 || self.playback_state.current < self.animations@.len()
    }

    /// The time at which the current clip is sampled; 0 without clips.
    pub open spec fn sample_time_spec(&self) -> int {
        if self.clips().len() == 0 {
            0
        } else {
            wrap_time(self.state().time as nat, self.clips()[self.state().current as int].length() as int)
        }
    }

    /// A controller for `animations`: stopped at the start of clip 0.
    pub fn new(animations: Vec<AnimationClip>) -> (a: Animations)
        ensures
            a.wf(),
            a.clips() == animations@,
            a.state() == initial_state(),
    {
        Animations {
            animations,
            playback_state: PlaybackState {
                current: 0,
                time: 0,
                state: PlayState::Stopped,
                playback_mode: PlaybackMode::Loop,
            },
        }
    }

    pub fn animations(&self) -> (clips: &Vec<AnimationClip>)
        ensures
            clips@ == self.clips(),
    {
        &self.animations
    }

    pub fn get_playback_state(&self) -> (s: &PlaybackState)
        ensures
            *s == self.state(),
            self.clips().len() == 0 || s.current < self.clips().len(),
    {
        proof {
            use_type_invariant(self);
        }
        &self.playback_state
    }

    /// The index of the clip after the current one; after the last clip, and
    /// without clips, it is 0.
    pub fn following_clip(&self) -> (index: usize)
        ensures
            index == if self.state().current + 1 < self.clips().len() {
                self.state().current + 1
            } else {
                0
            },
    {
        proof {
            use_type_invariant(self);
        }
        if self.animations.len() > 0 && self.playback_state.current < self.animations.len() - 1 {
            self.playback_state.current + 1
        } else {
            0
        }
    }

    /// Makes clip `index` current and starts it from its beginning. An index
    /// that names no clip is ignored.
    pub fn set_current(&mut self, index: usize)
        ensures
            final(self).clips() == old(self).clips(),
            final(self).state() == after_set_current(old(self).state(), index, old(self).clips().len()),
    {
        if index < self.animations.len() {
            self.playback_state = PlaybackState {
                current: index,
                time: 0,
                state: self.playback_state.state,
                playback_mode: self.playback_state.playback_mode,
            };
        }
    }

    pub fn set_playback_mode(&mut self, playback_mode: PlaybackMode)
        ensures
            final(self).clips() == old(self).clips(),
            final(self).state() == after_set_mode(old(self).state(), playback_mode),
    {
        proof {
            use_type_invariant(&*self);
        }
        self.playback_state.playback_mode = playback_mode;
    }

    /// Lets the clock run.
    pub fn play(&mut self)
        ensures
            final(self).clips() == old(self).clips(),
            final(self).state() == after_play(old(self).state()),
    {
        proof {
            use_type_invariant(&*self);
        }
        self.playback_state.state = PlayState::Playing;
    }

    /// Halts a running clock without moving it.
    pub fn pause(&mut self)
        ensures
            final(self).clips() == old(self).clips(),
            final(self).state() == after_pause(old(self).state()),
    {
        proof {
            use_type_invariant(&*self);
        }
        if self.playback_state.state == PlayState::Playing {
            self.playback_state.state = PlayState::Paused;
        }
    }

    /// Halts a running clock, and lets a paused or stopped one run.
    pub fn toggle(&mut self)
        ensures
            final(self).clips() == old(self).clips(),
            final(self).state() == after_toggle(old(self).state()),
    {
        proof {
            use_type_invariant(&*self);
        }
        if self.playback_state.state == PlayState::Playing {
            self.playback_state.state = PlayState::Paused;
        } else {
            self.playback_state.state = PlayState::Playing;
        }
    }

    /// Sets the clock to zero and stops it.
    pub fn stop(&mut self)
        ensures
            final(self).clips() == old(self).clips(),
            final(self).state() == after_stop(old(self).state()),
    {
        proof {
            use_type_invariant(&*self);
        }
        self.playback_state.time = 0;
        self.playback_state.state = PlayState::Stopped;
    }

    /// Sets the clock to zero; it goes on running, or not, as before.
    pub fn reset(&mut self)
        ensures
            final(self).clips() == old(self).clips(),
            final(self).state() == after_reset(old(self).state()),
    {
        proof {
            use_type_invariant(&*self);
        }
        self.playback_state.time = 0;
    }

    /// Moves the clock on by `delta` ticks if it runs and there is a clip to
    /// play, and says whether it did. A tick counts as a change even where
    /// the current clip has no channel.
    pub fn advance(&mut self, delta: u64) -> (changed: bool)
        ensures
            final(self).clips() == old(self).clips(),
            changed == ticks(old(self).state(), old(self).clips().len()),
            final(self).state() == after_advance(old(self).state(), delta, old(self).clips().len()),
    {
        proof {
            use_type_invariant(&*self);
        }
        if self.playback_state.state == PlayState::Playing && self.animations.len() > 0 {
            self.playback_state.time = self.playback_state.time.saturating_add(delta);
            true
        } else {
            false
        }
    }

    /// The time at which the current clip is sampled: the clock modulo the
    /// clip's length, and 0 for a clip without length or without clips.
    pub fn sample_time(&self) -> (t: i64)
        ensures
            t == self.sample_time_spec(),
    {
        proof {
            use_type_invariant(self);
        }
        if self.animations.len() == 0 {
            return 0;
        }
        let duration: i64 = self.animations[self.playback_state.current].duration();
        wrap(self.playback_state.time, duration)
    }

    /// Samples the current clip at the wrapped clock; see
    /// [`AnimationClip::sample`]. Without clips the sample is empty.
    pub fn sample(&self) -> (entries: Vec<(usize, PartialTransform)>)
        ensures
            self.clips().len() == 0 ==> entries@.len() == 0,
            self.clips().len() > 0 ==> entries@ == sample_of(
                self.clips()[self.state().current as int].tracks(),
                self.clips()[self.state().current as int].tracks().len(),
                self.sample_time_spec() as i64,
            ),
    {
        proof {
            use_type_invariant(self);
        }
        if self.animations.len() == 0 {
            return Vec::new();
        }
        let time: i64 = self.sample_time();
        self.animations[self.playback_state.current].sample(time)
    }
}

} // verus!
