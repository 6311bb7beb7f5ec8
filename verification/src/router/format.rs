//! PCM geometry: what a buffer means before anything touches its samples.
//!
//! Every buffer that crosses the router carries interleaved samples, and the
//! only thing that distinguishes one from another is its [`AudioFormat`].

use vstd::prelude::*;

verus! {

/// Interleaved sample geometry. `channels` is a count, not a mask.
#[derive(Clone, Copy, Debug, PartialEq, Eq, Structural, Hash)]
pub struct AudioFormat {
    pub sample_rate: u32,
    pub channels: u16,
}

/// Output frames that `frames` input frames at `source_rate` become at
/// `target_rate`, rounded up, plus one frame of slack for the resampler's
/// fractional phase. A zero source rate converts nothing.
pub open spec fn spec_resampled_capacity(source_rate: u32, target_rate: u32, frames: int) -> int {
    if source_rate == 0 {
        0
    } else {
        (frames * target_rate + source_rate - 1) / (source_rate as int) + 1
    }
}

impl AudioFormat {
    pub fn new(sample_rate: u32, channels: u16) -> (format: Self)
        ensures
            format.sample_rate == sample_rate,
            format.channels == channels,
    {
        AudioFormat { sample_rate, channels }
    }

    /// Samples in `frames` frames of this format.
    pub fn samples(&self, frames: usize) -> (samples: usize)
        requires
            frames * self.channels <= usize::MAX,
        ensures
            samples == frames * self.channels,
    {
        frames * (self.channels as usize)
    }

    /// Whole frames in a buffer of `samples` values, ignoring a partial frame.
    /// A zero-channel format holds no frames rather than dividing by zero.
    pub fn frames(&self, samples: usize) -> (frames: usize)
        ensures
            self.channels == 0 ==> frames == 0,
            self.channels > 0 ==> frames == (samples as int) / (self.channels as int),
    {
        if self.channels == 0 {
            0
        } else {
            samples / (self.channels as usize)
        }
    }

    /// Whether this geometry can carry audio at all.
    pub fn is_valid(&self) -> (valid: bool)
        ensures
            valid == (self.sample_rate > 0 && self.channels > 0),
    {
        self.sample_rate > 0 && self.channels > 0
    }

    /// Buffer size, in frames, that `frames` input frames need at `target`'s
    /// rate: rounded up, plus one frame of slack.
    pub fn resampled_capacity(&self, target: AudioFormat, frames: usize) -> (capacity: usize)
        requires
            frames * target.sample_rate <= u64::MAX,
            spec_resampled_capacity(self.sample_rate, target.sample_rate, frames as int)
                <= usize::MAX,
        ensures
            capacity == spec_resampled_capacity(self.sample_rate, target.sample_rate, frames as int),
    {
        if self.sample_rate == 0 {
            return 0;
        }
        let numerator: u64 = (frames as u64) * (target.sample_rate as u64);
        let rate: u64 = self.sample_rate as u64;
        proof {
            let n = numerator as int;
            let r = rate as int;
            assert(r > 0);
            assert((n + r - 1) / r == n / r + if n % r == 0 { 0int } else { 1int }) by (nonlinear_arith)
                requires
                    r > 0,
                    n >= 0,
            {
                let q = n / r;
                let m = n % r;
                assert(n == q * r + m);
                if m == 0 {
                    assert(n + r - 1 == q * r + (r - 1));
                } else {
                    assert(n + r - 1 == (q + 1) * r + (m - 1));
                }
            }
        }
        let scaled: u64 = numerator / rate + if numerator % rate == 0 { 0u64 } else { 1u64 };
        (scaled as usize) + 1
    }
}

/// How a block of `source` channels becomes a block of `target` channels.
#[derive(Clone, Copy, Debug, PartialEq, Eq, Structural)]
pub enum ChannelMap {
    /// Same count: a straight copy.
    Identity,
    /// One source channel replicated to every target channel.
    Replicate,
    /// Every source channel averaged into a single target channel.
    Fold,
    /// The first `min(source, target)` channels copied; the rest silenced or
    /// dropped.
    Positional,
}

/// Which map applies between two channel counts.
pub open spec fn spec_channel_map(source: u16, target: u16) -> ChannelMap {
    if source == target {
        ChannelMap::Identity
    } else if source == 1 {
        ChannelMap::Replicate
    } else if target == 1 {
        ChannelMap::Fold
    } else {
        ChannelMap::Positional
    }
}

impl ChannelMap {
    pub fn between(source: u16, target: u16) -> (map: Self)
        ensures
            map == spec_channel_map(source, target),
    {
        if source == target {
            ChannelMap::Identity
        } else if source == 1 {
            ChannelMap::Replicate
        } else if target == 1 {
            ChannelMap::Fold
        } else {
            ChannelMap::Positional
        }
    }
}

/// What a single resampler call moved.
#[derive(Clone, Copy, Debug, Default, PartialEq, Eq, Structural)]
pub struct Converted {
    /// Input frames the resampler is finished with.
    pub consumed: usize,
    /// Output frames written.
    pub produced: usize,
}


/// Whether a map carries source channel `s` into target channel `t`, as
/// each map is described: a straight copy and a positional copy carry each
/// channel to the same place, replication carries the one source channel
/// everywhere, and a fold carries every source channel into the one target.
pub open spec fn spec_carries(map: ChannelMap, source: u16, target: u16, s: int, t: int) -> bool {
    &&& 0 <= s < source
    &&& 0 <= t < target
    &&& match map {
        ChannelMap::Identity => s == t,
        ChannelMap::Replicate => s == 0,
        ChannelMap::Fold => t == 0,
        ChannelMap::Positional => s == t,
    }
}

/// What the chosen map does: a mono source is heard on every target
/// channel, every source channel reaches a mono target, and otherwise each
/// of the first `min(source, target)` channels goes to its own place.
pub proof fn lemma_channel_map_carries(source: u16, target: u16)
    ensures
        source == 1 ==> forall|t: int| 0 <= t < target ==> spec_carries(spec_channel_map(source, target), source, target, 0, t),
        target == 1 ==> forall|s: int| 0 <= s < source ==> spec_carries(spec_channel_map(source, target), source, target, s, 0),
        forall|c: int|
            0 <= c < source && c < target ==> spec_carries(spec_channel_map(source, target), source, target, c, c),
        forall|s: int, t: int|
            #[trigger] spec_carries(spec_channel_map(source, target), source, target, s, t) ==> s == t || source == 1
                || target == 1,
{
}

} // verus!
