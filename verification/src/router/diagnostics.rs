//! What the router will tell you when the audio is wrong.
//!
//! Every counter here is a plain integer updated by the audio side and read
//! by anyone who wants to know how a route is doing. The one thing that is
//! not a number, the fault *message*, is attached on the reader's side from
//! a [`RouteFault`] code.

use vstd::prelude::*;

verus! {

/// The last thing that went wrong on a route.
#[derive(Clone, Copy, Debug, PartialEq, Eq, Structural)]
pub enum RouteFault {
    /// Nothing has gone wrong.
    NoFault,
    /// The source produced fewer frames than asked for; silence filled the gap.
    SourceStarved,
    /// The sink accepted fewer frames than offered; the rest was dropped.
    SinkBackedUp,
    /// A source or sink reported that its device is gone.
    DeviceLost,
    /// An effect returned an error and was bypassed for that block.
    ProcessorFailed,
    /// A source or sink reported a geometry the route was not built for.
    FormatChanged,
}

impl Default for RouteFault {
    fn default() -> (fault: Self)
        ensures
            fault == RouteFault::NoFault,
    {
        RouteFault::NoFault
    }
}

/// The numeric code a fault is stored as.
pub open spec fn spec_fault_code(fault: RouteFault) -> u32 {
    match fault {
        RouteFault::NoFault => 0,
        RouteFault::SourceStarved => 1,
        RouteFault::SinkBackedUp => 2,
        RouteFault::DeviceLost => 3,
        RouteFault::ProcessorFailed => 4,
        RouteFault::FormatChanged => 5,
    }
}

/// The fault a stored code stands for; an unknown code reads as no fault.
pub open spec fn spec_fault_from_code(code: u32) -> RouteFault {
    if code == 1 {
        RouteFault::SourceStarved
    } else if code == 2 {
        RouteFault::SinkBackedUp
    } else if code == 3 {
        RouteFault::DeviceLost
    } else if code == 4 {
        RouteFault::ProcessorFailed
    } else if code == 5 {
        RouteFault::FormatChanged
    } else {
        RouteFault::NoFault
    }
}

/// The message shown for each fault; no fault has no message.
pub open spec fn spec_fault_message(fault: RouteFault) -> Option<Seq<char>> {
    match fault {
        RouteFault::NoFault => None,
        RouteFault::SourceStarved => Some("the route's source did not keep up and silence was used"@),
        RouteFault::SinkBackedUp => Some("the route's destination did not keep up and audio was dropped"@),
        RouteFault::DeviceLost => Some("an audio device on this route is no longer available"@),
        RouteFault::ProcessorFailed => Some("an effect on this route failed and was bypassed"@),
        RouteFault::FormatChanged => Some("an audio device on this route changed format"@),
    }
}

impl RouteFault {
    /// The code stored for this fault.
    pub fn code(self) -> (code: u32)
        ensures
            code == spec_fault_code(self),
    {
        match self {
            RouteFault::NoFault => 0,
            RouteFault::SourceStarved => 1,
            RouteFault::SinkBackedUp => 2,
            RouteFault::DeviceLost => 3,
            RouteFault::ProcessorFailed => 4,
            RouteFault::FormatChanged => 5,
        }
    }

    /// Read a stored code back; a code nobody knows degrades to `NoFault`.
    pub fn from_code(code: u32) -> (fault: Self)
        ensures
            fault == spec_fault_from_code(code),
    {
        if code == 1 {
            RouteFault::SourceStarved
        } else if code == 2 {
            RouteFault::SinkBackedUp
        } else if code == 3 {
            RouteFault::DeviceLost
        } else if code == 4 {
            RouteFault::ProcessorFailed
        } else if code == 5 {
            RouteFault::FormatChanged
        } else {
            RouteFault::NoFault
        }
    }

    /// A message for the UI.
    pub fn message(self) -> (message: Option<&'static str>)
        ensures
            match message {
                Some(m) => spec_fault_message(self) == Some(m@),
                None => spec_fault_message(self) is None,
            },
    {
        match self {
            RouteFault::NoFault => None,
            RouteFault::SourceStarved => Some("the route's source did not keep up and silence was used"),
            RouteFault::SinkBackedUp => Some("the route's destination did not keep up and audio was dropped"),
            RouteFault::DeviceLost => Some("an audio device on this route is no longer available"),
            RouteFault::ProcessorFailed => Some("an effect on this route failed and was bypassed"),
            RouteFault::FormatChanged => Some("an audio device on this route changed format"),
        }
    }
}

/// Every fault survives the trip through its code, and every fault other
/// than `NoFault` renders a message.
pub proof fn lemma_fault_code_round_trip(fault: RouteFault)
    ensures
        spec_fault_from_code(spec_fault_code(fault)) == fault,
        (fault != RouteFault::NoFault) <==> spec_fault_message(fault) is Some,
{
}

/// `1.0f64` as stored bits: the conversion ratio of a route that converts
/// nothing.
pub const UNITY_RATIO_BITS: u64 = 0x3FF0_0000_0000_0000;

/// Counters for one route. Additions wrap, as the counters they model do.
#[derive(Clone, Copy, Debug, PartialEq, Eq, Structural)]
pub struct RouteDiagnostics {
    pub source_underruns: u64,
    pub source_overruns: u64,
    pub sink_underruns: u64,
    pub sink_overruns: u64,
    pub discontinuities: u64,
    pub restarts: u64,
    pub frames_processed: u64,
    pub queue_depth: u64,
    /// The conversion ratio and clock drift as `f64` bit patterns.
    pub resampler_ratio_bits: u64,
    pub clock_drift_ppm_bits: u64,
    pub process_us: u64,
    pub effect_us: u64,
    pub fault_code: u32,
}

/// A picture of a route for the interface or a log line. The conversion
/// ratio and clock drift are `f64` bit patterns.
#[derive(Clone, Copy, Debug, PartialEq, Eq, Structural)]
pub struct RouteMetrics {
    pub source_underruns: u64,
    pub source_overruns: u64,
    pub sink_underruns: u64,
    pub sink_overruns: u64,
    pub discontinuities: u64,
    pub restarts: u64,
    pub frames_processed: u64,
    pub queue_depth: u64,
    pub resampler_ratio_bits: u64,
    pub clock_drift_ppm_bits: u64,
    pub process_us: u64,
    pub effect_us: u64,
    pub fault: RouteFault,
}

impl RouteMetrics {
    /// The message for the recorded fault, if any.
    pub fn fault_message(&self) -> (message: Option<&'static str>)
        ensures
            match message {
                Some(m) => spec_fault_message(self.fault) == Some(m@),
                None => spec_fault_message(self.fault) is None,
            },
    {
        self.fault.message()
    }
}

/// `a + b` wrapped to 64 bits.
pub open spec fn add_wrapped(a: u64, b: u64) -> u64 {
    ((a + b) % 0x1_0000_0000_0000_0000) as u64
}

impl RouteDiagnostics {
    /// Every counter at zero except the conversion ratio, which starts at
    /// unity: a route with no conversion still has a ratio.
    pub fn new() -> (d: Self)
        ensures
            d.source_underruns == 0 && d.source_overruns == 0 && d.sink_underruns == 0
                && d.sink_overruns == 0 && d.discontinuities == 0 && d.restarts == 0
                && d.frames_processed == 0 && d.queue_depth == 0,
            d.resampler_ratio_bits == UNITY_RATIO_BITS,
            d.clock_drift_ppm_bits == 0,
            d.process_us == 0 && d.effect_us == 0,
            d.fault_code == 0,
    {
        RouteDiagnostics {
            source_underruns: 0,
            source_overruns: 0,
            sink_underruns: 0,
            sink_overruns: 0,
            discontinuities: 0,
            restarts: 0,
            frames_processed: 0,
            queue_depth: 0,
            resampler_ratio_bits: UNITY_RATIO_BITS,
            clock_drift_ppm_bits: 0,
            process_us: 0,
            effect_us: 0,
            fault_code: 0,
        }
    }

    /// The source could not supply a full block.
    pub fn note_source_underrun(&mut self, frames: u64)
        ensures
            *final(self) == (RouteDiagnostics {
                source_underruns: add_wrapped(old(self).source_underruns, frames),
                ..*old(self)
            }),
    {
        self.source_underruns = self.source_underruns.wrapping_add(frames);
    }

    /// The source's buffer overflowed before the router drained it.
    pub fn note_source_overrun(&mut self, frames: u64)
        ensures
            *final(self) == (RouteDiagnostics {
                source_overruns: add_wrapped(old(self).source_overruns, frames),
                ..*old(self)
            }),
    {
        self.source_overruns = self.source_overruns.wrapping_add(frames);
    }

    /// The sink asked for more than the route had.
    pub fn note_sink_underrun(&mut self, frames: u64)
        ensures
            *final(self) == (RouteDiagnostics {
                sink_underruns: add_wrapped(old(self).sink_underruns, frames),
                ..*old(self)
            }),
    {
        self.sink_underruns = self.sink_underruns.wrapping_add(frames);
    }

    /// The sink could not take everything the route offered.
    pub fn note_sink_overrun(&mut self, frames: u64)
        ensures
            *final(self) == (RouteDiagnostics {
                sink_overruns: add_wrapped(old(self).sink_overruns, frames),
                ..*old(self)
            }),
    {
        self.sink_overruns = self.sink_overruns.wrapping_add(frames);
    }

    /// The stream jumped: a device reset, a format change, or a large gap.
    pub fn note_discontinuity(&mut self)
        ensures
            *final(self) == (RouteDiagnostics {
                discontinuities: add_wrapped(old(self).discontinuities, 1),
                ..*old(self)
            }),
    {
        self.discontinuities = self.discontinuities.wrapping_add(1);
    }

    /// A device was reopened after being lost.
    pub fn note_restart(&mut self)
        ensures
            *final(self) == (RouteDiagnostics {
                restarts: add_wrapped(old(self).restarts, 1),
                ..*old(self)
            }),
    {
        self.restarts = self.restarts.wrapping_add(1);
    }

    pub fn note_frames(&mut self, frames: u64)
        ensures
            *final(self) == (RouteDiagnostics {
                frames_processed: add_wrapped(old(self).frames_processed, frames),
                ..*old(self)
            }),
    {
        self.frames_processed = self.frames_processed.wrapping_add(frames);
    }

    pub fn set_queue_depth(&mut self, frames: u64)
        ensures
            *final(self) == (RouteDiagnostics { queue_depth: frames, ..*old(self) }),
    {
        self.queue_depth = frames;
    }

    /// Record the conversion ratio and drift, given as `f64` bit patterns.
    pub fn set_conversion_bits(&mut self, ratio_bits: u64, drift_ppm_bits: u64)
        ensures
            *final(self) == (RouteDiagnostics {
                resampler_ratio_bits: ratio_bits,
                clock_drift_ppm_bits: drift_ppm_bits,
                ..*old(self)
            }),
    {
        self.resampler_ratio_bits = ratio_bits;
        self.clock_drift_ppm_bits = drift_ppm_bits;
    }

    pub fn set_timings(&mut self, process_us: u64, effect_us: u64)
        ensures
            *final(self) == (RouteDiagnostics { process_us, effect_us, ..*old(self) }),
    {
        self.process_us = process_us;
        self.effect_us = effect_us;
    }

    /// Record a fault; only its code is stored.
    pub fn set_fault(&mut self, fault: RouteFault)
        ensures
            *final(self) == (RouteDiagnostics { fault_code: spec_fault_code(fault), ..*old(self) }),
    {
        self.fault_code = fault.code();
    }

    /// Clear the fault once the condition that caused it is gone.
    pub fn clear_fault(&mut self)
        ensures
            *final(self) == (RouteDiagnostics { fault_code: 0, ..*old(self) }),
    {
        self.set_fault(RouteFault::NoFault);
    }

    /// The last recorded fault.
    pub fn fault(&self) -> (fault: RouteFault)
        ensures
            fault == spec_fault_from_code(self.fault_code),
    {
        RouteFault::from_code(self.fault_code)
    }

    /// Every counter, with the fault decoded.
    pub fn snapshot(&self) -> (metrics: RouteMetrics)
        ensures
            metrics == (RouteMetrics {
                source_underruns: self.source_underruns,
                source_overruns: self.source_overruns,
                sink_underruns: self.sink_underruns,
                sink_overruns: self.sink_overruns,
                discontinuities: self.discontinuities,
                restarts: self.restarts,
                frames_processed: self.frames_processed,
                queue_depth: self.queue_depth,
                resampler_ratio_bits: self.resampler_ratio_bits,
                clock_drift_ppm_bits: self.clock_drift_ppm_bits,
                process_us: self.process_us,
                effect_us: self.effect_us,
                fault: spec_fault_from_code(self.fault_code),
            }),
    {
        RouteMetrics {
            source_underruns: self.source_underruns,
            source_overruns: self.source_overruns,
            sink_underruns: self.sink_underruns,
            sink_overruns: self.sink_overruns,
            discontinuities: self.discontinuities,
            restarts: self.restarts,
            frames_processed: self.frames_processed,
            queue_depth: self.queue_depth,
            resampler_ratio_bits: self.resampler_ratio_bits,
            clock_drift_ppm_bits: self.clock_drift_ppm_bits,
            process_us: self.process_us,
            effect_us: self.effect_us,
            fault: self.fault(),
        }
    }
}

/// Two notes of the same counter add up rather than overwrite.
pub proof fn lemma_counters_accumulate(start: u64, first: u64, second: u64)
    requires
        start + first + second <= u64::MAX,
    ensures
        add_wrapped(add_wrapped(start, first), second) == start + first + second,
{
}

/// A recorded fault reads back as itself.
pub proof fn lemma_recorded_fault_reads_back(fault: RouteFault)
    ensures
        spec_fault_from_code(spec_fault_code(fault)) == fault,
{
}

} // verus!
