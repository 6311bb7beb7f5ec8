//! The fixed stream format the Windows relay endpoints run at, and the
//! endpoints a user picked for it.

use vstd::prelude::*;

verus! {

pub const RELAY_SAMPLE_RATE: u32 = 48_000;

pub const RELAY_CHANNELS: u16 = 2;

/// The wave format tag of 32-bit IEEE float samples.
pub const WAVE_FORMAT_IEEE_FLOAT: u16 = 0x0003;

/// A wave format description, field for field as WASAPI takes it.
#[derive(Clone, Copy, Debug, PartialEq, Eq, Structural)]
pub struct WaveFormat {
    pub format_tag: u16,
    pub channels: u16,
    pub samples_per_sec: u32,
    pub avg_bytes_per_sec: u32,
    pub block_align: u16,
    pub bits_per_sample: u16,
    pub cb_size: u16,
}

/// Interleaved stereo 32-bit float at the relay rate: a frame is one sample
/// per channel, and the byte rate is the frame size times the frame rate.
pub fn relay_format() -> (format: WaveFormat)
    ensures
        format.format_tag == WAVE_FORMAT_IEEE_FLOAT,
        format.channels == RELAY_CHANNELS,
        format.samples_per_sec == RELAY_SAMPLE_RATE,
        format.bits_per_sample == 32,
        format.block_align == RELAY_CHANNELS * 4,
        format.avg_bytes_per_sec == RELAY_SAMPLE_RATE * format.block_align,
        format.cb_size == 0,
{
    let channels = RELAY_CHANNELS;
    let bits: u16 = 32;
    let block_align = channels * bits / 8;
    WaveFormat {
        format_tag: WAVE_FORMAT_IEEE_FLOAT,
        channels,
        samples_per_sec: RELAY_SAMPLE_RATE,
        avg_bytes_per_sec: RELAY_SAMPLE_RATE * (block_align as u32),
        block_align,
        bits_per_sample: bits,
        cb_size: 0,
    }
}

/// The endpoints the relay uses: whose loopback is sent to peers, and where
/// peer audio is played. `None` follows the system default.
#[derive(Clone, Debug, Default, PartialEq, Eq)]
pub struct RelayEndpoints {
    pub capture: Option<String>,
    pub playback: Option<String>,
}

} // verus!
