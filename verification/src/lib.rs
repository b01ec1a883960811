//! An MPEG audio (layers 1, 2 and 3) frame decoder: the bit-level parts of it.
//!
//! The library locates frames in a byte stream, reads and validates frame
//! headers, reads bit fields, and parses the layer 1/2 allocation and scale
//! factor information and the layer 3 side information and bit reservoir.
use vstd::prelude::*;

pub mod bits;
pub mod header;
pub mod decoder;
pub mod layer3;
pub mod huffman;
pub mod huffman_tables;
pub mod layers12;

verus! {

/// Information about a decoded frame.
#[derive(Copy, Clone)]
pub struct FrameInfo {
    pub frame_bytes: i32,
    pub channels: i32,
    pub hz: i32,
    pub layer: i32,
    /// The bitrate in kilobits per second, 0 for a free-format frame.
    pub bitrate_kbps: i32,
    pub samples: usize,
}

impl FrameInfo {
    /// The number of bytes that were processed by the decoder, including
    /// bytes skipped before the frame.
    pub fn frame_bytes(&self) -> (r: usize)
        ensures
            r == self.frame_bytes as usize,
    {
        self.frame_bytes as usize
    }

    /// The number of samples that were decoded, over all channels.
    pub fn samples(&self) -> (r: usize)
        ensures
            r == self.samples,
    {
        self.samples
    }

    /// The sample rate in Hz.
    pub fn sample_rate(&self) -> (r: u32)
        ensures
            r == self.hz as u32,
    {
        self.hz as u32
    }

    /// The bitrate in kilobytes per second: the header's bitrate in
    /// kilobits per second, divided by 8.
    pub fn bitrate(&self) -> (r: u32)
        ensures
            r == (self.bitrate_kbps as u32) / 8,
    {
        (self.bitrate_kbps as u32) / 8
    }

    /// The number of audio channels.
    pub fn channels(&self) -> (r: u8)
        ensures
            r == self.channels as u8,
    {
        self.channels as u8
    }

    /// The layer: 1, 2 or 3.
    pub fn layer(&self) -> (r: u8)
        ensures
            r == self.layer as u8,
    {
        self.layer as u8
    }
}

/// The maximum number of samples that can be decoded from a single frame.
pub const MINIMP3_MAX_SAMPLES_PER_FRAME: usize = 2304;

/// The size of a frame header in bytes.
pub const HDR_SIZE: usize = 4;

/// The largest free-format frame that the frame search looks for (more
/// than the ISO standard allows).
pub const MAX_FREE_FORMAT_FRAME_SIZE: i32 = 2304;

/// The exponent offset of the layer III dequantizer output.
pub const BITS_DEQUANTIZER_OUT: i32 = -1;

/// The largest layer III scale factor exponent.
pub const MAX_SCF: i32 = 255 + BITS_DEQUANTIZER_OUT * 4 - 210;

/// `MAX_SCF` rounded up to a multiple of four.
pub const MAX_SCFI: i32 = (MAX_SCF + 3) & !3;

/// How many following frames are checked before a frame is accepted.
pub const MAX_FRAME_SYNC_MATCHES: i32 = 10;

} // verus!
