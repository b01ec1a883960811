//! MPEG audio frame headers: four bytes that describe a frame.
//!
//! The fields of a header, by byte and bit (bit 7 the most significant):
//! byte 0 and bits 7..5 of byte 1 are the sync word; bit 4 of byte 1 is
//! clear for MPEG 2.5, bit 3 set for MPEG 1; bits 2..1 give the layer
//! (3 for layer I, 2 for layer II, 1 for layer III, 0 is reserved); bit 0
//! is clear where a CRC follows. Byte 2 holds the bitrate index (bits 7..4),
//! the sample rate index (bits 3..2) and the padding bit (bit 1). Byte 3
//! holds the channel mode (bits 7..6) and the mode extension (bits 5..4).
use vstd::prelude::*;

verus! {

/// The layer field: 3 for layer I, 2 for layer II, 1 for layer III.
pub open spec fn layer_field(b1: u8) -> u8 {
    (b1 >> 1u8) & 3u8
}

/// The MPEG 1 bit.
pub open spec fn mpeg1_bit(b1: u8) -> bool {
    (b1 >> 3u8) & 1u8 == 1u8
}

/// The bit that is clear for MPEG 2.5 only.
pub open spec fn not_mpeg25_bit(b1: u8) -> bool {
    (b1 >> 4u8) & 1u8 == 1u8
}

/// The protection bit: clear where a CRC follows the header.
pub open spec fn protection_bit(b1: u8) -> bool {
    b1 & 1u8 == 1u8
}

/// The three high bits of byte 1, part of the sync word.
pub open spec fn sync_bits(b1: u8) -> u8 {
    b1 >> 5u8
}

pub open spec fn bitrate_index(b2: u8) -> u8 {
    b2 >> 4u8
}

pub open spec fn sample_rate_index(b2: u8) -> u8 {
    (b2 >> 2u8) & 3u8
}

pub open spec fn padding_bit(b2: u8) -> bool {
    (b2 >> 1u8) & 1u8 == 1u8
}

/// The channel mode: 0 stereo, 1 joint stereo, 2 dual channel, 3 mono.
pub open spec fn channel_mode(b3: u8) -> u8 {
    b3 >> 6u8
}

pub open spec fn mode_extension(b3: u8) -> u8 {
    (b3 >> 4u8) & 3u8
}

/// A header is valid when it starts with the sync word, names MPEG 1 or 2,
/// or MPEG 2.5 with layer III, names a layer, and has neither the bitrate
/// index 15 nor the sample rate index 3.
pub open spec fn valid_header(h: Seq<u8>) -> bool {
    &&& h[0] == 0xFFu8
    &&& sync_bits(h[1]) == 7u8
    &&& (not_mpeg25_bit(h[1]) || (!mpeg1_bit(h[1]) && layer_field(h[1]) == 1u8))
    &&& layer_field(h[1]) != 0u8
    &&& bitrate_index(h[2]) != 15u8
    &&& sample_rate_index(h[2]) != 3u8
}

/// What `is_valid` reads of a header: its first byte, and the next two
/// where that one is 0xFF.
pub open spec fn readable_for_validity(h: Seq<u8>) -> bool {
    h.len() >= 1 && (h[0] == 0xFFu8 ==> h.len() >= 3)
}

/// The bit fields of a header byte, as the masks that read them see them.
proof fn lemma_byte_fields(b: u8)
    by (bit_vector)
    ensures
        (b & 0xC0u8 == 0xC0u8) == (b >> 6u8 == 3u8),
        (b & 1u8 == 0u8) == !(b & 1u8 == 1u8),
        (b & 0xF0u8 == 0u8) == (b >> 4u8 == 0u8),
        (b & 6u8 == 6u8) == ((b >> 1u8) & 3u8 == 3u8),
        (b & 14u8 == 2u8) == ((b >> 1u8) & 3u8 == 1u8 && !((b >> 3u8) & 1u8 == 1u8)),
        (b >> 1u8) & 3u8 <= 3u8,
        b >> 4u8 <= 15u8,
        (b >> 2u8) & 3u8 <= 3u8,
        (b & 8u8 != 0u8) == ((b >> 3u8) & 1u8 == 1u8),
        (b & 2u8 != 0u8) == ((b >> 1u8) & 1u8 == 1u8),
        (b & 0x10u8 != 0u8) == ((b >> 4u8) & 1u8 == 1u8),
        ((b & 0xF0u8) == 0xF0u8 || (b & 0xFEu8) == 0xE2u8) == (b >> 5u8 == 7u8 && ((b >> 4u8) & 1u8 == 1u8 || (!((b >> 3u8) & 1u8 == 1u8) && (b >> 1u8) & 3u8 == 1u8))),
        (b >> 6u8) & 3u8 == b >> 6u8 && b >> 6u8 <= 3u8,
        (b >> 4u8) & 3u8 <= 3u8,
        (b & 0x10u8 != 0u8) == (((b >> 4u8) & 3u8) & 1u8 == 1u8),
        (b & 0xE0u8 == 0x60u8) == (b >> 6u8 == 1u8 && ((b >> 4u8) & 3u8) >> 1u8 == 1u8),
        (b >> 3u8) & 1u8 <= 1u8 && (b >> 4u8) & 1u8 <= 1u8,
        (b >> 3u8) & 1u8 == 1u8 || (b >> 3u8) & 1u8 == 0u8,
        (b >> 4u8) & 1u8 == 1u8 || (b >> 4u8) & 1u8 == 0u8,
{
}

/// Whether the frame has a single channel.
pub fn is_mono(hdr: &[u8]) -> (r: bool)
    requires
        hdr@.len() >= 4,
    ensures
        r == (channel_mode(hdr@[3]) == 3u8),
{
    let b = hdr[3];
    proof { lemma_byte_fields(b); }
    hdr[3] & 0xC0 == 0xC0
}

/// Whether a 16-bit checksum follows the header.
pub fn is_crc(hdr: &[u8]) -> (r: bool)
    requires
        hdr@.len() >= 2,
    ensures
        r == !protection_bit(hdr@[1]),
{
    let b = hdr[1];
    proof { lemma_byte_fields(b); }
    hdr[1] & 1 == 0
}

/// Whether the bitrate index is 0: a free-format frame, whose size the
/// header does not give.
pub fn is_free_format(hdr: &[u8]) -> (r: bool)
    requires
        hdr@.len() >= 3,
    ensures
        r == (bitrate_index(hdr@[2]) == 0u8),
{
    let b = hdr[2];
    proof { lemma_byte_fields(b); }
    hdr[2] & 0xF0 == 0
}

/// Whether the frame is of layer I.
pub fn is_layer_1(hdr: &[u8]) -> (r: bool)
    requires
        hdr@.len() >= 2,
    ensures
        r == (layer_field(hdr@[1]) == 3u8),
{
    let b = hdr[1];
    proof { lemma_byte_fields(b); }
    hdr[1] & 6 == 6
}

/// Whether a frame holds 576 samples per channel: layer III of MPEG 2 or 2.5.
pub fn is_frame_576(hdr: &[u8]) -> (r: bool)
    requires
        hdr@.len() >= 2,
    ensures
        r == (layer_field(hdr@[1]) == 1u8 && !mpeg1_bit(hdr@[1])),
{
    let b = hdr[1];
    proof { lemma_byte_fields(b); }
    hdr[1] & 14 == 2
}

/// The layer field: 3 for layer I, 2 for layer II, 1 for layer III.
pub fn get_layer(hdr: &[u8]) -> (r: u8)
    requires
        hdr@.len() >= 2,
    ensures
        r == layer_field(hdr@[1]),
        r <= 3,
{
    let b = hdr[1];
    proof { lemma_byte_fields(b); }
    hdr[1] >> 1 & 3
}

/// The bitrate index.
pub fn get_bitrate(hdr: &[u8]) -> (r: u8)
    requires
        hdr@.len() >= 3,
    ensures
        r == bitrate_index(hdr@[2]),
        r <= 15,
{
    let b = hdr[2];
    proof { lemma_byte_fields(b); }
    hdr[2] >> 4
}

/// The sample rate index.
pub fn get_sample_rate(hdr: &[u8]) -> (r: u8)
    requires
        hdr@.len() >= 3,
    ensures
        r == sample_rate_index(hdr@[2]),
        r <= 3,
{
    let b = hdr[2];
    proof { lemma_byte_fields(b); }
    hdr[2] >> 2 & 3
}

/// Whether the frame is MPEG 1.
pub fn test_mpeg1(hdr: &[u8]) -> (r: bool)
    requires
        hdr@.len() >= 2,
    ensures
        r == mpeg1_bit(hdr@[1]),
{
    let b = hdr[1];
    proof { lemma_byte_fields(b); }
    hdr[1] & 0x8 != 0
}

/// Whether the frame is padded by one slot.
pub fn test_padding(hdr: &[u8]) -> (r: bool)
    requires
        hdr@.len() >= 3,
    ensures
        r == padding_bit(hdr@[2]),
{
    let b = hdr[2];
    proof { lemma_byte_fields(b); }
    hdr[2] & 0x2 != 0
}

/// Whether the frame is MPEG 1 or 2, not 2.5.
pub fn test_not_mpeg25(hdr: &[u8]) -> (r: bool)
    requires
        hdr@.len() >= 2,
    ensures
        r == not_mpeg25_bit(hdr@[1]),
{
    let b = hdr[1];
    proof { lemma_byte_fields(b); }
    hdr[1] & 0x10 != 0
}

/// Whether `hdr` starts with a valid frame header (see `valid_header`).
pub fn is_valid(hdr: &[u8]) -> (r: bool)
    requires
        readable_for_validity(hdr@),
    ensures
        r == valid_header(hdr@),
{
    if hdr[0] != 0xFF {
        return false;
    }
    let b1 = hdr[1];
    proof { lemma_byte_fields(b1); }
    ((hdr[1] & 0xF0) == 0xF0 || (hdr[1] & 0xFE) == 0xE2) && get_layer(hdr) != 0 && get_bitrate(
        hdr,
    ) != 15 && get_sample_rate(hdr) != 3
}


/// The channel mode: 0 stereo, 1 joint stereo, 2 dual channel, 3 mono.
pub fn get_stereo_mode(hdr: &[u8]) -> (r: u8)
    requires
        hdr@.len() >= 4,
    ensures
        r == channel_mode(hdr@[3]),
        r <= 3,
{
    let b = hdr[3];
    proof { lemma_byte_fields(b); }
    hdr[3] >> 6 & 3
}

/// The mode extension of joint stereo.
pub fn get_stereo_mode_ext(hdr: &[u8]) -> (r: u8)
    requires
        hdr@.len() >= 4,
    ensures
        r == mode_extension(hdr@[3]),
        r <= 3,
{
    let b = hdr[3];
    proof { lemma_byte_fields(b); }
    hdr[3] >> 4 & 3
}

/// Whether intensity stereo is on: the low bit of the mode extension (it
/// means so in joint stereo).
pub fn test_1_stereo(hdr: &[u8]) -> (r: bool)
    requires
        hdr@.len() >= 4,
    ensures
        r == (mode_extension(hdr@[3]) & 1u8 == 1u8),
{
    let b = hdr[3];
    proof { lemma_byte_fields(b); }
    hdr[3] & 0x10 != 0
}

/// Whether mid/side stereo is on: joint stereo with the high bit of the
/// mode extension set.
pub fn is_ms_stereo(hdr: &[u8]) -> (r: bool)
    requires
        hdr@.len() >= 4,
    ensures
        r == (channel_mode(hdr@[3]) == 1u8 && (mode_extension(hdr@[3]) >> 1u8) == 1u8),
{
    let b = hdr[3];
    proof { lemma_byte_fields(b); }
    hdr[3] & 0xE0 == 0x60
}

/// The sample rate over all versions: the sample rate index plus three for
/// MPEG 2 and six for MPEG 1 (MPEG 2.5 counts nothing).
pub open spec fn combined_sample_rate(h: Seq<u8>) -> int {
    sample_rate_index(h[2]) + 3 * ((if mpeg1_bit(h[1]) { 1int } else { 0 }) + (if not_mpeg25_bit(h[1]) { 1int } else { 0 }))
}

/// The sample rate index combined with the version: 0 to 2 for MPEG
/// 2.5, 3 to 5 for MPEG 2, 6 to 8 for MPEG 1.
pub fn get_my_sample_rate(hdr: &[u8]) -> (r: u8)
    requires
        hdr@.len() >= 3,
    ensures
        r == combined_sample_rate(hdr@),
        r <= 9,
{
    let (b1, b2) = (hdr[1], hdr[2]);
    proof {
        lemma_byte_fields(b1);
        lemma_byte_fields(b2);
    }
    (hdr[2] >> 2 & 3) + ((hdr[1] >> 3 & 1) + (hdr[1] >> 4 & 1)) * 3
}

/// Whether a header can follow `this` in the same stream: it is valid and
/// has the same version, layer, protection and sample rate, and the same
/// free-format-ness.
pub open spec fn compatible_headers(this: Seq<u8>, other: Seq<u8>) -> bool {
    &&& valid_header(other)
    &&& this[1] >> 1u8 == other[1] >> 1u8
    &&& sample_rate_index(this[2]) == sample_rate_index(other[2])
    &&& (bitrate_index(this[2]) == 0u8) == (bitrate_index(other[2]) == 0u8)
}

/// Whether `other` starts with a header that can follow `this` in the same
/// stream (see `compatible_headers`).
pub fn compare(this: &[u8], other: &[u8]) -> (r: bool)
    requires
        readable_for_validity(other@),
        valid_header(other@) ==> this@.len() >= 3,
    ensures
        r == compatible_headers(this@, other@),
{
    if !is_valid(other) {
        return false;
    }
    let (a1, b1, a2, b2) = (this[1], other[1], this[2], other[2]);
    assert(((a1 ^ b1) & 0xFEu8 == 0u8) == (a1 >> 1u8 == b1 >> 1u8)) by (bit_vector);
    assert(((a2 ^ b2) & 0x0Cu8 == 0u8) == ((a2 >> 2u8) & 3u8 == (b2 >> 2u8) & 3u8)) by (bit_vector);
    (this[1] ^ other[1]) & 0xFE == 0 && (this[2] ^ other[2]) & 0x0C == 0 && is_free_format(this)
        == is_free_format(other)
}

/// The number of bytes that padding adds to a frame: one slot, of four
/// bytes in layer I and one byte otherwise.
pub open spec fn padding_bytes(h: Seq<u8>) -> int {
    if padding_bit(h[2]) {
        if layer_field(h[1]) == 3u8 {
            4
        } else {
            1
        }
    } else {
        0
    }
}

/// The bytes that padding adds to the frame.
pub fn padding(hdr: &[u8]) -> (r: i32)
    requires
        hdr@.len() >= 3,
    ensures
        r == padding_bytes(hdr@),
{
    if test_padding(hdr) {
        if is_layer_1(hdr) {
            4
        } else {
            1
        }
    } else {
        0
    }
}

/// Samples per channel in a frame: 384 in layer I, 576 in layer III of
/// MPEG 2 and 2.5, 1152 otherwise.
pub open spec fn samples_per_frame(h: Seq<u8>) -> int {
    if layer_field(h[1]) == 3u8 {
        384
    } else if layer_field(h[1]) == 1u8 && !mpeg1_bit(h[1]) {
        576
    } else {
        1152
    }
}

/// The samples per channel of the frame.
pub fn frame_samples(hdr: &[u8]) -> (r: i32)
    requires
        hdr@.len() >= 2,
    ensures
        r == samples_per_frame(hdr@),
{
    if is_layer_1(hdr) {
        384
    } else {
        let s: u8 = if is_frame_576(hdr) { 1 } else { 0 };
        assert(1152i32 >> 1u8 == 576i32) by (bit_vector);
        assert(1152i32 >> 0u8 == 1152i32) by (bit_vector);
        1152 >> s
    }
}

/// Half the bitrates in kbps, by MPEG 1 bit, then layer field less one,
/// then bitrate index.
pub const HALFRATE: [u8; 90] = [
    0, 4, 8, 12, 16, 20, 24, 28, 32, 40, 48, 56, 64, 72, 80,
    0, 4, 8, 12, 16, 20, 24, 28, 32, 40, 48, 56, 64, 72, 80,
    0, 16, 24, 28, 32, 40, 48, 56, 64, 72, 80, 88, 96, 112, 128,
    0, 16, 20, 24, 28, 32, 40, 48, 56, 64, 80, 96, 112, 128, 160,
    0, 16, 24, 28, 32, 40, 48, 56, 64, 80, 96, 112, 128, 160, 192,
    0, 16, 32, 48, 64, 80, 96, 112, 128, 144, 160, 176, 192, 208, 224,
];

/// Where a header's bitrate stands in `HALFRATE`.
pub open spec fn halfrate_index(h: Seq<u8>) -> int {
    bitrate_index(h[2]) + (layer_field(h[1]) - 1) * 15 + (if mpeg1_bit(h[1]) { 45int } else { 0 })
}

/// What `bitrate_kbps` needs of a header: a layer, and a bitrate that
/// stands in the table.
pub open spec fn has_bitrate(h: Seq<u8>) -> bool {
    h.len() >= 3 && layer_field(h[1]) != 0u8 && halfrate_index(h) < 90
}

/// The bitrate in kbps; 0 for free format.
pub open spec fn bitrate_of(h: Seq<u8>) -> int {
    2 * HALFRATE@[halfrate_index(h)]
}

/// The bitrate in kbps, 0 for free format.
pub fn bitrate_kbps(hdr: &[u8]) -> (r: i32)
    requires
        has_bitrate(hdr@),
    ensures
        r == bitrate_of(hdr@),
        0 <= r <= 448,
{
    let idx = (get_bitrate(hdr) + (get_layer(hdr) - 1) * 15 + test_mpeg1(hdr) as u8 * 3 * 15)
        as usize;
    let t = HALFRATE;
    assert(forall|i: int| 0 <= i < 90 ==> t@[i] <= 224);
    2 * t[idx] as i32
}

/// The sample rate in Hz: 44100, 48000 or 32000 by index for MPEG 1,
/// halved for MPEG 2, and halved again for MPEG 2.5.
pub open spec fn sample_rate_of(h: Seq<u8>) -> int {
    let base: int = if sample_rate_index(h[2]) == 0u8 {
        44100
    } else if sample_rate_index(h[2]) == 1u8 {
        48000
    } else {
        32000
    };
    let once: int = if mpeg1_bit(h[1]) { base } else { base / 2 };
    if not_mpeg25_bit(h[1]) { once } else { once / 2 }
}

/// The sample rate in Hz.
pub fn sample_rate_hz(hdr: &[u8]) -> (r: i32)
    requires
        hdr@.len() >= 3,
        sample_rate_index(hdr@[2]) != 3u8,
    ensures
        r == sample_rate_of(hdr@),
        8000 <= r <= 48000,
{
    let g_hz: [i32; 3] = [44100, 48000, 32000];
    let a: i32 = g_hz[get_sample_rate(hdr) as usize];
    let s1: u8 = if test_mpeg1(hdr) { 0 } else { 1 };
    let s2: u8 = if test_not_mpeg25(hdr) { 0 } else { 1 };
    let b = a >> s1;
    assert(0 <= a ==> a >> 0u8 == a && a >> 1u8 == a / 2) by (bit_vector);
    assert(0 <= b ==> b >> 0u8 == b && b >> 1u8 == b / 2) by (bit_vector);
    b >> s2
}


/// What the size computations need of a header: a layer, a bitrate in the
/// table and a sample rate.
pub open spec fn sized_header(h: Seq<u8>) -> bool {
    has_bitrate(h) && sample_rate_index(h[2]) != 3u8
}

/// The size in bytes of a frame without its padding: samples times bitrate
/// over sample rate, in whole slots (of four bytes in layer I); where that
/// is 0 (free format) it is `free_format_size`.
pub open spec fn frame_length(h: Seq<u8>, free_format_size: int) -> int {
    let raw = samples_per_frame(h) * bitrate_of(h) * 125 / sample_rate_of(h);
    let slots = if layer_field(h[1]) == 3u8 { raw - raw % 4 } else { raw };
    if slots != 0 { slots } else { free_format_size }
}

/// The size of the frame in bytes without padding; `free_format_size`
/// for a free-format frame.
pub fn frame_bytes(hdr: &[u8], free_format_size: i32) -> (r: i32)
    requires
        sized_header(hdr@),
    ensures
        r == frame_length(hdr@, free_format_size as int),
        r == free_format_size || 0 < r <= 8064,
{
    let samples = frame_samples(hdr);
    let kbps = bitrate_kbps(hdr);
    let hz = sample_rate_hz(hdr);
    assert(samples * kbps * 125 <= 1152 * 448 * 125) by (nonlinear_arith)
        requires 0 <= samples <= 1152, 0 <= kbps <= 448;
    assert(samples * kbps * 125 >= 0) by (nonlinear_arith)
        requires 0 <= samples <= 1152, 0 <= kbps <= 448;
    let mut frame_bytes = samples * kbps * 125 / hz;
    assert(frame_bytes <= 8064) by (nonlinear_arith)
        requires frame_bytes == (samples * kbps * 125) / (hz as int), 0 <= samples * kbps * 125 <= 1152 * 448 * 125, 8000 <= hz;
    if is_layer_1(hdr) {
        let f = frame_bytes;
        assert(0 <= f ==> f & !3i32 == f - f % 4) by (bit_vector);
        frame_bytes &= !3;
    }
    if frame_bytes != 0 {
        frame_bytes
    } else {
        free_format_size
    }
}


/// A valid header has a bitrate in the table and a sample rate, so that its
/// frame size can be computed.
pub proof fn lemma_valid_header_is_sized(h: Seq<u8>)
    requires
        h.len() >= 3,
        valid_header(h),
    ensures
        sized_header(h),
{
    let b1 = h[1];
    let b2 = h[2];
    lemma_byte_fields(b1);
    lemma_byte_fields(b2);
}


/// A valid header describes a frame of at most `MAX_FREE_FORMAT_FRAME_SIZE`
/// bytes before padding, free format aside.
pub proof fn lemma_valid_frame_length_bound(h: Seq<u8>, free_format_size: int)
    requires
        h.len() >= 3,
        valid_header(h),
    ensures
        frame_length(h, free_format_size) == free_format_size || 0 < frame_length(h, free_format_size) <= 2304,
{
    lemma_valid_header_is_sized(h);
    let t = HALFRATE;
    let (b1, b2) = (h[1], h[2]);
    lemma_byte_fields(b1);
    lemma_byte_fields(b2);
    assert(forall|i: int| 0 <= i < 45 ==> t@[i] <= 128);
    assert(!mpeg1_bit(h[1]) ==> halfrate_index(h) < 45);
    assert(!mpeg1_bit(h[1]) ==> t@[halfrate_index(h)] <= 128);
    assert(forall|i: int| 0 <= i < 90 ==> t@[i] <= 224);
    let samples = samples_per_frame(h);
    let kbps = bitrate_of(h);
    let hz = sample_rate_of(h);
    let x = samples * kbps * 125;
    if mpeg1_bit(h[1]) {
        assert(x <= 1152 * 448 * 125) by (nonlinear_arith)
            requires x == samples * kbps * 125, 0 <= samples <= 1152, 0 <= kbps <= 448;
        assert(x / hz <= 2304) by (nonlinear_arith)
            requires 0 <= x <= 1152 * 448 * 125, 32000 <= hz;
    } else if not_mpeg25_bit(h[1]) {
        assert(x <= 1152 * 256 * 125) by (nonlinear_arith)
            requires x == samples * kbps * 125, 0 <= samples <= 1152, 0 <= kbps <= 256;
        assert(x / hz <= 2304) by (nonlinear_arith)
            requires 0 <= x <= 1152 * 256 * 125, 16000 <= hz;
    } else {
        assert(x <= 576 * 256 * 125) by (nonlinear_arith)
            requires x == samples * kbps * 125, 0 <= samples <= 576, 0 <= kbps <= 256;
        assert(x / hz <= 2304) by (nonlinear_arith)
            requires 0 <= x <= 576 * 256 * 125, 8000 <= hz;
    }
    assert(0 <= x) by (nonlinear_arith)
        requires x == samples * kbps * 125, 0 <= samples, 0 <= kbps;
    assert(0 <= x / hz) by (nonlinear_arith)
        requires 0 <= x, 8000 <= hz;
}


/// Compatibility of headers is an equivalence among valid headers: each is
/// compatible with itself, and compatibility goes both ways and chains, so
/// that the frames of a stream all agree with its first.
pub proof fn lemma_compatible_equivalence(a: Seq<u8>, b: Seq<u8>, c: Seq<u8>)
    requires
        a.len() >= 3,
        b.len() >= 3,
        c.len() >= 3,
        valid_header(a),
    ensures
        compatible_headers(a, a),
        compatible_headers(a, b) ==> compatible_headers(b, a),
        compatible_headers(a, b) && compatible_headers(b, c) ==> compatible_headers(a, c),
{
}

/// No frame holds more samples, over all its channels, than
/// `MINIMP3_MAX_SAMPLES_PER_FRAME`.
pub proof fn lemma_frame_samples_bound(h: Seq<u8>)
    requires
        h.len() >= 4,
    ensures
        samples_per_frame(h) * (if channel_mode(h[3]) == 3u8 { 1int } else { 2 }) <= crate::MINIMP3_MAX_SAMPLES_PER_FRAME,
{
}


/// A valid header's combined sample rate index is at most 8.
pub proof fn lemma_valid_sample_rate(h: Seq<u8>)
    requires
        h.len() >= 3,
        valid_header(h),
    ensures
        combined_sample_rate(h) <= 8,
{
    lemma_byte_fields(h[2]);
}

/// The number of granules per channel in a layer III frame: two in MPEG 1,
/// one in MPEG 2 and 2.5.
pub fn layer3_granules(hdr: &[u8]) -> (r: usize)
    requires
        hdr@.len() >= 2,
    ensures
        r == (if mpeg1_bit(hdr@[1]) { 2int } else { 1 }),
{
    if test_mpeg1(hdr) {
        2
    } else {
        1
    }
}

/// The number of samples a decoded frame holds over all its channels: the
/// samples per channel times the number of channels, at most
/// `MINIMP3_MAX_SAMPLES_PER_FRAME`.
pub fn frame_pcm_samples(hdr: &[u8]) -> (r: usize)
    requires
        hdr@.len() >= 4,
    ensures
        r == samples_per_frame(hdr@) * (if channel_mode(hdr@[3]) == 3u8 { 1int } else { 2 }),
        r <= crate::MINIMP3_MAX_SAMPLES_PER_FRAME,
{
    let per_channel = frame_samples(hdr) as usize;
    if is_mono(hdr) {
        per_channel
    } else {
        2 * per_channel
    }
}
} // verus!
