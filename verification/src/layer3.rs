//! Layer III: side information, the bit reservoir, and scale factors.
use vstd::prelude::*;
use crate::bits::{Bits, read_value, lemma_read_value_bound};
use crate::decoder::{StreamState, frame_bits, body_start};
use crate::huffman::huffman_ready;
use crate::header::valid_header;
use crate::header::{combined_sample_rate, get_my_sample_rate, is_mono, is_ms_stereo, mode_extension, mpeg1_bit, channel_mode, test_1_stereo, test_mpeg1};
use crate::{BITS_DEQUANTIZER_OUT, MAX_FREE_FORMAT_FRAME_SIZE};

verus! {

/// The widths of the long scale factor bands, by sample rate.
pub const G_SCF_LONG: [[u8; 23]; 8] = [
    [6, 6, 6, 6, 6, 6, 8, 10, 12, 14, 16, 20, 24, 28, 32, 38, 46, 52, 60, 68, 58, 54, 0],
    [12, 12, 12, 12, 12, 12, 16, 20, 24, 28, 32, 40, 48, 56, 64, 76, 90, 2, 2, 2, 2, 2, 0],
    [6, 6, 6, 6, 6, 6, 8, 10, 12, 14, 16, 20, 24, 28, 32, 38, 46, 52, 60, 68, 58, 54, 0],
    [6, 6, 6, 6, 6, 6, 8, 10, 12, 14, 16, 18, 22, 26, 32, 38, 46, 54, 62, 70, 76, 36, 0],
    [6, 6, 6, 6, 6, 6, 8, 10, 12, 14, 16, 20, 24, 28, 32, 38, 46, 52, 60, 68, 58, 54, 0],
    [4, 4, 4, 4, 4, 4, 6, 6, 8, 8, 10, 12, 16, 20, 24, 28, 34, 42, 50, 54, 76, 158, 0],
    [4, 4, 4, 4, 4, 4, 6, 6, 6, 8, 10, 12, 16, 18, 22, 28, 34, 40, 46, 54, 54, 192, 0],
    [4, 4, 4, 4, 4, 4, 6, 6, 8, 10, 12, 16, 20, 24, 30, 38, 46, 56, 68, 84, 102, 26, 0],
];

/// The widths of the short scale factor bands (three windows each), by
/// sample rate.
pub const G_SCF_SHORT: [[u8; 40]; 8] = [
    [4, 4, 4, 4, 4, 4, 4, 4, 4, 6, 6, 6, 8, 8, 8, 10, 10, 10, 12, 12, 12, 14, 14, 14, 18, 18, 18, 24, 24, 24, 30, 30, 30, 40, 40, 40, 18, 18, 18, 0],
    [8, 8, 8, 8, 8, 8, 8, 8, 8, 12, 12, 12, 16, 16, 16, 20, 20, 20, 24, 24, 24, 28, 28, 28, 36, 36, 36, 2, 2, 2, 2, 2, 2, 2, 2, 2, 26, 26, 26, 0],
    [4, 4, 4, 4, 4, 4, 4, 4, 4, 6, 6, 6, 6, 6, 6, 8, 8, 8, 10, 10, 10, 14, 14, 14, 18, 18, 18, 26, 26, 26, 32, 32, 32, 42, 42, 42, 18, 18, 18, 0],
    [4, 4, 4, 4, 4, 4, 4, 4, 4, 6, 6, 6, 8, 8, 8, 10, 10, 10, 12, 12, 12, 14, 14, 14, 18, 18, 18, 24, 24, 24, 32, 32, 32, 44, 44, 44, 12, 12, 12, 0],
    [4, 4, 4, 4, 4, 4, 4, 4, 4, 6, 6, 6, 8, 8, 8, 10, 10, 10, 12, 12, 12, 14, 14, 14, 18, 18, 18, 24, 24, 24, 30, 30, 30, 40, 40, 40, 18, 18, 18, 0],
    [4, 4, 4, 4, 4, 4, 4, 4, 4, 4, 4, 4, 6, 6, 6, 8, 8, 8, 10, 10, 10, 12, 12, 12, 14, 14, 14, 18, 18, 18, 22, 22, 22, 30, 30, 30, 56, 56, 56, 0],
    [4, 4, 4, 4, 4, 4, 4, 4, 4, 4, 4, 4, 6, 6, 6, 6, 6, 6, 10, 10, 10, 12, 12, 12, 14, 14, 14, 16, 16, 16, 20, 20, 20, 26, 26, 26, 66, 66, 66, 0],
    [4, 4, 4, 4, 4, 4, 4, 4, 4, 4, 4, 4, 6, 6, 6, 8, 8, 8, 12, 12, 12, 16, 16, 16, 20, 20, 20, 26, 26, 26, 34, 34, 34, 42, 42, 42, 12, 12, 12, 0],
];

/// The widths of the bands of mixed blocks (long bands, then short ones),
/// by sample rate; zero after the last band.
pub const G_SCF_MIXED: [[u8; 40]; 8] = [
    [6, 6, 6, 6, 6, 6, 6, 6, 6, 8, 8, 8, 10, 10, 10, 12, 12, 12, 14, 14, 14, 18, 18, 18, 24, 24, 24, 30, 30, 30, 40, 40, 40, 18, 18, 18, 0, 0, 0, 0],
    [12, 12, 12, 4, 4, 4, 8, 8, 8, 12, 12, 12, 16, 16, 16, 20, 20, 20, 24, 24, 24, 28, 28, 28, 36, 36, 36, 2, 2, 2, 2, 2, 2, 2, 2, 2, 26, 26, 26, 0],
    [6, 6, 6, 6, 6, 6, 6, 6, 6, 6, 6, 6, 8, 8, 8, 10, 10, 10, 14, 14, 14, 18, 18, 18, 26, 26, 26, 32, 32, 32, 42, 42, 42, 18, 18, 18, 0, 0, 0, 0],
    [6, 6, 6, 6, 6, 6, 6, 6, 6, 8, 8, 8, 10, 10, 10, 12, 12, 12, 14, 14, 14, 18, 18, 18, 24, 24, 24, 32, 32, 32, 44, 44, 44, 12, 12, 12, 0, 0, 0, 0],
    [6, 6, 6, 6, 6, 6, 6, 6, 6, 8, 8, 8, 10, 10, 10, 12, 12, 12, 14, 14, 14, 18, 18, 18, 24, 24, 24, 30, 30, 30, 40, 40, 40, 18, 18, 18, 0, 0, 0, 0],
    [4, 4, 4, 4, 4, 4, 6, 6, 4, 4, 4, 6, 6, 6, 8, 8, 8, 10, 10, 10, 12, 12, 12, 14, 14, 14, 18, 18, 18, 22, 22, 22, 30, 30, 30, 56, 56, 56, 0, 0],
    [4, 4, 4, 4, 4, 4, 6, 6, 4, 4, 4, 6, 6, 6, 6, 6, 6, 10, 10, 10, 12, 12, 12, 14, 14, 14, 16, 16, 16, 20, 20, 20, 26, 26, 26, 66, 66, 66, 0, 0],
    [4, 4, 4, 4, 4, 4, 6, 6, 4, 4, 4, 6, 6, 6, 8, 8, 8, 12, 12, 12, 16, 16, 16, 20, 20, 20, 26, 26, 26, 34, 34, 34, 42, 42, 42, 12, 12, 12, 0, 0],
];

/// Which scale factor band table a granule uses, by sample rate (an index
/// into the tables above).
#[derive(Copy, Clone)]
pub enum SFBTable {
    /// 22 long bands.
    Long(u8),
    /// 39 short bands.
    Short(u8),
    /// The given number of long bands, then 30 short ones.
    Mixed(u8, u8),
}

/// The side information of one granule of one channel.
#[derive(Copy, Clone)]
pub struct GrInfo {
    /// `None` where no band table has been chosen.
    pub sfb_table: Option<SFBTable>,
    pub part_23_length: u16,
    pub big_values: u16,
    pub scalefac_compress: u16,
    pub global_gain: u8,
    pub block_type: u8,
    pub mixed_block: bool,
    pub table_select: [u8; 3],
    pub region_count: [u8; 3],
    pub subblock_gain: [u8; 3],
    pub preflag: bool,
    pub scalefac_scale: u8,
    pub count1_table: u8,
    pub scfsi: u8,
}

impl GrInfo {
    /// Side information with every field zero and no band table.
    pub fn new() -> (r: Self)
        ensures
            r == GrInfo::zero(),
    {
        GrInfo {
            sfb_table: None,
            part_23_length: 0,
            big_values: 0,
            scalefac_compress: 0,
            global_gain: 0,
            block_type: 0,
            mixed_block: false,
            table_select: [0, 0, 0],
            region_count: [0, 0, 0],
            subblock_gain: [0, 0, 0],
            preflag: false,
            scalefac_scale: 0,
            count1_table: 0,
            scfsi: 0,
        }
    }

    pub open spec fn zero() -> Self {
        GrInfo {
            sfb_table: None,
            part_23_length: 0,
            big_values: 0,
            scalefac_compress: 0,
            global_gain: 0,
            block_type: 0,
            mixed_block: false,
            table_select: [0u8, 0u8, 0u8],
            region_count: [0u8, 0u8, 0u8],
            subblock_gain: [0u8, 0u8, 0u8],
            preflag: false,
            scalefac_scale: 0,
            count1_table: 0,
            scfsi: 0,
        }
    }
}

/// The end of a granule's side information, from the table selection on:
/// the three Huffman table numbers (five bits each of `tables`), the
/// preemphasis flag (read in MPEG 1, else set by a large
/// `scalefac_compress`), the scale factor scale, the count1 table, and the
/// granule's four scale factor selection bits (bits 15..12 of `scfsi`,
/// which then moves on by four bits). The result is (the granule, the
/// position after it, the selection bits left, success).
#[verifier::opaque]
pub open spec fn granule_tail(data: Seq<u8>, p: int, g: GrInfo, tables: u32, mpeg1: bool, scfsi: u32) -> (GrInfo, int, u32, bool) {
    let table_select = [(tables >> 10u32) as u8, ((tables >> 5u32) & 31u32) as u8, (tables & 31u32) as u8];
    let preflag = if mpeg1 { read_value(data, p, 1) != 0 } else { g.scalefac_compress >= 500 };
    let p2 = if mpeg1 { p + 1 } else { p };
    let scalefac_scale = read_value(data, p2, 1) as u8;
    let count1_table = read_value(data, p2 + 1, 1) as u8;
    let g2 = GrInfo {
        table_select,
        preflag,
        scalefac_scale,
        count1_table,
        scfsi: ((scfsi >> 12u32) & 15u32) as u8,
        ..g
    };
    (g2, p2 + 2, scfsi << 4u32, true)
}

/// The block information of a granule with window switching, read from bit
/// `p` (after the flag): the block type (not 0), the mixed block flag, two
/// table numbers and three subblock gains. Short blocks take the short or
/// mixed band table and keep only the selection bits of the first band
/// groups. The result is (the granule, the position after it, the table
/// numbers, the selection bits, success).
#[verifier::opaque]
pub open spec fn granule_window_info(data: Seq<u8>, p: int, g: GrInfo, mpeg1: bool, sr: u8, scfsi: u32) -> (GrInfo, int, u32, u32, bool) {
    let block_type = read_value(data, p, 2) as u8;
    if block_type == 0 {
        (GrInfo { block_type, ..g }, p + 2, 0, scfsi, false)
    } else {
        let mixed_block = read_value(data, p + 2, 1) != 0;
        let short = block_type == 2;
        let sfb_table = if !short {
            g.sfb_table
        } else if !mixed_block {
            Some(SFBTable::Short(sr))
        } else {
            Some(SFBTable::Mixed(sr, if mpeg1 { 8u8 } else { 6u8 }))
        };
        let region_count = [if short && !mixed_block { 8u8 } else { 7u8 }, 255u8, g.region_count[2]];
        let tables = (read_value(data, p + 3, 10) as u32) << 5u32;
        let subblock_gain = [
            read_value(data, p + 13, 3) as u8,
            read_value(data, p + 16, 3) as u8,
            read_value(data, p + 19, 3) as u8,
        ];
        (
            GrInfo { block_type, mixed_block, sfb_table, region_count, subblock_gain, ..g },
            p + 22,
            tables,
            if short { scfsi & 0x0F0Fu32 } else { scfsi },
            true,
        )
    }
}

/// The side information of one granule of one channel, read from bit `p`
/// of `data` over the granule `g` (whose fields that the stream does not
/// set are kept): the length of its main data, the count of big values
/// (at most 288), the global gain, the scale factor compression (4 bits in
/// MPEG 1, 9 otherwise), the window switching flag, then either the block
/// information (`granule_window_info`) or, without window switching, block
/// type 0, no mixed block, three table numbers and two region counts, then
/// the rest (`granule_tail`). The result is (the
/// granule, the position after what was read, the selection bits left,
/// success); on failure the granule holds what was read up to then.
#[verifier::opaque]
pub open spec fn granule_side_info(
    data: Seq<u8>,
    p: int,
    g: GrInfo,
    mpeg1: bool,
    mono: bool,
    sr: u8,
    scfsi_in: u32,
) -> (GrInfo, int, u32, bool) {
    let scfsi = if mono { scfsi_in << 4u32 } else { scfsi_in };
    let part_23_length = read_value(data, p, 12) as u16;
    let big_values = read_value(data, p + 12, 9) as u16;
    let g1 = GrInfo { part_23_length, big_values, ..g };
    if big_values > 288 {
        (g1, p + 21, scfsi, false)
    } else {
        let global_gain = read_value(data, p + 21, 8) as u8;
        let sfc_bits: int = if mpeg1 { 4 } else { 9 };
        let scalefac_compress = read_value(data, p + 29, sfc_bits) as u16;
        let p1 = p + 29 + sfc_bits;
        let g2 = GrInfo { global_gain, scalefac_compress, sfb_table: Some(SFBTable::Long(sr)), ..g1 };
        if read_value(data, p1, 1) != 0 {
            let w = granule_window_info(data, p1 + 1, g2, mpeg1, sr, scfsi);
            if !w.4 {
                (w.0, w.1, scfsi, false)
            } else {
                granule_tail(data, w.1, w.0, w.2, mpeg1, w.3)
            }
        } else {
            let tables = read_value(data, p1 + 1, 15) as u32;
            let region_count = [read_value(data, p1 + 16, 4) as u8, read_value(data, p1 + 20, 3) as u8, 255u8];
            granule_tail(data, p1 + 23, GrInfo { block_type: 0, mixed_block: false, region_count, ..g2 }, tables, mpeg1, scfsi)
        }
    }
}

fn read_granule_window(bs: &mut Bits, g: GrInfo, mpeg1: bool, sr: u8, scfsi_in: u32) -> (r: (GrInfo, u32, u32, bool))
    requires
        old(bs).position + 22 <= usize::MAX,
        old(bs).data@.len() * 8 <= usize::MAX,
    ensures
        final(bs).data@ == old(bs).data@,
        ({
            let s = granule_window_info(old(bs).data@, old(bs).position as int, g, mpeg1, sr, scfsi_in);
            &&& r.0 == s.0
            &&& final(bs).position == s.1
            &&& r.1 == s.2
            &&& r.2 == s.3
            &&& r.3 == s.4
        }),
        r.2 <= scfsi_in,
        final(bs).position == old(bs).position + (if r.3 { 22int } else { 2 }),
        r.0.part_23_length == g.part_23_length,
{
    reveal(granule_window_info);
    let ghost data = bs.data@;
    let ghost p = bs.position as int;
    let mut gr = g;
    let mut scfsi = scfsi_in;
    gr.block_type = bs.get_bits(2) as u8;
    if gr.block_type == 0 {
        return (gr, 0, scfsi, false);
    }
    gr.mixed_block = bs.get_bits(1) != 0;
    gr.region_count[0] = 7;
    gr.region_count[1] = 255;
    if gr.block_type == 2 {
        let s = scfsi;
        assert(s & 0x0F0Fu32 <= s) by (bit_vector);
        scfsi &= 0x0F0F;
        if !gr.mixed_block {
            gr.region_count[0] = 8;
            gr.sfb_table = Some(SFBTable::Short(sr));
        } else {
            let long_sfb_count = if mpeg1 { 8 } else { 6 };
            gr.sfb_table = Some(SFBTable::Mixed(sr, long_sfb_count));
        }
    }
    let t = bs.get_bits(10);
    let tables = t << 5;
    gr.subblock_gain[0] = bs.get_bits(3) as u8;
    gr.subblock_gain[1] = bs.get_bits(3) as u8;
    gr.subblock_gain[2] = bs.get_bits(3) as u8;
    let ghost sp = granule_window_info(data, p, g, mpeg1, sr, scfsi_in);
    assert(gr.region_count =~= sp.0.region_count);
    assert(gr.subblock_gain =~= sp.0.subblock_gain);
    (gr, tables, scfsi, true)
}

fn read_granule_tail(bs: &mut Bits, g: GrInfo, tables: u32, mpeg1: bool, scfsi: u32) -> (r: (GrInfo, u32))
    requires
        old(bs).position + 3 <= usize::MAX,
        old(bs).data@.len() * 8 <= usize::MAX,
        scfsi <= 0x800_0000,
    ensures
        final(bs).data@ == old(bs).data@,
        ({
            let s = granule_tail(old(bs).data@, old(bs).position as int, g, tables, mpeg1, scfsi);
            &&& r.0 == s.0
            &&& final(bs).position == s.1
            &&& r.1 == s.2
            &&& s.3
        }),
        r.1 == scfsi * 16,
        final(bs).position == old(bs).position + (if mpeg1 { 3int } else { 2 }),
        r.0.part_23_length == g.part_23_length,
{
    reveal(granule_tail);
    let ghost data = bs.data@;
    let ghost p = bs.position as int;
    let mut gr = g;
    gr.table_select[0] = (tables >> 10) as u8;
    gr.table_select[1] = ((tables >> 5) & 31) as u8;
    gr.table_select[2] = (tables & 31) as u8;
    gr.preflag = if mpeg1 {
        bs.get_bits(1) != 0
    } else {
        gr.scalefac_compress >= 500
    };
    gr.scalefac_scale = bs.get_bits(1) as u8;
    gr.count1_table = bs.get_bits(1) as u8;
    gr.scfsi = ((scfsi >> 12) & 15) as u8;
    assert(scfsi <= 0x800_0000 ==> scfsi << 4u32 == scfsi * 16) by (bit_vector);
    let ghost sp = granule_tail(data, p, g, tables, mpeg1, scfsi);
    assert(gr.table_select =~= sp.0.table_select);
    (gr, scfsi << 4)
}

/// Reads the side information of one granule of one channel.
fn read_granule(bs: &mut Bits, g: GrInfo, mpeg1: bool, mono: bool, sr: u8, scfsi_in: u32) -> (r: (GrInfo, u32, bool))
    requires
        old(bs).position + 64 <= usize::MAX,
        old(bs).data@.len() * 8 <= usize::MAX,
        scfsi_in < 0x80_0000,
    ensures
        final(bs).data@ == old(bs).data@,
        ({
            let s = granule_side_info(old(bs).data@, old(bs).position as int, g, mpeg1, mono, sr, scfsi_in);
            &&& r.0 == s.0
            &&& final(bs).position == s.1
            &&& r.1 == s.2
            &&& r.2 == s.3
        }),
        mono ==> r.1 <= scfsi_in * 256,
        !mono ==> r.1 <= scfsi_in * 16,
        final(bs).position <= old(bs).position + 64,
        r.0.part_23_length <= 4095,
{
    reveal(granule_side_info);
    proof {
        crate::bits::lemma_bits_value_bound(bs.data@, bs.position as int, 12);
        vstd::arithmetic::power2::lemma2_to64();
    }
    let ghost data = bs.data@;
    let ghost p = bs.position as int;
    let mut gr = g;
    let mut scfsi = scfsi_in;
    if mono {
        scfsi = scfsi << 4;
    }
    assert(scfsi_in < 0x80_0000 ==> scfsi_in << 4u32 == scfsi_in * 16) by (bit_vector);
    gr.part_23_length = bs.get_bits(12) as u16;
    gr.big_values = bs.get_bits(9) as u16;
    if gr.big_values > 288 {
        return (gr, scfsi, false);
    }
    gr.global_gain = bs.get_bits(8) as u8;
    gr.scalefac_compress = bs.get_bits(if mpeg1 { 4 } else { 9 }) as u16;
    gr.sfb_table = Some(SFBTable::Long(sr));
    let tables: u32;
    let ghost p1 = p + 29 + (if mpeg1 { 4int } else { 9 });
    let ghost g2 = gr;
    let ghost sc = scfsi;
    assert(bs.position == p1);
    if bs.get_bits(1) != 0 {
        let (gw, t, s, ok) = read_granule_window(bs, gr, mpeg1, sr, scfsi);
        let ghost w = granule_window_info(data, p1 + 1, g2, mpeg1, sr, sc);
        assert(gw == w.0 && t == w.2 && s == w.3 && ok == w.4 && bs.position == w.1);
        if !ok {
            assert(granule_side_info(data, p, g, mpeg1, mono, sr, scfsi_in) == (w.0, w.1, sc, false));
            return (gw, scfsi, false);
        }
        gr = gw;
        tables = t;
        scfsi = s;
        let ghost pt = bs.position as int;
        let (g3, s3) = read_granule_tail(bs, gr, tables, mpeg1, scfsi);
        assert(granule_tail(data, pt, gr, tables, mpeg1, scfsi) == (g3, bs.position as int, s3, true));
        assert(granule_side_info(data, p, g, mpeg1, mono, sr, scfsi_in) == (g3, bs.position as int, s3, true));
        return (g3, s3, true);
    } else {
        tables = bs.get_bits(15);
        gr.region_count[0] = bs.get_bits(4) as u8;
        gr.region_count[1] = bs.get_bits(3) as u8;
        gr.region_count[2] = 255;
        gr.block_type = 0;
        gr.mixed_block = false;
        assert(gr.region_count =~= [read_value(data, p1 + 16, 4) as u8, read_value(data, p1 + 20, 3) as u8, 255u8]);
        assert(gr == GrInfo {
            block_type: 0,
            mixed_block: false,
            region_count: [read_value(data, p1 + 16, 4) as u8, read_value(data, p1 + 20, 3) as u8, 255u8],
            ..g2
        });
    }
    let (g3, s3) = read_granule_tail(bs, gr, tables, mpeg1, scfsi);
    assert(granule_side_info(data, p, g, mpeg1, mono, sr, scfsi_in) == (g3, bs.position as int, s3, true));
    (g3, s3, true)
}

/// The side information of granules `i..count`, each read after the one
/// before, from bit `p`, over `grs`: reading stops at the first failure.
/// The result is (the granules, the position after what was read, the sum
/// of main data lengths read, success).
pub open spec fn side_info_granules(
    data: Seq<u8>,
    p: int,
    grs: Seq<GrInfo>,
    i: int,
    count: int,
    mpeg1: bool,
    mono: bool,
    sr: u8,
    scfsi: u32,
    sum: int,
) -> (Seq<GrInfo>, int, int, bool)
    decreases count - i,
{
    if i >= count {
        (grs, p, sum, true)
    } else {
        let s = granule_side_info(data, p, grs[i], mpeg1, mono, sr, scfsi);
        let grs2 = grs.update(i, s.0);
        let sum2 = sum + s.0.part_23_length;
        if !s.3 {
            (grs2, s.1, sum2, false)
        } else {
            side_info_granules(data, s.1, grs2, i + 1, count, mpeg1, mono, sr, s.2, sum2)
        }
    }
}

/// The band table index of a header: its combined sample rate less one
/// (MPEG 2.5 at 11025 and 12000 Hz share a table).
pub open spec fn sfb_table_index(hdr: Seq<u8>) -> int {
    let c = combined_sample_rate(hdr);
    if c != 0 { c - 1 } else { 0 }
}

/// The number of granules times channels in a frame: two granules in MPEG 1,
/// one otherwise; one channel in mono, two otherwise.
pub open spec fn granule_count(hdr: Seq<u8>) -> int {
    let ch: int = if channel_mode(hdr[3]) == 3u8 { 1 } else { 2 };
    if mpeg1_bit(hdr[1]) { 2 * ch } else { ch }
}

/// The layer III side information at bit `p`: where the frame's main data
/// begins (how many bytes back in the reservoir: 9 bits in MPEG 1, else 8
/// bits after which one private bit per channel is dropped), in MPEG 1 the
/// private bits and the scale factor selection bits (all 4 per channel),
/// then every granule of every channel. The result is (the beginning of
/// the main data, or -1 where a granule is malformed or the main data of
/// the granules does not fit in the frame and reservoir; the granules; the
/// position after what was read).
pub open spec fn side_info(data: Seq<u8>, p: int, grs: Seq<GrInfo>, hdr: Seq<u8>) -> (int, Seq<GrInfo>, int) {
    let mono = channel_mode(hdr[3]) == 3u8;
    let mpeg1 = mpeg1_bit(hdr[1]);
    let count = granule_count(hdr);
    let main_data_begin: int = if mpeg1 {
        read_value(data, p, 9)
    } else {
        ((read_value(data, p, 8 + count) as u32) >> (count as u32)) as int
    };
    let scfsi: u32 = if mpeg1 { read_value(data, p + 9, 7 + count) as u32 } else { 0 };
    let p1 = if mpeg1 { p + 16 + count } else { p + 8 + count };
    let g = side_info_granules(data, p1, grs, 0, count, mpeg1, mono, sfb_table_index(hdr) as u8, scfsi, 0);
    let r = if !g.3 {
        -1
    } else if g.2 + g.1 > data.len() * 8 + main_data_begin * 8 {
        -1
    } else {
        main_data_begin
    };
    (r, g.0, g.1)
}

/// Where the side information begins, the main data's back pointer is the
/// first 9 bits in MPEG 1 and the first 8 bits otherwise; the private bits
/// that follow it (one per channel outside MPEG 1) do not enter it.
pub proof fn lemma_main_data_begin_field(data: Seq<u8>, p: int, grs: Seq<GrInfo>, hdr: Seq<u8>)
    requires
        hdr.len() >= 4,
        0 <= p,
        p + 8 + (if channel_mode(hdr[3]) == 3u8 { 1int } else { 2 }) <= data.len() * 8,
    ensures
        side_info(data, p, grs, hdr).0 == -1 || side_info(data, p, grs, hdr).0 == read_value(
            data,
            p,
            if mpeg1_bit(hdr[1]) { 9 } else { 8 },
        ),
{
    if !mpeg1_bit(hdr[1]) {
        let c: nat = if channel_mode(hdr[3]) == 3u8 { 1 } else { 2 };
        assert(granule_count(hdr) == c);
        crate::bits::lemma_bits_value_split(data, p, 8, c);
        crate::bits::lemma_bits_value_bound(data, p, 8);
        crate::bits::lemma_bits_value_bound(data, p + 8, c);
        vstd::arithmetic::power2::lemma2_to64();
        let a = crate::bits::bits_value(data, p, 8);
        let b = crate::bits::bits_value(data, p + 8, c);
        let q = vstd::arithmetic::power2::pow2(c);
        let x = crate::bits::bits_value(data, p, 8 + c);
        assert(x == a * q + b);
        assert(x < 1024) by (nonlinear_arith)
            requires
                x == a * q + b,
                a < 256,
                b < q,
                q <= 4;
        assert((a * q + b) / q == a) by (nonlinear_arith)
            requires
                0 <= b < q,
                0 <= a,
                q > 0;
        let xu = x as u32;
        assert(xu < 1024 ==> xu >> 1u32 == xu / 2 && xu >> 2u32 == xu / 4) by (bit_vector);
        assert(read_value(data, p, 8 + c as int) == x);
        assert(read_value(data, p, 8) == a);
    }
}

/// A bound on the scale factor selection bits before granule `i`.
pub open spec fn scfsi_bound(mono: bool, i: int) -> int {
    if mono {
        if i == 0 { 0x200 } else if i == 1 { 0x2_0000 } else { 0x200_0000 }
    } else {
        if i == 0 {
            0x800
        } else if i == 1 {
            0x8000
        } else if i == 2 {
            0x8_0000
        } else if i == 3 {
            0x80_0000
        } else {
            0x800_0000
        }
    }
}

/// Reads the layer III side information of a frame into `gr`, one entry
/// per granule and channel; returns where the main data begins, or -1.
pub fn read_side_info(bs: &mut Bits, gr: &mut [GrInfo], hdr: &[u8]) -> (r: i32)
    requires
        hdr@.len() >= 4,
        old(gr)@.len() >= granule_count(hdr@),
        old(bs).position + 0x8000 <= i32::MAX,
        old(bs).spec_limit() + 0x1000 <= i32::MAX,
    ensures
        final(bs).data@ == old(bs).data@,
        ({
            let s = side_info(old(bs).data@, old(bs).position as int, old(gr)@, hdr@);
            &&& r == s.0
            &&& final(gr)@ == s.1
            &&& final(bs).position == s.2
        }),
        r == -1 || 0 <= r <= 511,
{
    let ghost data = bs.data@;
    let ghost p0 = bs.position as int;
    let ghost gr0 = gr@;
    let mut sr_idx = get_my_sample_rate(hdr);
    if sr_idx != 0 {
        sr_idx -= 1;
    }
    let mono = is_mono(hdr);
    let mpeg1 = test_mpeg1(hdr);
    let mut gr_count: usize = if mono { 1 } else { 2 };
    let mut scfsi: u32 = 0;
    proof {
        vstd::arithmetic::power2::lemma2_to64();
    }
    let main_data_begin: u32 = if mpeg1 {
        gr_count *= 2;
        let data = bs.get_bits(9);
        scfsi = bs.get_bits(7 + gr_count as u32);
        proof {
            crate::bits::lemma_bits_value_bound(bs.data@, p0, 9);
            crate::bits::lemma_bits_value_bound(bs.data@, p0 + 9, (7 + gr_count) as nat);
        }
        data
    } else {
        let x = bs.get_bits(8 + gr_count as u32);
        proof {
            crate::bits::lemma_bits_value_bound(data, p0, (8 + gr_count) as nat);
        }
        assert(x < 512 ==> x >> 1usize < 256) by (bit_vector);
        assert(x < 1024 ==> x >> 2usize < 256) by (bit_vector);
        x >> gr_count
    };
    let ghost p1 = bs.position as int;
    let mut part_23_sum: i32 = 0;
    let mut i: usize = 0;
    while i < gr_count
        invariant
            bs.data@ == data,
            old(bs).data@ == data,
            p0 == old(bs).position as int,
            gr0 == old(gr)@,
            p1 == (if mpeg1 { p0 + 16 + gr_count } else { p0 + 8 + gr_count }),
            main_data_begin as int == (if mpeg1 {
                read_value(data, p0, 9)
            } else {
                ((read_value(data, p0, 8 + gr_count) as u32) >> (gr_count as u32)) as int
            }),
            main_data_begin <= 511,
            hdr@.len() >= 4,
            gr@.len() == gr0.len(),
            gr_count == granule_count(hdr@),
            gr_count <= gr@.len(),
            i <= gr_count,
            mono == (channel_mode(hdr@[3]) == 3u8),
            mpeg1 == mpeg1_bit(hdr@[1]),
            sr_idx == sfb_table_index(hdr@),
            bs.position <= p1 + 64 * i,
            p1 <= p0 + 20,
            p0 + 0x8000 <= i32::MAX,
            bs.spec_limit() + 0x1000 <= i32::MAX,
            0 <= part_23_sum <= 4095 * i,
            scfsi < scfsi_bound(mono, i as int),
            side_info_granules(data, p1, gr0, 0, gr_count as int, mpeg1, mono, sr_idx, if mpeg1 { read_value(data, p0 + 9, 7 + gr_count) as u32 } else { 0u32 }, 0)
                == side_info_granules(data, bs.position as int, gr@, i as int, gr_count as int, mpeg1, mono, sr_idx, scfsi, part_23_sum as int),
        decreases gr_count - i,
    {
        let (g, s, ok) = read_granule(bs, gr[i], mpeg1, mono, sr_idx, scfsi);
        gr[i] = g;
        part_23_sum += g.part_23_length as i32;
        if !ok {
            return -1;
        }
        scfsi = s;
        i += 1;
    }
    if part_23_sum + bs.position as i32 > bs.limit() as i32 + main_data_begin as i32 * 8 {
        -1
    } else {
        main_data_begin as i32
    }
}

/// The main data of a frame: the last `main_data_begin` bytes of the
/// reservoir (as many as it holds), then the bytes of the frame from the
/// reader's byte on.
pub open spec fn main_data(state: StreamState, frame: Seq<u8>, position: int, main_data_begin: int) -> Seq<u8> {
    let have = if state.reserv > main_data_begin { main_data_begin } else { state.reserv as int };
    let start = if state.reserv - main_data_begin > 0 { state.reserv - main_data_begin } else { 0 };
    let frame_bytes = (frame.len() * 8 - position) / 8;
    state.reserv_buf@.subrange(start, start + have) + frame.subrange(position / 8, position / 8 + frame_bytes)
}

/// The size of the buffer for a frame's main data: a full reservoir and
/// the largest frame body.
pub const MAX_MAIN_DATA_BYTES: usize = 2815;

/// Gathers the main data of a frame from the reservoir and the rest of the
/// frame into the start of `maindata`, and gives its length; tells whether
/// the reservoir held all the bytes that the frame asks for. The rest of
/// `maindata` is left as it was.
pub fn restore_reservoir(
    state: &StreamState,
    bs: &Bits,
    main_data_begin: i32,
    maindata: &mut [u8; 2815],
) -> (r: (usize, bool))
    requires
        0 <= state.reserv <= 511,
        0 <= main_data_begin,
        bs.position <= bs.spec_limit(),
        main_data(*state, bs.data@, bs.position as int, main_data_begin as int).len() <= MAX_MAIN_DATA_BYTES,
    ensures
        r.0 == main_data(*state, bs.data@, bs.position as int, main_data_begin as int).len(),
        final(maindata)@.subrange(0, r.0 as int) == main_data(*state, bs.data@, bs.position as int, main_data_begin as int),
        final(maindata)@.subrange(r.0 as int, 2815) == old(maindata)@.subrange(r.0 as int, 2815),
        r.1 == (state.reserv >= main_data_begin),
{
    let ghost target = main_data(*state, bs.data@, bs.position as int, main_data_begin as int);
    let ghost old_buf = maindata@;
    let bytes_have = if state.reserv > main_data_begin { main_data_begin } else { state.reserv } as usize;
    let start = if state.reserv - main_data_begin > 0 { state.reserv - main_data_begin } else { 0 } as usize;
    let bs_bytes = bs.position / 8;
    let partial: usize = if bs.position % 8 != 0 { 1 } else { 0 };
    assert(bs_bytes + partial <= bs.data@.len() && bs.data@.len() - bs_bytes - partial == (bs.data@.len() * 8
        - bs.position) / 8) by (nonlinear_arith)
        requires
            bs_bytes == bs.position / 8,
            partial == (if bs.position % 8 != 0 { 1int } else { 0int }),
            bs.position <= bs.data@.len() * 8;
    let data_len = bs.data.len();
    let frame_bytes = data_len - bs_bytes - partial;
    let total = bytes_have + frame_bytes;
    assert(target.len() == total);
    let mut k: usize = 0;
    while k < total
        invariant
            k <= total <= 2815,
            total == bytes_have + frame_bytes,
            start + bytes_have <= 511,
            bs_bytes + frame_bytes <= data_len,
            data_len == bs.data@.len(),
            target == state.reserv_buf@.subrange(start as int, start + bytes_have) + bs.data@.subrange(
                bs_bytes as int,
                bs_bytes + frame_bytes,
            ),
            forall|j: int| 0 <= j < k ==> #[trigger] maindata@[j] == target[j],
            forall|j: int| k <= j < 2815 ==> #[trigger] maindata@[j] == old_buf[j],
        decreases total - k,
    {
        let v = if k < bytes_have { state.reserv_buf[start + k] } else { bs.data[bs_bytes + (k - bytes_have)] };
        maindata[k] = v;
        k += 1;
    }
    assert(maindata@.subrange(0, total as int) =~= target);
    assert(maindata@.subrange(total as int, 2815) =~= old_buf.subrange(total as int, 2815));
    (total, state.reserv >= main_data_begin)
}

/// The reservoir after a frame whose main data is `main_data`, read up to
/// bit `position`: the bytes from the first whole byte not read on, at most
/// the last `MAX_BITRESERVOIR_BYTES` of them.
pub open spec fn reservoir_after(main_data: Seq<u8>, position: int) -> Seq<u8> {
    let pos = (position + 7) / 8;
    let remains = main_data.len() - pos;
    if remains > 511 {
        main_data.subrange(main_data.len() - 511, main_data.len() as int)
    } else {
        main_data.subrange(pos, main_data.len() as int)
    }
}

/// Keeps the unread end of a frame's main data in the reservoir for the
/// frames that follow.
pub fn save_reservoir(state: &mut StreamState, main_data: &[u8], position: usize)
    requires
        position <= main_data@.len() * 8,
        main_data@.len() * 8 + 7 <= usize::MAX,
    ensures
        final(state).reserv == reservoir_after(main_data@, position as int).len(),
        final(state).reserv_buf@.subrange(0, final(state).reserv as int) == reservoir_after(main_data@, position as int),
        final(state).reserv_buf@.subrange(final(state).reserv as int, 511) == old(state).reserv_buf@.subrange(final(state).reserv as int, 511),
        final(state).free_format_bytes == old(state).free_format_bytes,
        final(state).header == old(state).header,
        final(state).wf() <== old(state).wf(),
{
    let len = main_data.len();
    let mut pos = (position + 7) / 8;
    let mut remains = len - pos;
    if remains > 511 {
        pos += remains - 511;
        remains = 511;
    }
    let mut k: usize = 0;
    while k < remains
        invariant
            k <= remains <= 511,
            pos + remains == len,
            len == main_data@.len(),
            state.free_format_bytes == old(state).free_format_bytes,
            state.header == old(state).header,
            state.reserv == old(state).reserv,
            state.reserv_buf@.subrange(0, k as int) == main_data@.subrange(pos as int, pos + k),
            state.reserv_buf@.subrange(k as int, 511) == old(state).reserv_buf@.subrange(k as int, 511),
        decreases remains - k,
    {
        let ghost before = state.reserv_buf@;
        state.reserv_buf[k] = main_data[pos + k];
        assert(state.reserv_buf@ == before.update(k as int, main_data@[pos + k]));
        assert(state.reserv_buf@.subrange(0, k + 1) =~= main_data@.subrange(pos as int, pos + k + 1));
        assert forall|j: int| k + 1 <= j < 511 implies state.reserv_buf@[j] == old(state).reserv_buf@[j] by {
            assert(before.subrange(k as int, 511)[j - k] == old(state).reserv_buf@.subrange(k as int, 511)[j - k]);
        }
        assert(state.reserv_buf@.subrange(k + 1, 511) =~= old(state).reserv_buf@.subrange(k + 1, 511));
        k += 1;
    }
    state.reserv = remains as i32;
}

/// The scale factors of one band group as `read_scalefactors` leaves them:
/// bands `off..off + cnt` of `scf` and `ist`, with `scf` elsewhere as it
/// was. The result is (scf, ist, position after the group).
pub open spec fn scf_group(
    data: Seq<u8>,
    pos: int,
    scf: Seq<u8>,
    ist: Seq<u8>,
    bits: int,
    cnt: int,
    off: int,
    copy: bool,
    intensity: bool,
) -> (Seq<u8>, Seq<u8>, int) {
    let in_group = |j: int| off <= j < off + cnt;
    if copy {
        (Seq::new(scf.len(), |j: int| if in_group(j) { ist[j] } else { scf[j] }), ist, pos)
    } else if bits == 0 {
        (
            Seq::new(scf.len(), |j: int| if in_group(j) { 0u8 } else { scf[j] }),
            Seq::new(ist.len(), |j: int| if in_group(j) { 0u8 } else { ist[j] }),
            pos,
        )
    } else {
        let value = |j: int| read_value(data, pos + (j - off) * bits, bits);
        (
            Seq::new(scf.len(), |j: int| if in_group(j) { value(j) as u8 } else { scf[j] }),
            Seq::new(
                ist.len(),
                |j: int|
                    if in_group(j) {
                        if intensity && value(j) == vstd::arithmetic::power2::pow2(bits as nat) - 1 {
                            255u8
                        } else {
                            value(j) as u8
                        }
                    } else {
                        ist[j]
                    },
            ),
            pos + cnt * bits,
        )
    }
}

/// The scale factors of band groups `i..4`, `size[i]` bits each, for
/// `count[i]` bands each, from bit `pos` and band `off`: a group stops the
/// reading where its count is 0. A group whose selection bit (bit 3 of
/// `scfsi`, which moves up one bit per group) is set takes the scale
/// factors kept in `ist`; a group of 0 bits is all zero; otherwise each
/// factor is read, and kept in `ist` too, except that in intensity stereo
/// (`scfsi` negative) the largest value marks an illegal position (255)
/// there. Three zero factors follow the last group. The result is (scf,
/// ist, position after).
pub open spec fn scf_read(
    data: Seq<u8>,
    pos: int,
    scf: Seq<u8>,
    ist: Seq<u8>,
    size: Seq<u8>,
    count: Seq<u8>,
    i: int,
    off: int,
    scfsi: i32,
) -> (Seq<u8>, Seq<u8>, int)
    decreases 4 - i,
{
    if i >= 4 || count[i] == 0 {
        (scf.update(off, 0).update(off + 1, 0).update(off + 2, 0), ist, pos)
    } else {
        let g = scf_group(data, pos, scf, ist, size[i] as int, count[i] as int, off, scfsi & 8i32 != 0, scfsi < 0);
        scf_read(data, g.2, g.0, g.1, size, count, i + 1, off + count[i], (scfsi * 2) as i32)
    }
}

/// The total of the counts of the groups that `scf_read` reads from `i` on.
pub open spec fn scf_total(count: Seq<u8>, i: int) -> nat
    decreases 4 - i,
{
    if i >= 4 || count[i] == 0 {
        0
    } else {
        (count[i] as nat + scf_total(count, i + 1)) as nat
    }
}

/// Whether bit `3 - i` of the MPEG 1 selection bits is set: band group `i`
/// then reuses the first granule's scale factors.
pub open spec fn scfsi_selects(scfsi: u8, i: int) -> bool {
    (scfsi >> ((3 - i) as u8)) & 1u8 == 1u8
}

/// The first band of group `i`: the counts of the groups before it.
pub open spec fn group_start(count: Seq<u8>, i: int) -> int {
    if i <= 0 {
        0
    } else if i == 1 {
        count[0] as int
    } else if i == 2 {
        count[0] + count[1]
    } else if i == 3 {
        count[0] + count[1] + count[2]
    } else {
        count[0] + count[1] + count[2] + count[3]
    }
}

/// The bits that group `k` takes from the stream: none where it reuses the
/// first granule's factors, else `size[k]` per band.
pub open spec fn group_read_bits(size: Seq<u8>, count: Seq<u8>, scfsi: u8, k: int) -> int {
    if scfsi_selects(scfsi, k) { 0 } else { count[k] * size[k] }
}

/// The bits that the groups before group `i` take from the stream.
pub open spec fn bits_before_group(size: Seq<u8>, count: Seq<u8>, scfsi: u8, i: int) -> int {
    (if i > 0 { group_read_bits(size, count, scfsi, 0) } else { 0 })
        + (if i > 1 { group_read_bits(size, count, scfsi, 1) } else { 0 })
        + (if i > 2 { group_read_bits(size, count, scfsi, 2) } else { 0 })
        + (if i > 3 { group_read_bits(size, count, scfsi, 3) } else { 0 })
}

/// What one band group does: the bands outside it keep their values, and
/// within it the factors are copied, zero, or read `bits` bits each.
proof fn lemma_scf_group_effect(
    data: Seq<u8>,
    pos: int,
    scf: Seq<u8>,
    ist: Seq<u8>,
    bits: int,
    cnt: int,
    off: int,
    copy: bool,
    intensity: bool,
)
    requires
        0 <= off,
        0 <= bits,
        0 < cnt,
        off + cnt <= scf.len(),
        off + cnt <= ist.len(),
    ensures
        ({
            let g = scf_group(data, pos, scf, ist, bits, cnt, off, copy, intensity);
            &&& g.0.len() == scf.len()
            &&& g.1.len() == ist.len()
            &&& forall|j: int| 0 <= j < scf.len() && !(off <= j < off + cnt) ==> g.0[j] == scf[j]
            &&& forall|j: int| 0 <= j < ist.len() && !(off <= j < off + cnt) ==> g.1[j] == ist[j]
            &&& forall|j: int| off <= j < off + cnt ==> {
                &&& copy ==> g.0[j] == ist[j]
                &&& !copy && bits == 0 ==> g.0[j] == 0u8
                &&& !copy && bits > 0 ==> g.0[j] == read_value(data, pos + (j - off) * bits, bits) as u8
            }
            &&& g.2 == if copy || bits == 0 { pos } else { pos + cnt * bits }
        }),
{
}

/// In MPEG 1, the four band groups of a granule's scale factors: a group
/// whose selection bit (bit `3 - i` of `scfsi` for group `i`) is set takes
/// the factors kept in `ist` and reads nothing; any other group reads
/// `size[i]` bits per band (all zero for 0 bits), one band after the other
/// from where the groups before it stopped. The reader ends past all the
/// bits read.
pub proof fn lemma_scf_read_selection(
    data: Seq<u8>,
    pos: int,
    scf: Seq<u8>,
    ist: Seq<u8>,
    size: Seq<u8>,
    count: Seq<u8>,
    scfsi: u8,
)
    requires
        scfsi <= 15,
        size.len() >= 4,
        count.len() >= 4,
        forall|k: int| 0 <= k < 4 ==> count[k] > 0,
        scf.len() == 40,
        group_start(count, 4) + 3 <= 40,
        group_start(count, 4) <= ist.len(),
    ensures
        ({
            let r = scf_read(data, pos, scf, ist, size, count, 0, 0, scfsi as i32);
            &&& r.2 == pos + bits_before_group(size, count, scfsi, 4)
            &&& forall|i: int, j: int|
                #![trigger r.0[j], group_start(count, i)]
                0 <= i < 4 && group_start(count, i) <= j < group_start(count, i + 1) ==> {
                &&& scfsi_selects(scfsi, i) ==> r.0[j] == ist[j]
                &&& !scfsi_selects(scfsi, i) && size[i] == 0 ==> r.0[j] == 0u8
                &&& !scfsi_selects(scfsi, i) && size[i] > 0 ==> r.0[j] == read_value(
                    data,
                    pos + bits_before_group(size, count, scfsi, i) + (j - group_start(count, i)) * size[i],
                    size[i] as int,
                ) as u8
            }
        }),
{
    let s0 = scfsi as i32;
    let s1 = (s0 * 2) as i32;
    let s2 = (s1 * 2) as i32;
    let s3 = (s2 * 2) as i32;
    let s4 = (s3 * 2) as i32;
    assert(s0 & 8i32 != 0 <==> (scfsi >> 3u8) & 1u8 == 1u8) by (bit_vector)
        requires
            scfsi <= 15u8,
            s0 == scfsi as i32;
    assert(s1 & 8i32 != 0 <==> (scfsi >> 2u8) & 1u8 == 1u8) by (bit_vector)
        requires
            scfsi <= 15u8,
            s1 == ((scfsi as i32) * 2) as i32;
    assert(s2 & 8i32 != 0 <==> (scfsi >> 1u8) & 1u8 == 1u8) by (bit_vector)
        requires
            scfsi <= 15u8,
            s2 == ((scfsi as i32) * 4) as i32;
    assert(s3 & 8i32 != 0 <==> (scfsi >> 0u8) & 1u8 == 1u8) by (bit_vector)
        requires
            scfsi <= 15u8,
            s3 == ((scfsi as i32) * 8) as i32;
    assert(s0 >= 0 && s1 >= 0 && s2 >= 0 && s3 >= 0);
    assert(scfsi_selects(scfsi, 0) == (s0 & 8i32 != 0));
    assert(scfsi_selects(scfsi, 1) == (s1 & 8i32 != 0));
    assert(scfsi_selects(scfsi, 2) == (s2 & 8i32 != 0));
    assert(scfsi_selects(scfsi, 3) == (s3 & 8i32 != 0));
    let o1 = group_start(count, 1);
    let o2 = group_start(count, 2);
    let o3 = group_start(count, 3);
    let o4 = group_start(count, 4);
    let g0 = scf_group(data, pos, scf, ist, size[0] as int, count[0] as int, 0, s0 & 8i32 != 0, s0 < 0);
    lemma_scf_group_effect(data, pos, scf, ist, size[0] as int, count[0] as int, 0, s0 & 8i32 != 0, s0 < 0);
    let g1 = scf_group(data, g0.2, g0.0, g0.1, size[1] as int, count[1] as int, o1, s1 & 8i32 != 0, s1 < 0);
    lemma_scf_group_effect(data, g0.2, g0.0, g0.1, size[1] as int, count[1] as int, o1, s1 & 8i32 != 0, s1 < 0);
    let g2 = scf_group(data, g1.2, g1.0, g1.1, size[2] as int, count[2] as int, o2, s2 & 8i32 != 0, s2 < 0);
    lemma_scf_group_effect(data, g1.2, g1.0, g1.1, size[2] as int, count[2] as int, o2, s2 & 8i32 != 0, s2 < 0);
    let g3 = scf_group(data, g2.2, g2.0, g2.1, size[3] as int, count[3] as int, o3, s3 & 8i32 != 0, s3 < 0);
    lemma_scf_group_effect(data, g2.2, g2.0, g2.1, size[3] as int, count[3] as int, o3, s3 & 8i32 != 0, s3 < 0);
    let fin = g3.0.update(o4, 0).update(o4 + 1, 0).update(o4 + 2, 0);
    assert(scf_read(data, g3.2, g3.0, g3.1, size, count, 4, o4, s4) == (fin, g3.1, g3.2));
    assert(scf_read(data, g2.2, g2.0, g2.1, size, count, 3, o3, s3) == scf_read(data, g3.2, g3.0, g3.1, size, count, 4, o4, s4));
    assert(scf_read(data, g1.2, g1.0, g1.1, size, count, 2, o2, s2) == scf_read(data, g2.2, g2.0, g2.1, size, count, 3, o3, s3));
    assert(scf_read(data, g0.2, g0.0, g0.1, size, count, 1, o1, s1) == scf_read(data, g1.2, g1.0, g1.1, size, count, 2, o2, s2));
    assert(scf_read(data, pos, scf, ist, size, count, 0, 0, s0) == scf_read(data, g0.2, g0.0, g0.1, size, count, 1, o1, s1));
    assert(g3.2 == pos + bits_before_group(size, count, scfsi, 4));
    assert forall|i: int, j: int| 0 <= i < 4 && group_start(count, i) <= j < group_start(count, i + 1) implies {
        &&& scfsi_selects(scfsi, i) ==> fin[j] == ist[j]
        &&& !scfsi_selects(scfsi, i) && size[i] == 0 ==> fin[j] == 0u8
        &&& !scfsi_selects(scfsi, i) && size[i] > 0 ==> fin[j] == read_value(
            data,
            pos + bits_before_group(size, count, scfsi, i) + (j - group_start(count, i)) * size[i],
            size[i] as int,
        ) as u8
    } by {
        assert(fin[j] == g3.0[j]);
        if i == 0 {
            assert(g3.0[j] == g0.0[j]);
        } else if i == 1 {
            assert(g3.0[j] == g1.0[j]);
            assert(g0.1[j] == ist[j]);
        } else if i == 2 {
            assert(g3.0[j] == g2.0[j]);
            assert(g1.1[j] == ist[j]);
        } else {
            assert(g2.1[j] == ist[j]);
        }
    }
}

fn read_scf_group(
    scf: &mut [u8; 40],
    ist_pos: &mut [u8],
    bits: u8,
    cnt: usize,
    off: usize,
    bs: &mut Bits,
    copy: bool,
    intensity: bool,
)
    requires
        off + cnt <= 40,
        off + cnt <= old(ist_pos)@.len(),
        bits <= 30,
        old(bs).position + cnt * 31 <= usize::MAX,
        old(bs).data@.len() * 8 <= usize::MAX,
    ensures
        ({
            let g = scf_group(old(bs).data@, old(bs).position as int, old(scf)@, old(ist_pos)@, bits as int, cnt as int, off as int, copy, intensity);
            &&& final(scf)@ == g.0
            &&& final(ist_pos)@ == g.1
            &&& final(bs).position == g.2
        }),
        final(bs).data@ == old(bs).data@,
        final(bs).position <= old(bs).position + cnt * 31,
{
    let ghost scf0 = scf@;
    let ghost ist0 = ist_pos@;
    let ghost p0 = bs.position as int;
    let ghost data = bs.data@;
    let ghost g = scf_group(data, p0, scf0, ist0, bits as int, cnt as int, off as int, copy, intensity);
    if copy {
        let mut k: usize = 0;
        while k < cnt
            invariant
                k <= cnt,
                off + cnt <= 40,
                off + cnt <= ist_pos@.len(),
                ist_pos@ == ist0,
                scf@.len() == 40,
                forall|j: int| 0 <= j < 40 ==> scf@[j] == (if off <= j < off + k { ist0[j] } else { scf0[j] }),
            decreases cnt - k,
        {
            scf[off + k] = ist_pos[off + k];
            k += 1;
        }
        assert(scf@ =~= g.0);
    } else if bits == 0 {
        let mut k: usize = 0;
        while k < cnt
            invariant
                k <= cnt,
                off + cnt <= 40,
                off + cnt <= ist_pos@.len(),
                ist_pos@.len() == ist0.len(),
                scf@.len() == 40,
                forall|j: int| 0 <= j < 40 ==> scf@[j] == (if off <= j < off + k { 0u8 } else { scf0[j] }),
                forall|j: int| 0 <= j < ist0.len() ==> ist_pos@[j] == (if off <= j < off + k { 0u8 } else { ist0[j] }),
            decreases cnt - k,
        {
            scf[off + k] = 0;
            ist_pos[off + k] = 0;
            k += 1;
        }
        assert(scf@ =~= g.0);
        assert(ist_pos@ =~= g.1);
    } else {
        proof {
            vstd::arithmetic::power2::lemma2_to64();
            vstd::bits::lemma_u32_shl_is_mul(1, bits as u32);
            vstd::bits::lemma_u32_pow2_no_overflow(bits as nat);
            if bits < 30 {
                vstd::arithmetic::power2::lemma_pow2_strictly_increases(bits as nat, 30);
            }
        }
        let max_scf: i32 = if intensity { ((1u32 << bits) - 1) as i32 } else { -1 };
        let mut k: usize = 0;
        while k < cnt
            invariant
                k <= cnt,
                1 <= bits <= 30,
                off + cnt <= 40,
                off + cnt <= ist_pos@.len(),
                ist_pos@.len() == ist0.len(),
                scf@.len() == 40,
                bs.data@ == data,
                bs.data@.len() * 8 <= usize::MAX,
                bs.position == p0 + k * bits,
                k * bits <= cnt * 31,
                p0 + cnt * 31 <= usize::MAX,
                max_scf == (if intensity { vstd::arithmetic::power2::pow2(bits as nat) - 1 } else { -1 }),
                forall|j: int| 0 <= j < 40 ==> scf@[j] == (if off <= j < off + k { read_value(data, p0 + (j - off) * bits, bits as int) as u8 } else { scf0[j] }),
                forall|j: int| 0 <= j < ist0.len() ==> ist_pos@[j] == (if off <= j < off + k {
                    if intensity && read_value(data, p0 + (j - off) * bits, bits as int) == vstd::arithmetic::power2::pow2(bits as nat) - 1 {
                        255u8
                    } else {
                        read_value(data, p0 + (j - off) * bits, bits as int) as u8
                    }
                } else { ist0[j] }),
            decreases cnt - k,
        {
            proof {
                vstd::arithmetic::power2::lemma2_to64();
                crate::bits::lemma_bits_value_bound(data, p0 + k * bits, bits as nat);
                vstd::arithmetic::power2::lemma_pow2_strictly_increases(bits as nat, 31);
                assert((k + 1) * bits <= cnt * 31) by (nonlinear_arith)
                    requires k < cnt, bits <= 30;
                assert((k + 1) * bits == k * bits + bits) by (nonlinear_arith);
            }
            let ghost pk = bs.position as int;
            let r = bs.get_bits(bits as u32);
            assert(r == read_value(data, pk, bits as int));
            assert(r < 0x8000_0000u32);
            let s = r as i32;
            assert((-1i32) as u8 == 255u8) by (bit_vector);
            ist_pos[off + k] = (if s == max_scf { -1 } else { s }) as u8;
            scf[off + k] = s as u8;
            assert(pk == p0 + ((off + k) - off) * bits);
            k += 1;
        }
        assert(scf@ =~= g.0);
        assert(ist_pos@ =~= g.1);
    }
}

/// Reads the scale factors of up to four band groups (see `scf_read`).
fn read_scalefactors(
    scf: &mut [u8; 40],
    ist_pos: &mut [u8],
    scf_size: &[u8; 4],
    scf_count: &[u8],
    bs: &mut Bits,
    scfsi: i32,
)
    requires
        scf_count@.len() >= 4,
        scf_total(scf_count@, 0) + 3 <= 40,
        scf_total(scf_count@, 0) <= old(ist_pos)@.len(),
        forall|i: int| 0 <= i < 4 ==> scf_size@[i] <= 30,
        -16 <= scfsi <= 15,
        old(bs).position + 40 * 31 <= usize::MAX,
        old(bs).data@.len() * 8 <= usize::MAX,
    ensures
        ({
            let g = scf_read(old(bs).data@, old(bs).position as int, old(scf)@, old(ist_pos)@, scf_size@, scf_count@, 0, 0, scfsi);
            &&& final(scf)@ == g.0
            &&& final(ist_pos)@ == g.1
            &&& final(bs).position == g.2
        }),
        final(bs).data@ == old(bs).data@,
        final(bs).position <= old(bs).position + 40 * 31,
{
    let ghost g0 = scf_read(bs.data@, bs.position as int, scf@, ist_pos@, scf_size@, scf_count@, 0, 0, scfsi);
    let ghost data = bs.data@;
    let ghost p0 = bs.position as int;
    let ghost ist_len = ist_pos@.len();
    let mut off: usize = 0;
    let mut i: usize = 0;
    let mut scfsi = scfsi;
    while i < 4 && scf_count[i] != 0
        invariant
            i <= 4,
            scf_count@.len() >= 4,
            forall|j: int| 0 <= j < 4 ==> scf_size@[j] <= 30,
            off + scf_total(scf_count@, i as int) == scf_total(scf_count@, 0),
            scf_total(scf_count@, 0) + 3 <= 40,
            scf_total(scf_count@, 0) <= ist_len,
            ist_pos@.len() == ist_len,
            -256 <= scfsi <= 255,
            i == 0 ==> -16 <= scfsi <= 15,
            i == 1 ==> -32 <= scfsi <= 30,
            i == 2 ==> -64 <= scfsi <= 60,
            i == 3 ==> -128 <= scfsi <= 120,
            bs.data@ == data,
            bs.data@.len() * 8 <= usize::MAX,
            p0 + 40 * 31 <= usize::MAX,
            bs.position + (scf_total(scf_count@, i as int)) * 31 <= p0 + 40 * 31,
            g0 == scf_read(data, bs.position as int, scf@, ist_pos@, scf_size@, scf_count@, i as int, off as int, scfsi),
        decreases 4 - i,
    {
        let cnt = scf_count[i] as usize;
        read_scf_group(scf, ist_pos, scf_size[i], cnt, off, bs, scfsi & 8 != 0, scfsi < 0);
        off += cnt;
        scfsi *= 2;
        i += 1;
    }
    scf[off] = 0;
    scf[off + 1] = 0;
    scf[off + 2] = 0;
}

/// How MPEG 1 splits `scalefac_compress` into the bit counts of the two
/// halves of the bands: the first count times four plus the second.
pub const G_SCFC_DECODE: [u8; 16] = [0, 1, 2, 3, 12, 5, 6, 7, 9, 10, 11, 13, 14, 15, 18, 19];

/// Band counts of the four scale factor groups: for long, mixed and short
/// blocks, seven rows of four (by the `scalefac_compress` range in MPEG 2).
pub const G_SCF_PARTITIONS: [[u8; 28]; 3] = [
    [6, 5, 5, 5, 6, 5, 5, 5, 6, 5, 7, 3, 11, 10, 0, 0, 7, 7, 7, 0, 6, 6, 6, 3, 8, 8, 5, 0],
    [8, 9, 6, 12, 6, 9, 9, 9, 6, 9, 12, 6, 15, 18, 0, 0, 6, 15, 12, 0, 6, 12, 9, 6, 6, 18, 9, 0],
    [9, 9, 6, 12, 9, 9, 9, 9, 9, 9, 12, 6, 18, 18, 0, 0, 12, 12, 12, 0, 12, 9, 9, 6, 15, 12, 9, 0],
];

/// The radices of the MPEG 2 `scalefac_compress` ranges, four per range;
/// the last three ranges serve the right channel in intensity stereo.
pub const G_MOD: [u8; 24] = [5, 5, 4, 4, 5, 5, 4, 1, 4, 3, 1, 1, 5, 6, 6, 1, 4, 4, 4, 1, 4, 3, 1, 1];

/// The preemphasis added to long bands 11 to 20.
pub const G_PREAMP: [u8; 10] = [1, 1, 1, 1, 2, 2, 3, 3, 3, 2];

/// The product of the radices `i..4` of the MPEG 2 range at `k`.
pub open spec fn suffix_product(k: int, i: int) -> int
    decreases 4 - i,
{
    if i >= 4 {
        1
    } else {
        G_MOD@[k + i] * suffix_product(k, i + 1)
    }
}

/// How many `scalefac_compress` values the MPEG 2 ranges from `k` on cover.
pub open spec fn ranges_total(k: int) -> int
    decreases 24 - k,
{
    if k + 4 > 24 {
        0
    } else {
        suffix_product(k, 0) + ranges_total(k + 4)
    }
}

/// The MPEG 2 range that holds `sfc`, searched from the range at `k` on:
/// (`sfc` less the sizes of the ranges before it, the range's start).
pub open spec fn mpeg2_range(sfc: int, k: int) -> (int, int)
    decreases 24 - k,
{
    if k + 4 > 24 || sfc < suffix_product(k, 0) {
        (sfc, k)
    } else {
        mpeg2_range(sfc - suffix_product(k, 0), k + 4)
    }
}

/// Digit `i` of `rem` in the mixed radix of the range at `k`: a bit count.
pub open spec fn scf_digit(rem: int, k: int, i: int) -> int {
    (rem / suffix_product(k, i + 1)) % (G_MOD@[k + i] as int)
}

pub proof fn lemma_suffix_product_bound(k: int, i: int)
    requires
        0 <= k,
        k + 4 <= 24,
        0 <= i <= 4,
    ensures
        1 <= suffix_product(k, i),
        suffix_product(k, i) <= (if i == 4 { 1int } else if i == 3 { 6 } else if i == 2 { 36 } else if i == 1 { 216 } else { 1296 }),
    decreases 4 - i,
{
    let t = G_MOD;
    assert(forall|j: int| 0 <= j < 24 ==> 1 <= #[trigger] t@[j] <= 6);
    if i < 4 {
        lemma_suffix_product_bound(k, i + 1);
        let g = G_MOD@[k + i] as int;
        let sp = suffix_product(k, i + 1);
        assert(1 <= g <= 6);
        assert(1 <= g * sp) by (nonlinear_arith)
            requires 1 <= g, 1 <= sp;
        assert(g * sp <= 6 * sp) by (nonlinear_arith)
            requires g <= 6, 1 <= sp;
    }
}

/// The bit counts of the four band groups for an MPEG 2 `scalefac_compress`
/// value `sfc` whose ranges start at `k`; also where the band counts of
/// its range stand in a partition row.
fn mpeg2_scf_sizes(sfc: i32, k: usize) -> (r: ([u8; 4], usize))
    requires
        k == 0 || k == 12,
        0 <= sfc < ranges_total(k as int),
    ensures
        ({
            let (rem, kl) = mpeg2_range(sfc as int, k as int);
            &&& r.1 == kl + 4
            &&& r.1 % 4 == 0
            &&& kl + 4 <= 24
            &&& forall|i: int| 0 <= i < 4 ==> r.0@[i] == scf_digit(rem, kl, i)
            &&& forall|i: int| 0 <= i < 4 ==> r.0@[i] < 6
        }),
{
    let t = G_MOD;
    assert(forall|j: int| 0 <= j < 24 ==> 1 <= #[trigger] t@[j] <= 6);
    assert(t@ == G_MOD@);
    let ghost target = mpeg2_range(sfc as int, k as int);
    let mut scf_size: [u8; 4] = [0; 4];
    let mut sfc = sfc;
    let mut k = k;
    let ghost mut last: int = 0;
    let ghost mut rem: int = 0;
    while sfc >= 0
        invariant
            k % 4 == 0,
            k <= 24,
            sfc < ranges_total(k as int),
            sfc >= 0 ==> target == mpeg2_range(sfc as int, k as int),
            sfc < 0 ==> {
                &&& target == (rem, last)
                &&& k == last + 4
                &&& forall|i: int| 0 <= i < 4 ==> scf_size@[i] == scf_digit(rem, last, i)
                &&& forall|i: int| 0 <= i < 4 ==> scf_size@[i] < 6
            },
            forall|j: int| 0 <= j < 24 ==> 1 <= #[trigger] t@[j] <= 6,
            t@ == G_MOD@,
        decreases (if sfc >= 0 { sfc + 1 } else { 0 }),
    {
        assert(k + 4 <= 24);
        proof {
            lemma_suffix_product_bound(k as int, 0);
        }
        let mut modprod: i32 = 1;
        let mut i: usize = 4;
        while i > 0
            invariant
                i <= 4,
                k + 4 <= 24,
                0 <= sfc,
                modprod == suffix_product(k as int, i as int),
                1 <= modprod,
                t@ == G_MOD@,
                forall|j: int| i <= j < 4 ==> scf_size@[j] == scf_digit(sfc as int, k as int, j),
                forall|j: int| i <= j < 4 ==> scf_size@[j] < 6,
                forall|j: int| 0 <= j < 24 ==> 1 <= #[trigger] t@[j] <= 6,
            decreases i,
        {
            i -= 1;
            proof {
                lemma_suffix_product_bound(k as int, i as int);
                lemma_suffix_product_bound(k as int, (i + 1) as int);
            }
            let g = t[k + i] as i32;
            assert(1 <= g <= 6);
            let d = sfc / modprod % g;
            assert(0 <= d < 6) by (nonlinear_arith)
                requires d == (sfc / modprod) % (g as int), 1 <= g <= 6, 0 <= sfc, 1 <= modprod;
            scf_size[i] = d as u8;
            assert(modprod * g <= 1296) by (nonlinear_arith)
                requires modprod == suffix_product(k as int, (i + 1) as int), g == G_MOD@[k + i],
                    suffix_product(k as int, i as int) == G_MOD@[k + i] * suffix_product(k as int, (i + 1) as int),
                    suffix_product(k as int, i as int) <= 1296;
            assert(modprod * g == suffix_product(k as int, i as int)) by (nonlinear_arith)
                requires modprod == suffix_product(k as int, (i + 1) as int), g == G_MOD@[k + i],
                    suffix_product(k as int, i as int) == G_MOD@[k + i] * suffix_product(k as int, (i + 1) as int);
            modprod = modprod * g;
        }
        proof {
            if sfc < modprod {
                rem = sfc as int;
                last = k as int;
            }
        }
        sfc -= modprod;
        k += 4;
    }
    (scf_size, k)
}

/// Which row of `G_SCF_PARTITIONS` a band table takes: long (or none),
/// mixed, short.
pub open spec fn partition_kind(t: Option<SFBTable>) -> int {
    match t {
        Some(SFBTable::Mixed(_, _)) => 1,
        Some(SFBTable::Short(_)) => 2,
        _ => 0,
    }
}

/// The number of scale factor bands of a band table.
pub open spec fn band_count(t: Option<SFBTable>) -> int {
    match t {
        Some(SFBTable::Mixed(_, n)) => 30 + n,
        Some(SFBTable::Short(_)) => 39,
        _ => 22,
    }
}

/// What the scale factor decoding needs of a granule's side information,
/// as `read_side_info` leaves it.
pub open spec fn granule_ok(g: GrInfo, mpeg1: bool) -> bool {
    &&& (if mpeg1 { g.scalefac_compress < 16 && g.scfsi <= 15 } else { g.scalefac_compress < 512 })
    &&& g.scalefac_scale <= 1
    &&& g.subblock_gain[0] <= 7 && g.subblock_gain[1] <= 7 && g.subblock_gain[2] <= 7
    &&& (g.sfb_table matches Some(SFBTable::Mixed(_, n)) ==> n <= 10)
}

/// Whether the right channel's scale factors code intensity positions:
/// MPEG 2 intensity stereo, second channel.
pub open spec fn intensity_channel(hdr: Seq<u8>, ch: int) -> bool {
    mode_extension(hdr[3]) & 1u8 == 1u8 && ch != 0
}

/// How the scale factors of a granule are laid out: the bit counts of the
/// four band groups, where their band counts start in the partition row,
/// and the selection bits (negative in MPEG 2: none; -16 marks intensity
/// coding). In MPEG 1 `scalefac_compress` picks the counts from
/// `G_SCFC_DECODE`; in MPEG 2 it is a mixed-radix number within one of the
/// ranges of `G_MOD` (halved, and the last three ranges, for the intensity
/// channel).
pub open spec fn scf_layout(hdr: Seq<u8>, g: GrInfo, ch: int) -> (Seq<u8>, int, i32) {
    if mpeg1_bit(hdr[1]) {
        let part = G_SCFC_DECODE@[g.scalefac_compress as int];
        (seq![part >> 2u8, part >> 2u8, part & 3u8, part & 3u8], 0, g.scfsi as i32)
    } else {
        let ist = intensity_channel(hdr, ch);
        let sfc = if ist { g.scalefac_compress as int / 2 } else { g.scalefac_compress as int };
        let (rem, kl) = mpeg2_range(sfc, if ist { 12 } else { 0 });
        (Seq::new(4, |i: int| scf_digit(rem, kl, i) as u8), kl + 4, -16i32)
    }
}

/// What the granule's subblock gains or preemphasis add to band `j`.
pub open spec fn scf_boost(g: GrInfo, j: int) -> int {
    let gain = |w: int| g.subblock_gain[w] * (if g.scalefac_scale == 0 { 4int } else { 2 });
    match g.sfb_table {
        Some(SFBTable::Mixed(_, n)) => if n <= j < n + 30 { gain((j - n) % 3) } else { 0 },
        Some(SFBTable::Short(_)) => if 0 <= j < 39 { gain(j % 3) } else { 0 },
        _ => if g.preflag && 11 <= j < 21 { G_PREAMP@[j - 11] as int } else { 0 },
    }
}

/// The integer part of a granule's scale factors: per band the exponent
/// step count, then how the float factors follow from them. Band `i` has
/// the factor 2 to the power of `(iscf[i] << shift) + gain_exp - MAX_SCFI`
/// over four, in quarter steps.
pub struct ScaleFactorIndices {
    pub iscf: [u8; 40],
    /// How many bands have a factor.
    pub bands: usize,
    /// 1 or 2 (the scale factor scale plus one).
    pub shift: i32,
    pub gain_exp: i32,
}

/// The scale factors of one granule of channel `ch` at bit `p`: read by
/// `scf_read` as `scf_layout` says, with the subblock gains or the
/// preemphasis added. The result is (the per-band values, the intensity
/// positions, the position after).
pub open spec fn decoded_scalefactors(data: Seq<u8>, p: int, hdr: Seq<u8>, ist: Seq<u8>, g: GrInfo, ch: int) -> (Seq<u8>, Seq<u8>, int) {
    let (sizes, k, scfsi) = scf_layout(hdr, g, ch);
    let counts = G_SCF_PARTITIONS@[partition_kind(g.sfb_table)]@.subrange(k, 28);
    let r = scf_read(data, p, Seq::new(40, |j: int| 0u8), ist, sizes, counts, 0, 0, scfsi);
    (Seq::new(40, |j: int| ((r.0[j] + scf_boost(g, j)) % 256) as u8), r.1, r.2)
}

/// In MPEG 1, a granule's scale factor band groups follow its selection
/// bits: group `i` (bands `group_start(counts, i)` on) takes the factors
/// that `ist` keeps from the first granule where bit `3 - i` of `scfsi` is
/// set, and reads nothing for them; otherwise it reads its factors from the
/// stream, `size[i]` bits each. Subblock gains or preemphasis are added
/// either way; the reader ends past exactly the bits read.
pub proof fn lemma_mpeg1_scfsi_reuse(data: Seq<u8>, p: int, hdr: Seq<u8>, ist: Seq<u8>, g: GrInfo, ch: int)
    requires
        hdr.len() >= 4,
        mpeg1_bit(hdr[1]),
        granule_ok(g, true),
        ist.len() >= 36,
    ensures
        ({
            let counts = G_SCF_PARTITIONS@[partition_kind(g.sfb_table)]@.subrange(0, 28);
            let sizes = scf_layout(hdr, g, ch).0;
            let d = decoded_scalefactors(data, p, hdr, ist, g, ch);
            &&& d.2 == p + bits_before_group(sizes, counts, g.scfsi, 4)
            &&& forall|i: int, j: int| 0 <= i < 4 && group_start(counts, i) <= j < group_start(counts, i + 1) ==> {
                &&& scfsi_selects(g.scfsi, i) ==> d.0[j] == ((ist[j] + scf_boost(g, j)) % 256) as u8
                &&& !scfsi_selects(g.scfsi, i) && sizes[i] > 0 ==> d.0[j] == ((read_value(
                    data,
                    p + bits_before_group(sizes, counts, g.scfsi, i) + (j - group_start(counts, i)) * sizes[i],
                    sizes[i] as int,
                ) as u8 + scf_boost(g, j)) % 256) as u8
            }
        }),
{
    let kind = partition_kind(g.sfb_table);
    let counts = G_SCF_PARTITIONS@[kind]@.subrange(0, 28);
    assert(0 <= kind < 3);
    assert(forall|k: int| 0 <= k < 4 ==> counts[k] > 0);
    assert(group_start(counts, 4) <= 36);
    let sizes = scf_layout(hdr, g, ch).0;
    let r = scf_read(data, p, Seq::new(40, |j: int| 0u8), ist, sizes, counts, 0, 0, g.scfsi as i32);
    lemma_scf_read_selection(data, p, Seq::new(40, |j: int| 0u8), ist, sizes, counts, g.scfsi);
    let d = decoded_scalefactors(data, p, hdr, ist, g, ch);
    assert(scf_layout(hdr, g, ch).1 == 0 && scf_layout(hdr, g, ch).2 == g.scfsi as i32);
    assert(d.0 == Seq::new(40, |j: int| ((r.0[j] + scf_boost(g, j)) % 256) as u8));
    assert forall|i: int, j: int| 0 <= i < 4 && group_start(counts, i) <= j < group_start(counts, i + 1)
        && !scfsi_selects(g.scfsi, i) && sizes[i] > 0 implies d.0[j] == ((read_value(
            data,
            p + bits_before_group(sizes, counts, g.scfsi, i) + (j - group_start(counts, i)) * sizes[i],
            sizes[i] as int,
        ) as u8 + scf_boost(g, j)) % 256) as u8 by {
        assert(j < 40);
        assert(r.0[j] == read_value(
            data,
            p + bits_before_group(sizes, counts, g.scfsi, i) + (j - group_start(counts, i)) * sizes[i],
            sizes[i] as int,
        ) as u8);
    }
}

/// Reads the scale factors of one granule of channel `ch`, and of the
/// intensity positions in `ist_pos`.
pub fn decode_scalefactors(hdr: &[u8], ist_pos: &mut [u8], bs: &mut Bits, gr: &GrInfo, ch: i32) -> (r: ScaleFactorIndices)
    requires
        hdr@.len() >= 4,
        granule_ok(*gr, mpeg1_bit(hdr@[1])),
        ({
            let (sizes, k, scfsi) = scf_layout(hdr@, *gr, ch as int);
            scf_total(G_SCF_PARTITIONS@[partition_kind(gr.sfb_table)]@.subrange(k, 28), 0) <= old(ist_pos)@.len()
        }),
        old(bs).position + 40 * 31 <= usize::MAX,
        old(bs).data@.len() * 8 <= usize::MAX,
    ensures
        ({
            let d = decoded_scalefactors(old(bs).data@, old(bs).position as int, hdr@, old(ist_pos)@, *gr, ch as int);
            &&& r.iscf@ == d.0
            &&& final(ist_pos)@ == d.1
            &&& final(bs).position == d.2
        }),
        final(bs).data@ == old(bs).data@,
        r.bands == band_count(gr.sfb_table),
        r.shift == gr.scalefac_scale + 1,
        r.gain_exp == gr.global_gain + BITS_DEQUANTIZER_OUT * 4 - 210 - (if channel_mode(hdr@[3]) == 1u8 && (mode_extension(hdr@[3]) >> 1u8) == 1u8 { 2int } else { 0 }),
{
    let kind: usize = match gr.sfb_table {
        Some(SFBTable::Mixed(_, _)) => 1,
        Some(SFBTable::Short(_)) => 2,
        _ => 0,
    };
    let ghost layout = scf_layout(hdr@, *gr, ch as int);
    let scf_size: [u8; 4];
    let k: usize;
    let scfsi: i32;
    if test_mpeg1(hdr) {
        let part = G_SCFC_DECODE[gr.scalefac_compress as usize];
        assert(part >> 2u8 <= 63u8 && part & 3u8 <= 3u8) by (bit_vector);
        let t = G_SCFC_DECODE;
        assert(forall|i: int| 0 <= i < 16 ==> #[trigger] t@[i] <= 19);
        assert(part <= 19u8 ==> part >> 2u8 <= 4u8) by (bit_vector);
        scf_size = [part >> 2, part >> 2, part & 3, part & 3];
        assert(scf_size@ =~= layout.0);
        k = 0;
        scfsi = gr.scfsi as i32;
    } else {
        let ist = test_1_stereo(hdr) && ch != 0;
        let sc = gr.scalefac_compress as i32;
        assert(0 <= sc ==> sc >> 1i32 == sc / 2 && sc >> 0i32 == sc) by (bit_vector);
        let sfc = sc >> (ist as i32);
        proof {
            reveal_with_fuel(ranges_total, 7);
            reveal_with_fuel(suffix_product, 5);
        }
        proof {
            lemma_ranges_totals();
        }
        let (sizes, kk) = mpeg2_scf_sizes(sfc, if ist { 12 } else { 0 });
        scf_size = sizes;
        assert(scf_size@ =~= layout.0);
        k = kk;
        scfsi = -16;
    }
    let parts = G_SCF_PARTITIONS;
    let row = parts[kind];
    let counts = &row[k..28];
    proof {
        lemma_partition_totals(kind as int, k as int);
    }
    let mut iscf: [u8; 40] = [0; 40];
    assert(iscf@ =~= Seq::new(40, |j: int| 0u8));
    let ghost base = scf_read(bs.data@, bs.position as int, iscf@, ist_pos@, scf_size@, counts@, 0, 0, scfsi);
    read_scalefactors(&mut iscf, ist_pos, &scf_size, counts, bs, scfsi);
    let ghost b = iscf@;
    let sh: u8 = 3 - (gr.scalefac_scale + 1);
    let bands: usize;
    match gr.sfb_table {
        Some(SFBTable::Mixed(_, extra)) => {
            add_subblock_gains(&mut iscf, gr, extra as usize, 10, sh);
            bands = 30 + extra as usize;
        },
        Some(SFBTable::Short(_)) => {
            add_subblock_gains(&mut iscf, gr, 0, 13, sh);
            bands = 39;
        },
        _ => {
            if gr.preflag {
                let pre = G_PREAMP;
                let mut t: usize = 0;
                while t < 10
                    invariant
                        t <= 10,
                        pre@ == G_PREAMP@,
                        gr.preflag,
                        partition_kind(gr.sfb_table) == 0,
                        forall|j: int| 0 <= j < 40 ==> iscf@[j] == (if 11 <= j < 11 + t { ((b[j] + scf_boost(*gr, j)) % 256) as u8 } else { b[j] }),
                    decreases 10 - t,
                {
                    iscf[11 + t] = iscf[11 + t].wrapping_add(pre[t]);
                    t += 1;
                }
            }
            bands = 22;
        },
    }
    assert(iscf@ =~= Seq::new(40, |j: int| ((b[j] + scf_boost(*gr, j)) % 256) as u8));
    let gain_exp = gr.global_gain as i32 + BITS_DEQUANTIZER_OUT * 4 - 210 - if is_ms_stereo(hdr) {
        2
    } else {
        0
    };
    ScaleFactorIndices { iscf, bands, shift: gr.scalefac_scale as i32 + 1, gain_exp }
}

/// Adds the subblock gains (shifted left by `sh`) to `groups` groups of
/// three bands from band `start`.
#[verifier::spinoff_prover]
fn add_subblock_gains(iscf: &mut [u8; 40], gr: &GrInfo, start: usize, groups: usize, sh: u8)
    requires
        start + 3 * groups <= 40,
        gr.scalefac_scale <= 1,
        sh == 2 - gr.scalefac_scale,
        gr.subblock_gain[0] <= 7 && gr.subblock_gain[1] <= 7 && gr.subblock_gain[2] <= 7,
        match gr.sfb_table {
            Some(SFBTable::Mixed(_, n)) => start == n && groups == 10,
            Some(SFBTable::Short(_)) => start == 0 && groups == 13,
            _ => false,
        },
    ensures
        final(iscf)@ =~= Seq::new(40, |j: int| ((old(iscf)@[j] + scf_boost(*gr, j)) % 256) as u8),
{
    let ghost b = iscf@;
    let ghost m: int = if gr.scalefac_scale == 0 { 4 } else { 2 };
    let ghost a0: int = gr.subblock_gain[0] * m;
    let ghost a1: int = gr.subblock_gain[1] * m;
    let ghost a2: int = gr.subblock_gain[2] * m;
    let mut t: usize = 0;
    while t < groups
        invariant
            t <= groups,
            start + 3 * groups <= 40,
            sh == 2 - gr.scalefac_scale,
            gr.scalefac_scale <= 1,
            a0 == gr.subblock_gain[0] * m,
            a1 == gr.subblock_gain[1] * m,
            a2 == gr.subblock_gain[2] * m,
            m == (if gr.scalefac_scale == 0 { 4int } else { 2 }),
            gr.subblock_gain[0] <= 7 && gr.subblock_gain[1] <= 7 && gr.subblock_gain[2] <= 7,
            b.len() == 40,
            forall|u: int| 0 <= u < t ==> {
                &&& #[trigger] iscf@[start + 3 * u] == ((b[start + 3 * u] + a0) % 256) as u8
                &&& iscf@[start + 3 * u + 1] == ((b[start + 3 * u + 1] + a1) % 256) as u8
                &&& iscf@[start + 3 * u + 2] == ((b[start + 3 * u + 2] + a2) % 256) as u8
            },
            forall|j: int| 0 <= j < 40 && !(start <= j < start + 3 * t) ==> #[trigger] iscf@[j] == b[j],
        decreases groups - t,
    {
        let j0 = start + 3 * t;
        let (g0, g1, g2) = (gr.subblock_gain[0], gr.subblock_gain[1], gr.subblock_gain[2]);
        assert(g0 <= 7u8 && sh <= 2u8 ==> g0 << sh == g0 * (if sh == 2u8 { 4u8 } else if sh == 1u8 { 2u8 } else { 1u8 })) by (bit_vector);
        assert(g1 <= 7u8 && sh <= 2u8 ==> g1 << sh == g1 * (if sh == 2u8 { 4u8 } else if sh == 1u8 { 2u8 } else { 1u8 })) by (bit_vector);
        assert(g2 <= 7u8 && sh <= 2u8 ==> g2 << sh == g2 * (if sh == 2u8 { 4u8 } else if sh == 1u8 { 2u8 } else { 1u8 })) by (bit_vector);
        let ghost before = iscf@;
        assert(before[j0 as int] == b[j0 as int] && before[j0 + 1] == b[j0 + 1] && before[j0 + 2] == b[j0 + 2]);
        assert(g0 * (if sh == 2u8 { 4u8 } else if sh == 1u8 { 2u8 } else { 1u8 }) == a0);
        iscf[j0] = iscf[j0].wrapping_add(g0 << sh);
        iscf[j0 + 1] = iscf[j0 + 1].wrapping_add(g1 << sh);
        iscf[j0 + 2] = iscf[j0 + 2].wrapping_add(g2 << sh);
        assert(iscf@[j0 as int] == ((b[j0 as int] + a0) % 256) as u8);
        assert(iscf@[j0 + 1] == ((b[j0 + 1] + a1) % 256) as u8);
        assert(iscf@[j0 + 2] == ((b[j0 + 2] + a2) % 256) as u8);
        assert forall|u: int| 0 <= u < t + 1 implies {
            &&& #[trigger] iscf@[start + 3 * u] == ((b[start + 3 * u] + a0) % 256) as u8
            &&& iscf@[start + 3 * u + 1] == ((b[start + 3 * u + 1] + a1) % 256) as u8
            &&& iscf@[start + 3 * u + 2] == ((b[start + 3 * u + 2] + a2) % 256) as u8
        } by {
            if u < t {
                assert(before[start + 3 * u] == ((b[start + 3 * u] + a0) % 256) as u8);
                assert(iscf@[start + 3 * u] == before[start + 3 * u]);
                assert(iscf@[start + 3 * u + 1] == before[start + 3 * u + 1]);
                assert(iscf@[start + 3 * u + 2] == before[start + 3 * u + 2]);
            }
        }
        t += 1;
    }
    assert forall|j: int| 0 <= j < 40 implies #[trigger] iscf@[j] == ((b[j] + scf_boost(*gr, j)) % 256) as u8 by {
        if start <= j < start + 3 * groups {
            let u = (j - start) / 3;
            let w = (j - start) % 3;
            assert(j == start + 3 * u + w && 0 <= w < 3 && 0 <= u < groups) by (nonlinear_arith)
                requires u == (j - start) / 3, w == (j - start) % 3, start <= j < start + 3 * groups;
            assert(iscf@[start + 3 * u] == ((b[start + 3 * u] + a0) % 256) as u8);
        } else {
            assert(scf_boost(*gr, j) == 0);
        }
    }
}

/// How many `scalefac_compress` values the MPEG 2 ranges cover: 768 from
/// the first on, 256 from the intensity channel's first.
pub proof fn lemma_ranges_totals()
    ensures
        ranges_total(0) == 768,
        ranges_total(12) == 256,
{
    reveal_with_fuel(ranges_total, 7);
    reveal_with_fuel(suffix_product, 5);
    let t = G_MOD;
    assert(t@[0] == 5 && t@[1] == 5 && t@[2] == 4 && t@[3] == 4);
    assert(t@[4] == 5 && t@[5] == 5 && t@[6] == 4 && t@[7] == 1);
    assert(t@[8] == 4 && t@[9] == 3 && t@[10] == 1 && t@[11] == 1);
    assert(t@[12] == 5 && t@[13] == 6 && t@[14] == 6 && t@[15] == 1);
    assert(t@[16] == 4 && t@[17] == 4 && t@[18] == 4 && t@[19] == 1);
    assert(t@[20] == 4 && t@[21] == 3 && t@[22] == 1 && t@[23] == 1);
    assert forall|k: int| 0 <= k <= 20 && k % 4 == 0 implies suffix_product(k, 0) == (t@[k] as int) * (t@[k + 1] as int) * (t@[k + 2] as int) * (t@[k + 3] as int) by {
        assert(suffix_product(k, 3) == t@[k + 3] as int);
        assert(suffix_product(k, 2) == (t@[k + 2] as int) * (t@[k + 3] as int));
        assert(suffix_product(k, 1) == (t@[k + 1] as int) * ((t@[k + 2] as int) * (t@[k + 3] as int)));
        assert((t@[k] as int) * ((t@[k + 1] as int) * ((t@[k + 2] as int) * (t@[k + 3] as int))) == (t@[k] as int) * (t@[k + 1] as int) * (t@[k + 2] as int) * (t@[k + 3] as int)) by (nonlinear_arith);
    }
    assert(suffix_product(0, 0) == 400) by {
        assert(suffix_product(0, 0) == (t@[0] as int) * (t@[1] as int) * (t@[2] as int) * (t@[3] as int));
    }
    assert(suffix_product(4, 0) == 100) by {
        assert(suffix_product(4, 0) == (t@[4] as int) * (t@[5] as int) * (t@[6] as int) * (t@[7] as int));
        assert((t@[4] as int) * (t@[5] as int) * (t@[6] as int) * (t@[7] as int) == 100) by (nonlinear_arith)
            requires t@[4] == 5 && t@[5] == 5 && t@[6] == 4 && t@[7] == 1;
    }
    assert(suffix_product(8, 0) == 12) by {
        assert(suffix_product(8, 0) == (t@[8] as int) * (t@[9] as int) * (t@[10] as int) * (t@[11] as int));
    }
    assert(suffix_product(12, 0) == 180) by {
        assert(suffix_product(12, 0) == (t@[12] as int) * (t@[13] as int) * (t@[14] as int) * (t@[15] as int));
        assert((t@[12] as int) * (t@[13] as int) * (t@[14] as int) * (t@[15] as int) == 180) by (nonlinear_arith)
            requires t@[12] == 5 && t@[13] == 6 && t@[14] == 6 && t@[15] == 1;
    }
    assert(suffix_product(16, 0) == 64) by {
        assert(suffix_product(16, 0) == (t@[16] as int) * (t@[17] as int) * (t@[18] as int) * (t@[19] as int));
        assert((t@[16] as int) * (t@[17] as int) * (t@[18] as int) * (t@[19] as int) == 64) by (nonlinear_arith)
            requires t@[16] == 4 && t@[17] == 4 && t@[18] == 4 && t@[19] == 1;
    }
    assert(suffix_product(20, 0) == 12) by {
        assert(suffix_product(20, 0) == (t@[20] as int) * (t@[21] as int) * (t@[22] as int) * (t@[23] as int));
    }
}

/// The band counts of any four groups that `scf_layout` can pick leave
/// room for the three closing zeros.
pub proof fn lemma_partition_totals(kind: int, k: int)
    requires
        0 <= kind < 3,
        0 <= k <= 24,
        k % 4 == 0,
    ensures
        scf_total(G_SCF_PARTITIONS@[kind]@.subrange(k, 28), 0) <= 36,
{
    reveal_with_fuel(scf_total, 5);
    let p = G_SCF_PARTITIONS;
    let row = p@[kind]@.subrange(k, 28);
    assert(row[0] == p@[kind]@[k] && row[1] == p@[kind]@[k + 1] && row[2] == p@[kind]@[k + 2] && row[3] == p@[kind]@[k + 3]);
}



/// What one frame keeps in the reservoir the next one gets back: where the
/// state holds `kept` (as `save_reservoir` leaves it) and a frame reaches
/// back `main_data_begin` bytes, no more than were kept, its main data is
/// the last `main_data_begin` kept bytes followed by its own.
pub proof fn lemma_reservoir_round_trip(state: StreamState, kept: Seq<u8>, frame: Seq<u8>, position: int, main_data_begin: int)
    requires
        state.wf(),
        state.reserv == kept.len(),
        state.reserv_buf@.subrange(0, state.reserv as int) == kept,
        0 <= main_data_begin <= kept.len(),
        0 <= position <= frame.len() * 8,
    ensures
        main_data(state, frame, position, main_data_begin) == kept.subrange(kept.len() - main_data_begin, kept.len() as int)
            + frame.subrange(position / 8, position / 8 + (frame.len() * 8 - position) / 8),
{
    let start = kept.len() - main_data_begin;
    assert(state.reserv_buf@.subrange(start, start + main_data_begin) =~= kept.subrange(start, kept.len() as int)) by {
        assert forall|j: int| 0 <= j < main_data_begin implies state.reserv_buf@.subrange(start, start + main_data_begin)[j]
            == kept.subrange(start, kept.len() as int)[j] by {
            assert(state.reserv_buf@.subrange(0, state.reserv as int)[start + j] == kept[start + j]);
        }
    }
}


/// A granule read with success meets `granule_ok`, where the subblock gains
/// it kept were in range.
proof fn lemma_granule_side_info_ok(data: Seq<u8>, p: int, g: GrInfo, mpeg1: bool, mono: bool, sr: u8, scfsi_in: u32)
    requires
        g.subblock_gain[0] <= 7 && g.subblock_gain[1] <= 7 && g.subblock_gain[2] <= 7,
    ensures
        ({
            let r = granule_side_info(data, p, g, mpeg1, mono, sr, scfsi_in);
            r.3 ==> granule_ok(r.0, mpeg1) && r.0.subblock_gain[0] <= 7 && r.0.subblock_gain[1] <= 7 && r.0.subblock_gain[2] <= 7
        }),
{
    reveal(granule_side_info);
    reveal(granule_window_info);
    reveal(granule_tail);
    vstd::arithmetic::power2::lemma2_to64();
    let sfc_bits: int = if mpeg1 { 4 } else { 9 };
    lemma_read_value_bound(data, p + 29, sfc_bits as nat);
    let p1 = p + 29 + sfc_bits;
    let scfsi = if mono { scfsi_in << 4u32 } else { scfsi_in };
    let w = p1 + 1;
    lemma_read_value_bound(data, w + 13, 3);
    lemma_read_value_bound(data, w + 16, 3);
    lemma_read_value_bound(data, w + 19, 3);
    lemma_read_value_bound(data, p1 + 23, 1);
    lemma_read_value_bound(data, p1 + 24, 1);
    lemma_read_value_bound(data, w + 22, 1);
    lemma_read_value_bound(data, w + 23, 1);
    assert(forall|s: u32| ((s >> 12u32) & 15u32) <= 15u32) by (bit_vector);
}

/// The granules that `read_side_info` accepts meet what the scale factor
/// decoding needs (`granule_ok`), where the granules it reads into had
/// their subblock gains in range (as fresh ones do).
pub proof fn lemma_accepted_granules_ok(data: Seq<u8>, p: int, grs: Seq<GrInfo>, hdr: Seq<u8>)
    requires
        hdr.len() >= 4,
        grs.len() >= granule_count(hdr),
        forall|i: int| 0 <= i < grs.len() ==> #[trigger] grs[i].subblock_gain[0] <= 7 && grs[i].subblock_gain[1] <= 7
            && grs[i].subblock_gain[2] <= 7,
        side_info(data, p, grs, hdr).0 != -1,
    ensures
        forall|i: int| 0 <= i < granule_count(hdr) ==> granule_ok(#[trigger] side_info(data, p, grs, hdr).1[i], mpeg1_bit(hdr[1])),
{
    let mono = channel_mode(hdr[3]) == 3u8;
    let mpeg1 = mpeg1_bit(hdr[1]);
    let count = granule_count(hdr);
    let scfsi: u32 = if mpeg1 { read_value(data, p + 9, 7 + count) as u32 } else { 0 };
    let p1 = if mpeg1 { p + 16 + count } else { p + 8 + count };
    lemma_side_info_granules_ok(data, p1, grs, 0, count, mpeg1, mono, sfb_table_index(hdr) as u8, scfsi, 0);
}

proof fn lemma_side_info_granules_ok(
    data: Seq<u8>,
    p: int,
    grs: Seq<GrInfo>,
    i: int,
    count: int,
    mpeg1: bool,
    mono: bool,
    sr: u8,
    scfsi: u32,
    sum: int,
)
    requires
        0 <= i <= count <= grs.len(),
        forall|j: int| i <= j < grs.len() ==> #[trigger] grs[j].subblock_gain[0] <= 7 && grs[j].subblock_gain[1] <= 7
            && grs[j].subblock_gain[2] <= 7,
    ensures
        ({
            let r = side_info_granules(data, p, grs, i, count, mpeg1, mono, sr, scfsi, sum);
            &&& r.0.len() == grs.len()
            &&& forall|j: int| 0 <= j < i ==> r.0[j] == grs[j]
            &&& r.3 ==> forall|j: int| i <= j < count ==> granule_ok(#[trigger] r.0[j], mpeg1)
        }),
    decreases count - i,
{
    if i < count {
        let s = granule_side_info(data, p, grs[i], mpeg1, mono, sr, scfsi);
        lemma_granule_side_info_ok(data, p, grs[i], mpeg1, mono, sr, scfsi);
        let grs2 = grs.update(i, s.0);
        if s.3 {
            assert forall|j: int| i + 1 <= j < grs2.len() implies #[trigger] grs2[j].subblock_gain[0] <= 7
                && grs2[j].subblock_gain[1] <= 7 && grs2[j].subblock_gain[2] <= 7 by {
                assert(grs2[j] == grs[j]);
            }
            lemma_side_info_granules_ok(data, s.1, grs2, i + 1, count, mpeg1, mono, sr, s.2, sum + s.0.part_23_length);
            let r = side_info_granules(data, s.1, grs2, i + 1, count, mpeg1, mono, sr, s.2, sum + s.0.part_23_length);
            assert(r.0[i] == grs2[i]);
            if r.3 {
                assert forall|j: int| i <= j < count implies granule_ok(#[trigger] r.0[j], mpeg1) by {
                    if j == i {
                        assert(r.0[i] == s.0);
                    }
                }
            }
            assert forall|j: int| 0 <= j < i implies r.0[j] == grs[j] by {
                assert(r.0[j] == grs2[j]);
            }
        } else {
            assert(side_info_granules(data, p, grs, i, count, mpeg1, mono, sr, scfsi, sum).0 == grs2);
            assert forall|j: int| 0 <= j < i implies grs2[j] == grs[j] by {}
        }
    }
}


/// Reads the side information of a layer III frame (its header first) into
/// `gr` and gathers the frame's main data into `maindata`. Where the side
/// information is refused, or reaches past the frame, the last header is
/// forgotten and there is no main data; otherwise the length of the main
/// data and whether the reservoir held all of it, with the state unchanged.
/// The frame is no longer than the largest free-format frame and its header.
pub fn prepare_main_data(
    state: &mut StreamState,
    frame: &[u8],
    gr: &mut [GrInfo],
    maindata: &mut [u8; 2815],
) -> (r: Option<(usize, bool)>)
    requires
        old(state).wf(),
        4 <= frame@.len() <= MAX_FREE_FORMAT_FRAME_SIZE + 4,
        old(gr)@.len() >= granule_count(frame@),
    ensures
        ({
            let body = frame@.subrange(4, frame@.len() as int);
            let s = side_info(body, body_start(frame@), old(gr)@, frame@);
            &&& final(gr)@ == s.1
            &&& if s.0 == -1 || s.2 > body.len() * 8 {
                &&& r is None
                &&& final(state).header@ == old(state).header@.update(0, 0u8)
                &&& final(state).reserv == old(state).reserv
                &&& final(state).reserv_buf == old(state).reserv_buf
                &&& final(state).free_format_bytes == old(state).free_format_bytes
                &&& *final(maindata) == *old(maindata)
            } else {
                let md = main_data(*old(state), body, s.2, s.0);
                &&& r matches Some((n, complete)) && n == md.len() && complete == (old(state).reserv >= s.0)
                &&& final(maindata)@.subrange(0, md.len() as int) == md
                &&& final(maindata)@.subrange(md.len() as int, 2815) == old(maindata)@.subrange(md.len() as int, 2815)
                &&& *final(state) == *old(state)
            }
        }),
        final(state).wf(),
{
    let mut bs = frame_bits(frame);
    let main_data_begin = read_side_info(&mut bs, gr, frame);
    if main_data_begin < 0 || bs.position > bs.limit() {
        state.reset();
        return None;
    }
    Some(restore_reservoir(state, &bs, main_data_begin, maindata))
}


/// How a granule's blocks and band table agree, as the side information
/// leaves them with band table index `sr`: short blocks (type 2) take the
/// short table (with region count 8) or, mixed, the mixed table with 8 long
/// bands in MPEG 1 and 6 otherwise; other block types take the long table;
/// block type 0 is never mixed; and in MPEG 2 the preemphasis is on exactly
/// when `scalefac_compress` is at least 500.
pub open spec fn granule_blocks(g: GrInfo, sr: u8, mpeg1: bool) -> bool {
    &&& if g.block_type == 2 {
        if g.mixed_block {
            g.sfb_table == Some(SFBTable::Mixed(sr, if mpeg1 { 8u8 } else { 6u8 }))
        } else {
            g.sfb_table == Some(SFBTable::Short(sr)) && g.region_count[0] == 8
        }
    } else {
        g.sfb_table == Some(SFBTable::Long(sr))
    }
    &&& g.block_type == 0 ==> !g.mixed_block
    &&& !mpeg1 ==> g.preflag == (g.scalefac_compress >= 500)
}

/// A granule read with success meets `huffman_ready` where the band table
/// index is in range.
proof fn lemma_granule_side_info_ready(data: Seq<u8>, p: int, g: GrInfo, mpeg1: bool, mono: bool, sr: u8, scfsi_in: u32)
    requires
        sr < 8,
    ensures
        ({
            let r = granule_side_info(data, p, g, mpeg1, mono, sr, scfsi_in);
            r.3 ==> huffman_ready(r.0) && granule_blocks(r.0, sr, mpeg1)
        }),
{
    reveal(granule_side_info);
    reveal(granule_window_info);
    reveal(granule_tail);
    vstd::arithmetic::power2::lemma2_to64();
    let sfc_bits: int = if mpeg1 { 4 } else { 9 };
    let p1 = p + 29 + sfc_bits;
    lemma_read_value_bound(data, p1 + 1, 15);
    lemma_read_value_bound(data, p1 + 4, 10);
    assert(forall|x: u32|
        x < 0x8000 ==> (x >> 10u32) < 32 && ((x >> 5u32) & 31u32) < 32 && (x & 31u32) < 32 && (x < 0x400 ==> (x << 5u32)
            < 0x8000)) by (bit_vector);
}

proof fn lemma_side_info_granules_ready(
    data: Seq<u8>,
    p: int,
    grs: Seq<GrInfo>,
    i: int,
    count: int,
    mpeg1: bool,
    mono: bool,
    sr: u8,
    scfsi: u32,
    sum: int,
)
    requires
        0 <= i <= count <= grs.len(),
        sr < 8,
    ensures
        ({
            let r = side_info_granules(data, p, grs, i, count, mpeg1, mono, sr, scfsi, sum);
            &&& r.0.len() == grs.len()
            &&& forall|j: int| 0 <= j < i ==> r.0[j] == grs[j]
            &&& r.3 ==> forall|j: int| i <= j < count ==> huffman_ready(#[trigger] r.0[j]) && granule_blocks(r.0[j], sr, mpeg1)
        }),
    decreases count - i,
{
    if i < count {
        let s = granule_side_info(data, p, grs[i], mpeg1, mono, sr, scfsi);
        lemma_granule_side_info_ready(data, p, grs[i], mpeg1, mono, sr, scfsi);
        let grs2 = grs.update(i, s.0);
        if s.3 {
            lemma_side_info_granules_ready(data, s.1, grs2, i + 1, count, mpeg1, mono, sr, s.2, sum + s.0.part_23_length);
            let r = side_info_granules(data, s.1, grs2, i + 1, count, mpeg1, mono, sr, s.2, sum + s.0.part_23_length);
            assert(r.0[i] == grs2[i]);
            if r.3 {
                assert forall|j: int| i <= j < count implies huffman_ready(#[trigger] r.0[j]) && granule_blocks(r.0[j], sr, mpeg1) by {
                    if j == i {
                        assert(r.0[i] == s.0);
                    }
                }
            }
            assert forall|j: int| 0 <= j < i implies r.0[j] == grs[j] by {
                assert(r.0[j] == grs2[j]);
            }
        } else {
            assert forall|j: int| 0 <= j < i implies grs2[j] == grs[j] by {}
        }
    }
}

/// The granules that `read_side_info` accepts for a valid header have big
/// values that the Huffman decoding decodes in full (`huffman_ready`), and
/// blocks and band tables that agree (`granule_blocks`), whatever the
/// granules it read into held.
pub proof fn lemma_accepted_granules_decode(data: Seq<u8>, p: int, grs: Seq<GrInfo>, hdr: Seq<u8>)
    requires
        hdr.len() >= 4,
        valid_header(hdr),
        grs.len() >= granule_count(hdr),
        side_info(data, p, grs, hdr).0 != -1,
    ensures
        forall|i: int| 0 <= i < granule_count(hdr) ==> huffman_ready(#[trigger] side_info(data, p, grs, hdr).1[i])
            && granule_blocks(side_info(data, p, grs, hdr).1[i], sfb_table_index(hdr) as u8, mpeg1_bit(hdr[1])),
{
    let mono = channel_mode(hdr[3]) == 3u8;
    let mpeg1 = mpeg1_bit(hdr[1]);
    let count = granule_count(hdr);
    let scfsi: u32 = if mpeg1 { read_value(data, p + 9, 7 + count) as u32 } else { 0 };
    let p1 = if mpeg1 { p + 16 + count } else { p + 8 + count };
    crate::header::lemma_valid_sample_rate(hdr);
    lemma_side_info_granules_ready(data, p1, grs, 0, count, mpeg1, mono, sfb_table_index(hdr) as u8, scfsi, 0);
}
} // verus!
