//! Layers I and II: bit allocation, scale factor indices and samples.
use vstd::prelude::*;
use crate::bits::{Bits, read_value};
use vstd::arithmetic::power2::pow2;
use crate::header::{
    bitrate_kbps, bitrate_of, channel_mode, get_sample_rate, get_stereo_mode, get_stereo_mode_ext, has_bitrate,
    is_layer_1, layer_field, mode_extension, mpeg1_bit, sample_rate_index, test_mpeg1,
};

verus! {

/// The bit allocation codes: a run of entries per allocation table, looked
/// up by the bits read for a subband. 17, 18 and 19 stand for the grouped
/// quantizations of 3, 5 and 9 levels.
pub const G_BITALLOC_CODE_TAB: [u8; 92] = [
    0, 17, 3, 4, 5, 6, 7, 8, 9, 10, 11, 12, 13, 14, 15, 16,
    0, 17, 18, 3, 19, 4, 5, 6, 7, 8, 9, 10, 11, 12, 13, 16,
    0, 17, 18, 3, 19, 4, 5, 16,
    0, 17, 18, 16,
    0, 17, 18, 19, 4, 5, 6, 7, 8, 9, 10, 11, 12, 13, 14, 15,
    0, 17, 18, 3, 19, 4, 5, 6, 7, 8, 9, 10, 11, 12, 13, 14,
    0, 2, 3, 4, 5, 6, 7, 8, 9, 10, 11, 12, 13, 14, 15, 16,
];

/// A run of subbands that share an allocation: where their codes start in
/// `G_BITALLOC_CODE_TAB`, how many bits pick a code, how many subbands.
#[derive(Copy, Clone)]
pub struct SubbandAlloc {
    pub tab_offset: u8,
    pub code_tab_width: u8,
    pub band_count: u8,
}

pub open spec fn sa(tab_offset: u8, code_tab_width: u8, band_count: u8) -> SubbandAlloc {
    SubbandAlloc { tab_offset, code_tab_width, band_count }
}

/// The allocation runs and the number of subbands of a layer I or II
/// frame: one table for layer I; one for MPEG 2 layer II; for MPEG 1 layer
/// II, by the bitrate per channel (free format counting as 192 kbps), a
/// low-rate table of 8 or 12 subbands (12 at 32 kHz), or the full table of
/// 27 or 30 subbands (30 from 96 kbps on, except at 48 kHz).
pub open spec fn alloc_table(h: Seq<u8>) -> (Seq<SubbandAlloc>, int) {
    if layer_field(h[1]) == 3u8 {
        (seq![sa(76, 4, 32)], 32)
    } else if !mpeg1_bit(h[1]) {
        (seq![sa(60, 4, 4), sa(44, 3, 7), sa(44, 2, 19)], 30)
    } else {
        let sr = sample_rate_index(h[2]);
        let per_channel = if channel_mode(h[3]) != 3u8 { bitrate_of(h) / 2 } else { bitrate_of(h) };
        let kbps = if per_channel == 0 { 192 } else { per_channel };
        if kbps < 56 {
            (seq![sa(44, 4, 2), sa(44, 3, 10)], if sr == 2u8 { 12int } else { 8 })
        } else if kbps >= 96 && sr != 1u8 {
            (seq![sa(0, 4, 3), sa(16, 4, 8), sa(32, 3, 12), sa(40, 2, 7)], 30)
        } else {
            (seq![sa(0, 4, 3), sa(16, 4, 8), sa(32, 3, 12), sa(40, 2, 7)], 27)
        }
    }
}

/// How many subbands carry two channels: none in mono, all in stereo and
/// dual channel, in joint stereo 4, 8, 12 or 16 by the mode extension; at
/// most the number of subbands.
pub open spec fn stereo_band_count(h: Seq<u8>, nbands: int) -> int {
    let mode = channel_mode(h[3]);
    let stereo: int = if mode == 3u8 {
        0
    } else if mode == 1u8 {
        mode_extension(h[3]) * 4 + 4
    } else {
        32
    };
    if stereo > nbands { nbands } else { stereo }
}

/// What the layer I and II decoding reads of a frame before its samples.
pub struct ScaleInfo {
    /// The 6-bit scale factor index of each of the three parts of each
    /// band and channel (band `i`, channel `c`: entries `6 * i + 3 * c` on).
    pub scf: [u8; 192],
    /// The allocation under which each band and channel's scale factors
    /// were read (entry `2 * i + c`); 0 where it has none, whose factors
    /// are zero.
    pub scf_alloc: [u8; 64],
    pub total_bands: u8,
    pub stereo_bands: u8,
    /// The allocation code of each band and channel (entry `2 * i + c`).
    pub bitalloc: [u8; 64],
    /// How many scale factors each band and channel has, and which parts
    /// share one.
    pub scfcod: [u8; 64],
}

/// What `read_scale_info` needs of a header: the bytes it reads, and a
/// bitrate where the allocation table depends on it.
pub open spec fn l12_header(h: Seq<u8>) -> bool {
    &&& h.len() >= 4
    &&& (layer_field(h[1]) != 3u8 && mpeg1_bit(h[1]) ==> has_bitrate(h))
}

/// Sets the number of subbands and of stereo subbands, and gives the
/// allocation runs: the first `r.1` entries of `r.0`.
fn subband_alloc_table(hdr: &[u8], sci: &mut ScaleInfo) -> (r: ([SubbandAlloc; 4], usize))
    requires
        l12_header(hdr@),
    ensures
        r.1 == alloc_table(hdr@).0.len(),
        r.0@.subrange(0, r.1 as int) == alloc_table(hdr@).0,
        final(sci).total_bands == alloc_table(hdr@).1,
        final(sci).stereo_bands == stereo_band_count(hdr@, alloc_table(hdr@).1),
        final(sci).scf == old(sci).scf,
        final(sci).scf_alloc == old(sci).scf_alloc,
        final(sci).bitalloc == old(sci).bitalloc,
        final(sci).scfcod == old(sci).scfcod,
{
    let mode = get_stereo_mode(hdr);
    let stereo_bands: u8 = if mode == 3 {
        0
    } else if mode == 1 {
        let e = get_stereo_mode_ext(hdr);
        assert(e <= 3u8 ==> (e << 2u8) + 4u8 == e * 4 + 4) by (bit_vector);
        (e << 2) + 4
    } else {
        32
    };
    let none = SubbandAlloc { tab_offset: 0, code_tab_width: 0, band_count: 0 };
    let alloc: [SubbandAlloc; 4];
    let runs: usize;
    let nbands: u8;
    if is_layer_1(hdr) {
        alloc = [SubbandAlloc { tab_offset: 76, code_tab_width: 4, band_count: 32 }, none, none, none];
        runs = 1;
        nbands = 32;
    } else if !test_mpeg1(hdr) {
        alloc = [
            SubbandAlloc { tab_offset: 60, code_tab_width: 4, band_count: 4 },
            SubbandAlloc { tab_offset: 44, code_tab_width: 3, band_count: 7 },
            SubbandAlloc { tab_offset: 44, code_tab_width: 2, band_count: 19 },
            none,
        ];
        runs = 3;
        nbands = 30;
    } else {
        let sample_rate_idx = get_sample_rate(hdr);
        let b = bitrate_kbps(hdr);
        let s: u8 = if mode != 3 { 1 } else { 0 };
        assert(0 <= b ==> b >> 1u8 == b / 2 && b >> 0u8 == b) by (bit_vector);
        let mut kbps = b >> s;
        if kbps == 0 {
            kbps = 192;
        }
        if kbps < 56 {
            alloc = [
                SubbandAlloc { tab_offset: 44, code_tab_width: 4, band_count: 2 },
                SubbandAlloc { tab_offset: 44, code_tab_width: 3, band_count: 10 },
                none,
                none,
            ];
            runs = 2;
            nbands = if sample_rate_idx == 2 { 12 } else { 8 };
        } else {
            alloc = [
                SubbandAlloc { tab_offset: 0, code_tab_width: 4, band_count: 3 },
                SubbandAlloc { tab_offset: 16, code_tab_width: 4, band_count: 8 },
                SubbandAlloc { tab_offset: 32, code_tab_width: 3, band_count: 12 },
                SubbandAlloc { tab_offset: 40, code_tab_width: 2, band_count: 7 },
            ];
            runs = 4;
            nbands = if kbps >= 96 && sample_rate_idx != 1 { 30 } else { 27 };
        }
    }
    sci.total_bands = nbands;
    sci.stereo_bands = if stereo_bands > nbands { nbands } else { stereo_bands };
    assert(alloc@.subrange(0, runs as int) =~= alloc_table(hdr@).0);
    (alloc, runs)
}

/// How many subbands the first `e` allocation runs cover.
pub open spec fn alloc_prefix(t: Seq<SubbandAlloc>, e: int) -> int
    decreases e,
{
    if e <= 0 {
        0
    } else {
        alloc_prefix(t, e - 1) + t[e - 1].band_count
    }
}

/// How many subbands a layer I or II frame codes: 32 in layer I; 30 in
/// layer II at the MPEG-2 rates; in MPEG-1 layer II, by the bitrate per
/// channel (free format counting as 192 kbps): 8 below 56 kbps (12 at
/// 32 kHz), 30 from 96 kbps on except at 48 kHz, 27 otherwise.
pub proof fn lemma_subband_count(h: Seq<u8>)
    requires
        h.len() >= 4,
        layer_field(h[1]) == 3u8 || layer_field(h[1]) == 2u8,
    ensures
        ({
            let per_channel = if channel_mode(h[3]) == 3u8 { bitrate_of(h) } else { bitrate_of(h) / 2 };
            let kbps = if bitrate_of(h) == 0 { 192 } else { per_channel };
            let sr = sample_rate_index(h[2]);
            let total = alloc_table(h).1;
            &&& layer_field(h[1]) == 3u8 ==> total == 32
            &&& layer_field(h[1]) == 2u8 && !mpeg1_bit(h[1]) ==> total == 30
            &&& layer_field(h[1]) == 2u8 && mpeg1_bit(h[1]) ==> {
                &&& kbps < 56 ==> total == (if sr == 2u8 { 12int } else { 8 })
                &&& kbps >= 96 && sr != 1u8 ==> total == 30
                &&& 56 <= kbps && (kbps < 96 || sr == 1u8) ==> total == 27
            }
        }),
{
}

/// The allocation runs cover every subband, each run covers one at least,
/// and the codes that a run's bits can pick stand in the code table.
pub open spec fn alloc_runs_ok(t: Seq<SubbandAlloc>, total: int) -> bool {
    &&& alloc_prefix(t, t.len() as int) >= total
    &&& forall|e: int| 0 <= e < t.len() ==> #[trigger] t[e].band_count >= 1
    &&& forall|e: int| 0 <= e < t.len() ==> 1 <= #[trigger] t[e].code_tab_width <= 4
        && t[e].tab_offset + vstd::arithmetic::power2::pow2(t[e].code_tab_width as nat) <= 92
}

pub proof fn lemma_alloc_table_ok(h: Seq<u8>)
    requires
        h.len() >= 4,
    ensures
        alloc_runs_ok(alloc_table(h).0, alloc_table(h).1),
        1 <= alloc_table(h).1 <= 32,
{
    reveal_with_fuel(alloc_prefix, 5);
    vstd::arithmetic::power2::lemma2_to64();
}

/// The allocation codes of subbands `i..total`, read from bit `pos` over
/// `ba`: at the start of each run the code width and table change; a
/// code is read for the left channel, and for the right one below `stereo`
/// subbands, which otherwise takes the left one's code (or none in mono).
/// `k` is where the next run starts, `e` its index. The result is (the
/// codes, the position after).
pub open spec fn alloc_read(
    data: Seq<u8>,
    pos: int,
    t: Seq<SubbandAlloc>,
    i: int,
    total: int,
    stereo: int,
    k: int,
    e: int,
    bits: int,
    off: int,
    ba: Seq<u8>,
) -> (Seq<u8>, int)
    decreases total - i,
{
    if i >= total {
        (ba, pos)
    } else {
        let switch = i == k;
        let k2 = if switch { k + t[e].band_count } else { k };
        let e2 = if switch { e + 1 } else { e };
        let bits2 = if switch { t[e].code_tab_width as int } else { bits };
        let off2 = if switch { t[e].tab_offset as int } else { off };
        let left = G_BITALLOC_CODE_TAB@[off2 + read_value(data, pos, bits2)];
        let right = if i < stereo { G_BITALLOC_CODE_TAB@[off2 + read_value(data, pos + bits2, bits2)] } else { left };
        let pos2 = if i < stereo { pos + 2 * bits2 } else { pos + bits2 };
        let ba2 = ba.update(2 * i, left).update(2 * i + 1, if stereo != 0 { right } else { 0u8 });
        alloc_read(data, pos2, t, i + 1, total, stereo, k2, e2, bits2, off2, ba2)
    }
}

/// The scale factor selection of entries `e..n` from bit `pos`: 6 (none)
/// where the allocation is 0, else 2 (one factor) in layer I, else read
/// from two bits.
pub open spec fn scfcod_read(data: Seq<u8>, pos: int, ba: Seq<u8>, layer1: bool, e: int, n: int, cod: Seq<u8>) -> (Seq<u8>, int)
    decreases n - e,
{
    if e >= n {
        (cod, pos)
    } else if ba[e] == 0 {
        scfcod_read(data, pos, ba, layer1, e + 1, n, cod.update(e, 6u8))
    } else if layer1 {
        scfcod_read(data, pos, ba, layer1, e + 1, n, cod.update(e, 2u8))
    } else {
        scfcod_read(data, pos + 2, ba, layer1, e + 1, n, cod.update(e, read_value(data, pos, 2) as u8))
    }
}

/// Which of the three parts of an entry read a new scale factor, by its
/// selection: bit 2 for the first part, bit 1 the second, bit 0 the
/// third; the others repeat the part before.
pub open spec fn scf_mask(cod: u8) -> u8 {
    (4u8 + ((19u8 >> cod) & 3u8)) as u8
}

/// The scale factor indices of entries `e..n` from bit `pos`: none where
/// the allocation is 0; else three, of which those that `scf_mask` marks
/// are read from six bits each. `alloc` records each entry's allocation.
/// The result is (indices, allocations, position after).
pub open spec fn scf_codes_read(
    data: Seq<u8>,
    pos: int,
    ba: Seq<u8>,
    cod: Seq<u8>,
    e: int,
    n: int,
    scf: Seq<u8>,
    alloc: Seq<u8>,
) -> (Seq<u8>, Seq<u8>, int)
    decreases n - e,
{
    if e >= n {
        (scf, alloc, pos)
    } else {
        let alloc2 = alloc.update(e, ba[e]);
        if ba[e] == 0 {
            let scf2 = scf.update(3 * e, 0u8).update(3 * e + 1, 0u8).update(3 * e + 2, 0u8);
            scf_codes_read(data, pos, ba, cod, e + 1, n, scf2, alloc2)
        } else {
            let mask = scf_mask(cod[e]);
            let b0 = read_value(data, pos, 6) as u8;
            let p1 = pos + 6;
            let b1 = if mask & 2u8 != 0 { read_value(data, p1, 6) as u8 } else { b0 };
            let p2 = if mask & 2u8 != 0 { p1 + 6 } else { p1 };
            let b2 = if mask & 1u8 != 0 { read_value(data, p2, 6) as u8 } else { b1 };
            let p3 = if mask & 1u8 != 0 { p2 + 6 } else { p2 };
            let scf2 = scf.update(3 * e, b0).update(3 * e + 1, b1).update(3 * e + 2, b2);
            scf_codes_read(data, p3, ba, cod, e + 1, n, scf2, alloc2)
        }
    }
}

fn read_bitalloc(bs: &mut Bits, table: &[SubbandAlloc], total: usize, stereo: usize, bitalloc: &mut [u8; 64])
    requires
        1 <= total <= 32,
        stereo <= total,
        alloc_runs_ok(table@, total as int),
        old(bs).position + 256 <= usize::MAX,
        old(bs).data@.len() * 8 <= usize::MAX,
    ensures
        ({
            let r = alloc_read(old(bs).data@, old(bs).position as int, table@, 0, total as int, stereo as int, 0, 0, 0, 0, old(bitalloc)@);
            &&& final(bitalloc)@ == r.0
            &&& final(bs).position == r.1
        }),
        final(bs).data@ == old(bs).data@,
        final(bs).position <= old(bs).position + 8 * total,
        forall|e: int| 0 <= e < 2 * total ==> #[trigger] final(bitalloc)@[e] <= 19,
{
    let ghost data = bs.data@;
    let ghost p0 = bs.position as int;
    let ghost target = alloc_read(data, p0, table@, 0, total as int, stereo as int, 0, 0, 0, 0, bitalloc@);
    let code = G_BITALLOC_CODE_TAB;
    let mut k: usize = 0;
    let mut e: usize = 0;
    let mut ba_bits: u32 = 0;
    let mut off: usize = 0;
    let mut i: usize = 0;
    proof {
        vstd::arithmetic::power2::lemma2_to64();
        lemma_code_tab_bound();
    }
    while i < total
        invariant
            i <= total <= 32,
            forall|j: int| 0 <= j < 2 * i ==> #[trigger] bitalloc@[j] <= 19,
            forall|x: int| 0 <= x < 92 ==> #[trigger] G_BITALLOC_CODE_TAB@[x] <= 19,
            stereo <= total,
            alloc_runs_ok(table@, total as int),
            code@ == G_BITALLOC_CODE_TAB@,
            e <= table@.len(),
            k == alloc_prefix(table@, e as int),
            i <= k,
            i < k ==> e >= 1,
            e >= 1 ==> ba_bits == table@[e - 1].code_tab_width && off == table@[e - 1].tab_offset,
            bs.data@ == data,
            bs.data@.len() * 8 <= usize::MAX,
            p0 + 256 <= usize::MAX,
            bs.position <= p0 + 8 * i,
            target == alloc_read(data, bs.position as int, table@, i as int, total as int, stereo as int, k as int, e as int, ba_bits as int, off as int, bitalloc@),
        decreases total - i,
    {
        if i == k {
            if e >= table.len() {
                assert(false) by {
                    reveal_with_fuel(alloc_prefix, 1);
                }
            }
            let run = table[e];
            proof {
                reveal_with_fuel(alloc_prefix, 2);
            }
            k += run.band_count as usize;
            ba_bits = run.code_tab_width as u32;
            off = run.tab_offset as usize;
            e += 1;
        }
        let ghost pi = bs.position as int;
        let v = bs.get_bits(ba_bits);
        proof {
            crate::bits::lemma_bits_value_bound(data, pi, ba_bits as nat);
            assert(off + vstd::arithmetic::power2::pow2(ba_bits as nat) <= 92);
        }
        let mut ba = code[off + v as usize];
        bitalloc[2 * i] = ba;
        if i < stereo {
            let ghost pj = bs.position as int;
            let w = bs.get_bits(ba_bits);
            proof {
                crate::bits::lemma_bits_value_bound(data, pj, ba_bits as nat);
            }
            ba = code[off + w as usize];
        }
        bitalloc[2 * i + 1] = if stereo != 0 { ba } else { 0 };
        i += 1;
    }
}

fn read_scfcod(bs: &mut Bits, bitalloc: &[u8; 64], layer1: bool, n: usize, scfcod: &mut [u8; 64])
    requires
        n <= 64,
        old(bs).position + 128 <= usize::MAX,
        old(bs).data@.len() * 8 <= usize::MAX,
    ensures
        ({
            let r = scfcod_read(old(bs).data@, old(bs).position as int, bitalloc@, layer1, 0, n as int, old(scfcod)@);
            &&& final(scfcod)@ == r.0
            &&& final(bs).position == r.1
        }),
        final(bs).data@ == old(bs).data@,
        final(bs).position <= old(bs).position + 2 * n,
        forall|e: int| 0 <= e < n ==> final(scfcod)@[e] <= 6,
        forall|e: int| n <= e < 64 ==> final(scfcod)@[e] == old(scfcod)@[e],
{
    let ghost data = bs.data@;
    let ghost p0 = bs.position as int;
    let ghost target = scfcod_read(data, p0, bitalloc@, layer1, 0, n as int, scfcod@);
    let ghost c0 = scfcod@;
    let mut e: usize = 0;
    proof {
        vstd::arithmetic::power2::lemma2_to64();
    }
    while e < n
        invariant
            e <= n <= 64,
            bs.data@ == data,
            bs.data@.len() * 8 <= usize::MAX,
            p0 + 128 <= usize::MAX,
            bs.position <= p0 + 2 * e,
            forall|j: int| 0 <= j < e ==> scfcod@[j] <= 6,
            forall|j: int| n <= j < 64 ==> scfcod@[j] == c0[j],
            c0.len() == 64,
            target == scfcod_read(data, bs.position as int, bitalloc@, layer1, e as int, n as int, scfcod@),
        decreases n - e,
    {
        let c: u8 = if bitalloc[e] != 0 {
            if layer1 {
                2
            } else {
                let ghost pe = bs.position as int;
                let v = bs.get_bits(2);
                proof {
                    crate::bits::lemma_bits_value_bound(data, pe, 2);
                    vstd::arithmetic::power2::lemma2_to64();
                }
                v as u8
            }
        } else {
            6
        };
        scfcod[e] = c;
        e += 1;
    }
}

/// Reads the scale factor indices of the first `bands` entries (see
/// `scf_codes_read`).
fn read_scalefactors(bs: &mut Bits, pba: &[u8; 64], scfcod: &[u8; 64], bands: usize, scf: &mut [u8; 192], scf_alloc: &mut [u8; 64])
    requires
        bands <= 64,
        forall|e: int| 0 <= e < bands ==> scfcod@[e] <= 6,
        old(bs).position + 64 * 18 <= usize::MAX,
        old(bs).data@.len() * 8 <= usize::MAX,
    ensures
        ({
            let r = scf_codes_read(old(bs).data@, old(bs).position as int, pba@, scfcod@, 0, bands as int, old(scf)@, old(scf_alloc)@);
            &&& final(scf)@ == r.0
            &&& final(scf_alloc)@ == r.1
            &&& final(bs).position == r.2
        }),
        final(bs).data@ == old(bs).data@,
{
    let ghost data = bs.data@;
    let ghost p0 = bs.position as int;
    let ghost target = scf_codes_read(data, p0, pba@, scfcod@, 0, bands as int, scf@, scf_alloc@);
    let mut e: usize = 0;
    proof {
        vstd::arithmetic::power2::lemma2_to64();
    }
    while e < bands
        invariant
            e <= bands <= 64,
            forall|j: int| 0 <= j < bands ==> scfcod@[j] <= 6,
            bs.data@ == data,
            bs.data@.len() * 8 <= usize::MAX,
            p0 + 64 * 18 <= usize::MAX,
            bs.position <= p0 + 18 * e,
            target == scf_codes_read(data, bs.position as int, pba@, scfcod@, e as int, bands as int, scf@, scf_alloc@),
        decreases bands - e,
    {
        let ba = pba[e];
        let cod = scfcod[e];
        assert(cod <= 6u8 ==> 4u8 + ((19u8 >> cod) & 3u8) <= 7u8 && 4u8 + ((19u8 >> cod) & 3u8) >= 4u8) by (bit_vector);
        let mask: u8 = if ba != 0 {
            4 + ((19 >> cod) & 3)
        } else {
            0
        };
        let mut s: u8 = 0;
        assert(mask <= 7u8 ==> (mask & 4u8 != 0) == (mask >= 4u8)) by (bit_vector);
        assert(mask == 0u8 ==> mask & 4u8 == 0u8 && mask & 2u8 == 0u8 && mask & 1u8 == 0u8) by (bit_vector);
        let ghost p_e = bs.position as int;
        let ghost s0 = scf@;
        if mask & 4 != 0 {
            s = bs.get_bits(6) as u8;
        }
        scf[3 * e] = s;
        if mask & 2 != 0 {
            s = bs.get_bits(6) as u8;
        }
        scf[3 * e + 1] = s;
        if mask & 1 != 0 {
            s = bs.get_bits(6) as u8;
        }
        scf[3 * e + 2] = s;
        proof {
            if ba != 0 {
                let b0 = read_value(data, p_e, 6) as u8;
                let p1 = p_e + 6;
                let b1 = if mask & 2u8 != 0 { read_value(data, p1, 6) as u8 } else { b0 };
                let p2 = if mask & 2u8 != 0 { p1 + 6 } else { p1 };
                let b2 = if mask & 1u8 != 0 { read_value(data, p2, 6) as u8 } else { b1 };
                assert(scf@ =~= s0.update(3 * e as int, b0).update(3 * e + 1, b1).update(3 * e + 2, b2));
            } else {
                assert(scf@ =~= s0.update(3 * e as int, 0u8).update(3 * e + 1, 0u8).update(3 * e + 2, 0u8));
            }
        }
        scf_alloc[e] = ba;
        e += 1;
    }
}


/// The allocation codes with the right channel's cleared in the subbands
/// `stereo..total` that carry one channel.
pub open spec fn clear_right(ba: Seq<u8>, stereo: int, total: int) -> Seq<u8> {
    Seq::new(ba.len(), |e: int| if e % 2 == 1 && stereo <= e / 2 < total { 0u8 } else { ba[e] })
}

/// What `read_scale_info` reads from bit `pos` of `data` for the header `h`,
/// over the arrays it had: (scale factor indices, the allocations they were
/// read under, allocation codes, scale factor selections, position after).
pub open spec fn scale_info_read(
    h: Seq<u8>,
    data: Seq<u8>,
    pos: int,
    scf0: Seq<u8>,
    alloc0: Seq<u8>,
    ba0: Seq<u8>,
    cod0: Seq<u8>,
) -> (Seq<u8>, Seq<u8>, Seq<u8>, Seq<u8>, int) {
    let (t, total) = alloc_table(h);
    let stereo = stereo_band_count(h, total);
    let (ba, p1) = alloc_read(data, pos, t, 0, total, stereo, 0, 0, 0, 0, ba0);
    let (cod, p2) = scfcod_read(data, p1, ba, layer_field(h[1]) == 3u8, 0, 2 * total, cod0);
    let (scf, alloc, p3) = scf_codes_read(data, p2, ba, cod, 0, 2 * total, scf0, alloc0);
    (scf, alloc, clear_right(ba, stereo, total), cod, p3)
}

/// The bounds that the sample reading relies on: at most 32 subbands, as
/// many stereo ones at most, allocation codes up to 19 and scale factor
/// selections up to 6 in the entries in use.
pub open spec fn scale_info_ok(sci: ScaleInfo) -> bool {
    &&& 1 <= sci.total_bands <= 32
    &&& sci.stereo_bands <= sci.total_bands
    &&& forall|e: int| 0 <= e < 2 * sci.total_bands ==> #[trigger] sci.bitalloc@[e] <= 19
    &&& forall|e: int| 0 <= e < 2 * sci.total_bands ==> #[trigger] sci.scfcod@[e] <= 6
}

proof fn lemma_code_tab_bound()
    ensures
        forall|x: int| 0 <= x < 92 ==> #[trigger] G_BITALLOC_CODE_TAB@[x] <= 19,
{
    let t = G_BITALLOC_CODE_TAB@;
    assert(t.len() == 92);
    assert(t[0] == 0u8);
    assert(t[1] == 17u8);
}

/// Reads the bit allocation and scale factors of a layer I or II frame: the
/// number of subbands and of stereo subbands from the header, then each
/// band and channel's allocation code, scale factor selection and scale
/// factor indices. Entries past the frame's subbands keep what they held.
pub fn read_scale_info(hdr: &[u8], bs: &mut Bits, sci: &mut ScaleInfo)
    requires
        l12_header(hdr@),
        old(bs).position + 2048 <= usize::MAX,
        old(bs).data@.len() * 8 <= usize::MAX,
    ensures
        ({
            let r = scale_info_read(hdr@, old(bs).data@, old(bs).position as int, old(sci).scf@, old(sci).scf_alloc@, old(sci).bitalloc@, old(sci).scfcod@);
            &&& final(sci).scf@ == r.0
            &&& final(sci).scf_alloc@ == r.1
            &&& final(sci).bitalloc@ == r.2
            &&& final(sci).scfcod@ == r.3
            &&& final(bs).position == r.4
        }),
        final(sci).total_bands == alloc_table(hdr@).1,
        final(sci).stereo_bands == stereo_band_count(hdr@, alloc_table(hdr@).1),
        final(bs).data@ == old(bs).data@,
        scale_info_ok(*final(sci)),
{
    let (runs, run_count) = subband_alloc_table(hdr, sci);
    let table = vstd::slice::slice_subrange(&runs, 0, run_count);
    proof {
        lemma_alloc_table_ok(hdr@);
    }
    let total = sci.total_bands as usize;
    let stereo = sci.stereo_bands as usize;
    read_bitalloc(bs, table, total, stereo, &mut sci.bitalloc);
    let layer1 = is_layer_1(hdr);
    read_scfcod(bs, &sci.bitalloc, layer1, 2 * total, &mut sci.scfcod);
    read_scalefactors(bs, &sci.bitalloc, &sci.scfcod, 2 * total, &mut sci.scf, &mut sci.scf_alloc);
    let ghost ba = sci.bitalloc@;
    let ghost before = *sci;
    let mut i: usize = stereo;
    while i < total
        invariant
            stereo <= i <= total <= 32,
            sci.scf == before.scf,
            sci.scf_alloc == before.scf_alloc,
            sci.scfcod == before.scfcod,
            sci.total_bands == before.total_bands,
            sci.stereo_bands == before.stereo_bands,
            sci.bitalloc@.len() == 64,
            forall|e: int| 0 <= e < 64 ==> #[trigger] sci.bitalloc@[e] == (if e % 2 == 1 && stereo <= e / 2 < i { 0u8 } else { ba[e] }),
        decreases total - i,
    {
        sci.bitalloc[2 * i + 1] = 0;
        i += 1;
    }
    assert(sci.bitalloc@ =~= clear_right(ba, stereo as int, total as int));
}


/// The `g` samples of an entry of up to 16 bits: each read from `ba` bits
/// as an unsigned number and centred by subtracting 2 to the `ba - 1`,
/// minus one. Written from `base + k` on; the result is (the buffer, the
/// position after).
pub open spec fn plain_samples(data: Seq<u8>, pos: int, ba: int, k: int, g: int, base: int, buf: Seq<i32>) -> (Seq<i32>, int)
    decreases g - k,
{
    if k >= g {
        (buf, pos)
    } else {
        let v = read_value(data, pos, ba) - (pow2((ba - 1) as nat) - 1);
        plain_samples(data, pos + ba, ba, k + 1, g, base, buf.update(base + k, v as i32))
    }
}

/// The levels of a grouped code: allocation 17, 18 and 19 put three
/// samples of 3, 5 or 9 levels in one code.
pub open spec fn group_levels(ba: u8) -> int {
    if ba == 17u8 {
        3
    } else if ba == 18u8 {
        5
    } else {
        9
    }
}

/// The width of a grouped code: 5, 7 or 10 bits.
pub open spec fn group_bits(ba: u8) -> int {
    if ba == 17u8 {
        5
    } else if ba == 18u8 {
        7
    } else {
        10
    }
}

/// The samples `k..g` of a grouped code: its digits in base `m`, lowest
/// first, each centred by subtracting `m / 2`.
pub open spec fn grouped_samples(code: int, m: int, k: int, g: int, base: int, buf: Seq<i32>) -> Seq<i32>
    decreases g - k,
{
    if k >= g {
        buf
    } else {
        grouped_samples(code / m, m, k + 1, g, base, buf.update(base + k, (code % m - m / 2) as i32))
    }
}

/// The samples of one band and channel with allocation code `ba`: none for
/// 0, plain ones below 17, a grouped code otherwise. The result is (the
/// buffer, the position after).
pub open spec fn entry_samples(data: Seq<u8>, pos: int, ba: u8, g: int, base: int, buf: Seq<i32>) -> (Seq<i32>, int) {
    if ba == 0u8 {
        (buf, pos)
    } else if ba < 17u8 {
        plain_samples(data, pos, ba as int, 0, g, base, buf)
    } else {
        let code = read_value(data, pos, group_bits(ba));
        (grouped_samples(code, group_levels(ba), 0, g, base, buf), pos + group_bits(ba))
    }
}

/// The plain samples from `k` on: sample `t` is read at `pos + (t - k) * ba`.
proof fn lemma_plain_samples_from(data: Seq<u8>, pos: int, ba: int, k: int, g: int, base: int, buf: Seq<i32>)
    requires
        1 <= ba <= 16,
        0 <= k <= g,
        0 <= base,
        base + g <= buf.len(),
    ensures
        ({
            let r = plain_samples(data, pos, ba, k, g, base, buf);
            &&& r.1 == pos + (g - k) * ba
            &&& r.0.len() == buf.len()
            &&& forall|j: int| base + k <= j < base + g ==> r.0[j] == read_value(data, pos + (j - base - k) * ba, ba)
                - pow2((ba - 1) as nat) + 1
            &&& forall|j: int| 0 <= j < buf.len() && !(base + k <= j < base + g) ==> r.0[j] == buf[j]
        }),
    decreases g - k,
{
    if k < g {
        let v = read_value(data, pos, ba) - (pow2((ba - 1) as nat) - 1);
        crate::bits::lemma_read_value_bound(data, pos, ba as nat);
        vstd::arithmetic::power2::lemma_pow2_pos((ba - 1) as nat);
        vstd::arithmetic::power2::lemma_pow2_strictly_increases((ba - 1) as nat, ba as nat);
        if ba < 16 {
            vstd::arithmetic::power2::lemma_pow2_strictly_increases(ba as nat, 16);
        }
        vstd::arithmetic::power2::lemma2_to64();
        assert(v as i32 == v);
        let b2 = buf.update(base + k, v as i32);
        lemma_plain_samples_from(data, pos + ba, ba, k + 1, g, base, b2);
        let r = plain_samples(data, pos + ba, ba, k + 1, g, base, b2);
        assert(r.1 == pos + (g - k) * ba) by (nonlinear_arith)
            requires
                r.1 == pos + ba + (g - (k + 1)) * ba;
        assert forall|j: int| base + k <= j < base + g implies r.0[j] == read_value(data, pos + (j - base - k) * ba, ba)
            - pow2((ba - 1) as nat) + 1 by {
            if j > base + k {
                assert(pos + ba + (j - base - (k + 1)) * ba == pos + (j - base - k) * ba) by (nonlinear_arith);
            } else {
                assert(r.0[j] == b2[j]);
                assert((j - base - k) * ba == 0) by (nonlinear_arith)
                    requires
                        j == base + k;
            }
        }
        assert forall|j: int| 0 <= j < buf.len() && !(base + k <= j < base + g) implies r.0[j] == buf[j] by {
            assert(r.0[j] == b2[j]);
        }
        assert(plain_samples(data, pos, ba, k, g, base, buf) == r);
    } else {
        assert((g - k) * ba == 0) by (nonlinear_arith)
            requires
                g == k;
    }
}

/// A plain entry (allocation code 1 to 16) holds `g` samples of `ba` bits
/// each, one after the other: the reader moves on by `g * ba` bits, and
/// sample `t` is the unsigned number at `pos + t * ba`, centred by
/// subtracting 2 to the `ba - 1`, less one.
pub proof fn lemma_plain_entry(data: Seq<u8>, pos: int, ba: u8, g: int, base: int, buf: Seq<i32>)
    requires
        1 <= ba <= 16,
        0 <= g,
        0 <= base,
        base + g <= buf.len(),
    ensures
        ({
            let r = entry_samples(data, pos, ba, g, base, buf);
            &&& r.1 == pos + g * ba
            &&& r.0.len() == buf.len()
            &&& forall|j: int| base <= j < base + g ==> r.0[j] == read_value(data, pos + (j - base) * ba, ba as int)
                - pow2((ba - 1) as nat) + 1
            &&& forall|j: int| 0 <= j < buf.len() && !(base <= j < base + g) ==> r.0[j] == buf[j]
        }),
{
    lemma_plain_samples_from(data, pos, ba as int, 0, g, base, buf);
}

/// A grouped code packs the three samples of a row: for 3, 5 and 9 levels
/// (allocation codes 17, 18, 19) it is 5, 7 and 10 bits wide, the reader
/// moves on by exactly that width, and the samples are the code's digits in
/// base 3, 5 or 9, lowest first, each less 1, 2 or 4.
pub proof fn lemma_grouped_code(data: Seq<u8>, pos: int, ba: u8, base: int, buf: Seq<i32>)
    requires
        17 <= ba <= 19,
        0 <= base,
        base + 3 <= buf.len(),
    ensures
        ({
            let width: int = if ba == 17u8 { 5 } else if ba == 18u8 { 7 } else { 10 };
            let m: int = if ba == 17u8 { 3 } else if ba == 18u8 { 5 } else { 9 };
            let code = read_value(data, pos, width);
            let r = entry_samples(data, pos, ba, 3, base, buf);
            &&& r.1 == pos + width
            &&& r.0.len() == buf.len()
            &&& r.0[base] == code % m - m / 2
            &&& r.0[base + 1] == (code / m) % m - m / 2
            &&& r.0[base + 2] == (code / (m * m)) % m - m / 2
            &&& forall|j: int| 0 <= j < buf.len() && !(base <= j < base + 3) ==> r.0[j] == buf[j]
        }),
{
    let width: int = if ba == 17u8 { 5 } else if ba == 18u8 { 7 } else { 10 };
    let m: int = if ba == 17u8 { 3 } else if ba == 18u8 { 5 } else { 9 };
    let code = read_value(data, pos, width);
    crate::bits::lemma_read_value_bound(data, pos, width as nat);
    vstd::arithmetic::power2::lemma2_to64();
    assert(0 <= code < 1024);
    assert(group_levels(ba) == m && group_bits(ba) == width);
    let b1 = buf.update(base, (code % m - m / 2) as i32);
    let b2 = b1.update(base + 1, ((code / m) % m - m / 2) as i32);
    let b3 = b2.update(base + 2, ((code / m / m) % m - m / 2) as i32);
    reveal_with_fuel(grouped_samples, 4);
    assert(grouped_samples(code, m, 0, 3, base, buf) == b3);
    assert(code / m / m == code / (m * m)) by (nonlinear_arith)
        requires
            m == 3 || m == 5 || m == 9,
            0 <= code;
    assert((code % m - m / 2) as i32 == code % m - m / 2);
    assert(((code / m) % m - m / 2) as i32 == (code / m) % m - m / 2);
    assert(((code / m / m) % m - m / 2) as i32 == (code / m / m) % m - m / 2);
}

/// Where entry `e` of a row goes: the left channel's band `i` at `18 * i`,
/// the right channel's at `576 + 18 * i`.
pub open spec fn entry_offset(e: int) -> int {
    if e % 2 == 0 {
        9 * e
    } else {
        576 + 9 * (e - 1)
    }
}

/// The entries `e..n` of a row whose first sample goes to `start`.
pub open spec fn row_samples(data: Seq<u8>, pos: int, ba: Seq<u8>, n: int, g: int, start: int, e: int, buf: Seq<i32>) -> (Seq<i32>, int)
    decreases n - e,
{
    if e >= n {
        (buf, pos)
    } else {
        let r = entry_samples(data, pos, ba[e], g, start + entry_offset(e), buf);
        row_samples(data, r.1, ba, n, g, start, e + 1, r.0)
    }
}

/// The rows `j..4` of a granule, row `j` starting at `start`, the next
/// `g` further on.
pub open spec fn granule_samples(data: Seq<u8>, pos: int, ba: Seq<u8>, n: int, g: int, j: int, start: int, buf: Seq<i32>) -> (Seq<i32>, int)
    decreases 4 - j,
{
    if j >= 4 {
        (buf, pos)
    } else {
        let r = row_samples(data, pos, ba, n, g, start, 0, buf);
        granule_samples(data, r.1, ba, n, g, j + 1, start + g, r.0)
    }
}

fn read_plain(bs: &mut Bits, grbuf: &mut [i32], base: usize, ba: u8, g: usize)
    requires
        1 <= ba <= 16,
        base + g <= old(grbuf)@.len(),
        old(bs).position + 16 * g <= usize::MAX,
        old(bs).data@.len() * 8 <= usize::MAX,
    ensures
        ({
            let r = plain_samples(old(bs).data@, old(bs).position as int, ba as int, 0, g as int, base as int, old(grbuf)@);
            &&& final(grbuf)@ == r.0
            &&& final(bs).position == r.1
        }),
        final(bs).data@ == old(bs).data@,
        final(bs).position <= old(bs).position + 16 * g,
        final(grbuf)@.len() == old(grbuf)@.len(),
{
    let ghost data = bs.data@;
    let ghost target = plain_samples(data, bs.position as int, ba as int, 0, g as int, base as int, grbuf@);
    let ghost p0 = bs.position as int;
    let s: u32 = (ba - 1) as u32;
    let ghost len = grbuf@.len();
    let buf_len = grbuf.len();
    proof {
        vstd::bits::lemma_u32_pow2_no_overflow(s as nat);
        vstd::bits::lemma_u32_shl_is_mul(1, s);
        vstd::arithmetic::power2::lemma_pow2_strictly_increases(s as nat, 16);
        vstd::arithmetic::power2::lemma2_to64();
    }
    let half: u32 = (1u32 << s) - 1;
    let mut k: usize = 0;
    while k < g
        invariant
            k <= g,
            1 <= ba <= 16,
            half == pow2(s as nat) - 1,
            s == ba - 1,
            pow2(s as nat) < pow2(16),
            pow2(16) == 0x10000,
            base + g <= grbuf@.len(),
            grbuf@.len() == len,
            len == buf_len,
            bs.data@ == data,
            bs.data@.len() * 8 <= usize::MAX,
            p0 + 16 * g <= usize::MAX,
            bs.position <= p0 + 16 * k,
            target == plain_samples(data, bs.position as int, ba as int, k as int, g as int, base as int, grbuf@),
        decreases g - k,
    {
        let ghost pk = bs.position as int;
        let v = bs.get_bits(ba as u32);
        proof {
            crate::bits::lemma_bits_value_bound(data, pk, ba as nat);
            vstd::arithmetic::power2::lemma_pow2_strictly_increases(ba as nat, 17);
            vstd::arithmetic::power2::lemma2_to64();
        }
        grbuf[base + k] = v as i32 - half as i32;
        k += 1;
    }
}

fn read_grouped(bs: &mut Bits, grbuf: &mut [i32], base: usize, ba: u8, g: usize)
    requires
        17 <= ba <= 19,
        base + g <= old(grbuf)@.len(),
        old(bs).position + 10 <= usize::MAX,
        old(bs).data@.len() * 8 <= usize::MAX,
    ensures
        final(grbuf)@ == grouped_samples(
            read_value(old(bs).data@, old(bs).position as int, group_bits(ba)),
            group_levels(ba),
            0,
            g as int,
            base as int,
            old(grbuf)@,
        ),
        final(bs).position == old(bs).position + group_bits(ba),
        final(bs).data@ == old(bs).data@,
        final(grbuf)@.len() == old(grbuf)@.len(),
{
    let sh: u32 = (ba - 17) as u32;
    assert(sh <= 2u32 ==> (2u32 << sh) + 1u32 == (if sh == 0u32 { 3u32 } else if sh == 1u32 { 5u32 } else { 9u32 })) by (bit_vector);
    let m: u32 = (2u32 << sh) + 1;
    assert(m == 3u32 || m == 5u32 || m == 9u32 ==> m + 2u32 - (m >> 3u32) == (if m == 3u32 { 5u32 } else if m == 5u32 { 7u32 } else { 10u32 })) by (bit_vector);
    let nbits: u32 = m + 2 - (m >> 3);
    let ghost data = bs.data@;
    let ghost pos = bs.position as int;
    let mut code = bs.get_bits(nbits);
    let ghost target = grouped_samples(code as int, m as int, 0, g as int, base as int, grbuf@);
    let ghost len = grbuf@.len();
    let buf_len = grbuf.len();
    let mut k: usize = 0;
    while k < g
        invariant
            k <= g,
            m == 3 || m == 5 || m == 9,
            base + g <= grbuf@.len(),
            grbuf@.len() == len,
            len == buf_len,
            target == grouped_samples(code as int, m as int, k as int, g as int, base as int, grbuf@),
        decreases g - k,
    {
        grbuf[base + k] = (code % m) as i32 - (m / 2) as i32;
        code = code / m;
        k += 1;
    }
}

/// Reads the samples of one granule of a layer I or II frame: four rows
/// of `group_size` samples, each row the bands of both channels in turn
/// (see `granule_samples`). Where the allocation is 0 nothing is written.
/// Returns the number of samples per band written, `4 * group_size`.
pub fn dequantize_granule(grbuf: &mut [i32], bs: &mut Bits, sci: &ScaleInfo, group_size: usize) -> (r: usize)
    requires
        scale_info_ok(*sci),
        old(grbuf)@.len() >= 4 * group_size + 558 + 18 * sci.total_bands,
        old(bs).position + 4096 * group_size + 2560 <= usize::MAX,
        old(bs).data@.len() * 8 <= usize::MAX,
    ensures
        ({
            let s = granule_samples(old(bs).data@, old(bs).position as int, sci.bitalloc@, 2 * sci.total_bands, group_size as int, 0, 0, old(grbuf)@);
            &&& final(grbuf)@ == s.0
            &&& final(bs).position == s.1
        }),
        final(bs).data@ == old(bs).data@,
        r == 4 * group_size,
{
    let ghost data = bs.data@;
    let ghost p0 = bs.position as int;
    let ghost target = granule_samples(data, p0, sci.bitalloc@, 2 * sci.total_bands, group_size as int, 0, 0, grbuf@);
    let ghost len = grbuf@.len();
    let n: usize = 2 * sci.total_bands as usize;
    let g = group_size;
    let mut j: usize = 0;
    let mut start: usize = 0;
    while j < 4
        invariant
            j <= 4,
            start == g * j,
            scale_info_ok(*sci),
            n == 2 * sci.total_bands,
            grbuf@.len() == len,
            len >= 4 * g + 558 + 18 * sci.total_bands,
            bs.data@ == data,
            bs.data@.len() * 8 <= usize::MAX,
            p0 + 4096 * g + 2560 <= usize::MAX,
            bs.position <= p0 + (1024 * g + 640) * j,
            target == granule_samples(data, bs.position as int, sci.bitalloc@, n as int, g as int, j as int, start as int, grbuf@),
        decreases 4 - j,
    {
        let ghost row_p0 = bs.position as int;
        let mut e: usize = 0;
        let mut off: usize = 0;
        while e < n
            invariant
                e <= n,
                j < 4,
                start == g * j,
                off == entry_offset(e as int),
                scale_info_ok(*sci),
                n == 2 * sci.total_bands,
                grbuf@.len() == len,
                len >= 4 * g + 558 + 18 * sci.total_bands,
                bs.data@ == data,
                bs.data@.len() * 8 <= usize::MAX,
                p0 + 4096 * g + 2560 <= usize::MAX,
                row_p0 <= p0 + (1024 * g + 640) * j,
                bs.position <= row_p0 + (16 * g + 10) * e,
                target == granule_samples(
                    data,
                    row_samples(data, bs.position as int, sci.bitalloc@, n as int, g as int, start as int, e as int, grbuf@).1,
                    sci.bitalloc@, n as int, g as int, j + 1, start + g,
                    row_samples(data, bs.position as int, sci.bitalloc@, n as int, g as int, start as int, e as int, grbuf@).0,
                ),
            decreases n - e,
        {
            let ba = sci.bitalloc[e];
            assert(ba <= 19);
            proof {
                assert((1024 * g + 640) * j + (16 * g + 10) * e + 16 * g + 10 <= 4096 * g + 2560) by (nonlinear_arith)
                    requires
                        j < 4,
                        e < 64,
                ;
                assert(start + off + g <= 4 * g + 558 + 18 * sci.total_bands) by (nonlinear_arith)
                    requires
                        start == g * j,
                        j < 4,
                        e < 2 * sci.total_bands,
                        off == entry_offset(e as int),
                ;
            }
            if ba != 0 {
                if ba < 17 {
                    read_plain(bs, grbuf, start + off, ba, g);
                } else {
                    read_grouped(bs, grbuf, start + off, ba, g);
                }
            }
            proof {
                assert((16 * g + 10) * e + 16 * g + 10 == (16 * g + 10) * (e + 1)) by (nonlinear_arith);
            }
            off = if e % 2 == 0 { off + 576 } else { off - 558 };
            e += 1;
        }
        proof {
            assert((1024 * g + 640) * j + (16 * g + 10) * n <= (1024 * g + 640) * (j + 1)) by (nonlinear_arith)
                requires
                    n <= 64,
            ;
        }
        proof {
            assert(g * j + g == g * (j + 1)) by (nonlinear_arith);
        }
        start += g;
        j += 1;
    }
    4 * g
}

} // verus!
