//! Layer III Huffman decoding: the quantized values of a granule.
//!
//! The decoder looks ahead through a window of loaded bits: the bytes from
//! the reading position's byte on are loaded four at a time at the start,
//! then one at a time, after each pair or quadruple of values, until more
//! than 24 bits ahead are loaded. A look-ahead past what is loaded, or past
//! the end of the data, sees zero bits.
use vstd::prelude::*;
use crate::bits::{Bits, bit_at};
use crate::layer3::{GrInfo, SFBTable, G_SCF_LONG, G_SCF_MIXED, G_SCF_SHORT};
use crate::huffman_tables::{
    tab_entry, tab_entry_at, links_forward, lemma_codebook_links, lemma_count1_tables, codebook_start, codebook_end, linbits_of, lemma_codebooks, CODEBOOK_START, CODEBOOK_END, LINBITS, COUNT1_TAB32, COUNT1_TAB33,
};
use vstd::arithmetic::power2::{pow2, lemma_pow2_unfold, lemma2_to64};

verus! {

/// The bit at `p` as the look-ahead sees it: 0 where it is not loaded yet
/// (at `loaded` or later) or lies past the end of `data`.
pub open spec fn seen_bit(data: Seq<u8>, loaded: int, p: int) -> nat {
    if 0 <= p && p < loaded && p < data.len() * 8 {
        bit_at(data, p)
    } else {
        0
    }
}

/// The `n` bits at `pos` as the look-ahead sees them, the first the most
/// significant.
pub open spec fn peek(data: Seq<u8>, loaded: int, pos: int, n: nat) -> nat
    decreases n,
{
    if n == 0 {
        0
    } else {
        2 * peek(data, loaded, pos, (n - 1) as nat) + seen_bit(data, loaded, pos + n - 1)
    }
}

/// How far bits are loaded after a refill at `pos`: a byte at a time until
/// more than 24 bits ahead of `pos` are.
pub open spec fn refill(pos: int, loaded: int) -> int
    decreases pos + 32 - loaded,
{
    if loaded > pos + 24 {
        loaded
    } else {
        refill(pos, loaded + 8)
    }
}

proof fn lemma_peek_bound(data: Seq<u8>, loaded: int, pos: int, n: nat)
    ensures
        peek(data, loaded, pos, n) < pow2(n),
    decreases n,
{
    if n == 0 {
        lemma2_to64();
    } else {
        lemma_peek_bound(data, loaded, pos, (n - 1) as nat);
        lemma_pow2_unfold(n);
        let p = pos + n - 1;
        if 0 <= p && p < loaded && p < data.len() * 8 {
            let b = data[p / 8];
            let sh = (7 - p % 8) as u8;
            assert((b >> sh) & 1u8 <= 1u8) by (bit_vector);
        }
    }
}

proof fn lemma_refill_bounds(pos: int, loaded: int)
    ensures
        refill(pos, loaded) >= loaded,
        refill(pos, loaded) > pos + 24,
        loaded <= pos + 32 ==> refill(pos, loaded) <= pos + 32,
        loaded > pos + 32 ==> refill(pos, loaded) == loaded,
    decreases pos + 32 - loaded,
{
    if loaded <= pos + 24 {
        lemma_refill_bounds(pos, loaded + 8);
    }
}

fn peek_bits(data: &[u8], loaded: usize, pos: usize, n: u32) -> (r: u32)
    requires
        n <= 16,
        pos + n <= usize::MAX,
    ensures
        r == peek(data@, loaded as int, pos as int, n as nat),
        r < pow2(n as nat),
{
    proof {
        lemma_peek_bound(data@, loaded as int, pos as int, n as nat);
        lemma2_to64();
        if n < 16 {
            vstd::arithmetic::power2::lemma_pow2_strictly_increases(n as nat, 16);
        }
    }
    let len = data.len();
    let mut v: u32 = 0;
    let mut k: u32 = 0;
    while k < n
        invariant
            k <= n <= 16,
            pos + n <= usize::MAX,
            len == data@.len(),
            v == peek(data@, loaded as int, pos as int, k as nat),
            pow2(16) == 0x10000,
            peek(data@, loaded as int, pos as int, n as nat) < 0x10000,
        decreases n - k,
    {
        proof {
            lemma_peek_bound(data@, loaded as int, pos as int, (k + 1) as nat);
            vstd::arithmetic::power2::lemma_pow2_strictly_increases((k + 1) as nat, 17);
            lemma2_to64();
        }
        let p = pos + k as usize;
        let mut b: u32 = 0;
        if p < loaded && p / 8 < len {
            let byte = data[p / 8];
            let sh = (7 - p % 8) as u8;
            let bit = (byte >> sh) & 1u8;
            assert(bit <= 1u8) by (bit_vector)
                requires bit == (byte >> sh) & 1u8;
            b = bit as u32;
        }
        v = 2 * v + b;
        k += 1;
    }
    v
}

fn refill_to(pos: usize, loaded: usize) -> (r: usize)
    requires
        pos + 40 <= usize::MAX,
        loaded <= pos + 40,
    ensures
        r == refill(pos as int, loaded as int),
        r <= pos + 40,
{
    proof {
        lemma_refill_bounds(pos as int, loaded as int);
    }
    let mut l = loaded;
    while l <= pos + 24
        invariant
            refill(pos as int, l as int) == refill(pos as int, loaded as int),
            l <= pos + 40,
            pos + 40 <= usize::MAX,
        decreases pos + 32 - l,
    {
        l += 8;
    }
    l
}


/// Walks the code book at `cb..end` from its entry `idx`, reached by
/// reading `w` bits at `pos`: a leaf ends the code word, whose length the
/// leaf gives from `pos` on; a link skips the `w` bits and selects the next
/// entry by the bits after them. The walk stops, failing, where an entry
/// would lie outside the code book or not after the last one. The result
/// is (the leaf, the position after the code word, success).
pub open spec fn code_walk(data: Seq<u8>, loaded: int, cb: int, end: int, pos: int, w: int, idx: int) -> (int, int, bool)
    decreases end - idx,
{
    if idx < cb || idx >= end || end > 2164 {
        (0, pos, false)
    } else {
        let leaf = tab_entry(idx);
        if leaf >= 0 {
            (leaf, pos + leaf / 256, true)
        } else {
            let pos2 = pos + w;
            let w2 = leaf % 8;
            let idx2 = cb - leaf / 8 + peek(data, loaded, pos2, w2 as nat);
            if idx2 <= idx || idx2 >= end {
                (leaf, pos2, false)
            } else {
                code_walk(data, loaded, cb, end, pos2, w2, idx2)
            }
        }
    }
}

#[verifier::spinoff_prover]
proof fn lemma_link_fields(leaf: int, u: int)
    requires
        leaf < 0,
        u == -leaf,
    ensures
        (8 - u % 8) % 8 == leaf % 8,
        (u + 7) / 8 == -(leaf / 8),
{
    let q = u / 8;
    let r = u % 8;
    assert(u == 8 * q + r);
    if r == 0 {
        assert(leaf == 8 * (-q));
    } else {
        assert(leaf == 8 * (-q - 1) + (8 - r));
    }
}

/// A big-value code word at `pos`: the walk starts from the entry that the
/// first five bits select.
pub open spec fn code_word(data: Seq<u8>, loaded: int, cb: int, end: int, pos: int) -> (int, int, bool) {
    code_walk(data, loaded, cb, end, pos, 5, cb + peek(data, loaded, pos, 5))
}

fn read_code_word(data: &[u8], loaded: usize, cb: usize, end: usize, pos: usize) -> (r: (i32, usize, bool))
    requires
        cb < end <= 2164,
        pos + 16000 <= usize::MAX,
    ensures
        (r.0 as int, r.1 as int, r.2) == code_word(data@, loaded as int, cb as int, end as int, pos as int),
        pos <= r.1 <= pos + 15300,
        r.2 ==> 0 <= r.0 < 0x8000,
{
    let mut w: u32 = 5;
    let mut p: usize = pos;
    let first = peek_bits(data, loaded, pos, 5);
    proof {
        lemma2_to64();
    }
    let mut idx: usize = cb + first as usize;
    loop
        invariant
            cb < end <= 2164,
            pos + 16000 <= usize::MAX,
            w <= 7,
            cb <= idx,
            idx <= cb + 31 || idx < end,
            pos <= p <= pos + 7 * (idx - cb),
            code_word(data@, loaded as int, cb as int, end as int, pos as int)
                == code_walk(data@, loaded as int, cb as int, end as int, p as int, w as int, idx as int),
        decreases end - idx,
    {
        if idx >= end {
            return (0, p, false);
        }
        let leaf = tab_entry_at(idx) as i32;
        if leaf >= 0 {
            return (leaf, p + (leaf / 256) as usize, true);
        }
        let p2 = p + w as usize;
        let u: u32 = (-leaf) as u32;
        let w2: u32 = (8 - u % 8) % 8;
        let off: usize = ((u + 7) / 8) as usize;
        proof {
            lemma_link_fields(leaf as int, u as int);
        }
        let next = peek_bits(data, loaded, p2, w2);
        proof {
            vstd::arithmetic::power2::lemma_pow2_strictly_increases(w2 as nat, 8);
            lemma2_to64();
        }
        let idx2 = cb + off + next as usize;
        if idx2 <= idx || idx2 >= end {
            return (leaf, p2, false);
        }
        idx = idx2;
        p = p2;
        w = w2;
    }
}


/// One value of a big-value pair whose code word gave `lsb`: 15 in a table
/// with extra bits is extended by `linbits` more bits, after which the bits
/// are refilled; a value other than 0 is followed by its sign bit (1 for
/// negative). The result is (the value, the position after it, how far bits
/// are loaded).
pub open spec fn big_value(data: Seq<u8>, loaded: int, pos: int, lsb: int, linbits: int) -> (int, int, int) {
    if lsb == 15 && linbits != 0 {
        let magnitude = 15 + peek(data, loaded, pos, linbits as nat) as int;
        let pos2 = pos + linbits;
        let loaded2 = refill(pos2, loaded);
        let negative = peek(data, loaded2, pos2, 1) == 1;
        (if negative { -magnitude } else { magnitude }, pos2 + 1, loaded2)
    } else if lsb == 0 {
        (0, pos, loaded)
    } else {
        let negative = peek(data, loaded, pos, 1) == 1;
        (if negative { -lsb } else { lsb }, pos + 1, loaded)
    }
}

/// A pair of big values: the code word's leaf holds the first value in
/// its low four bits and the second in the next four; the bits are
/// refilled after the pair. The result is (the two values, the position
/// after them, how far bits are loaded, success).
pub open spec fn big_pair(data: Seq<u8>, loaded: int, pos: int, cb: int, end: int, linbits: int) -> (int, int, int, int, bool) {
    let (leaf, p1, ok) = code_word(data, loaded, cb, end, pos);
    if !ok {
        (0, 0, p1, loaded, false)
    } else {
        let (v0, p2, l2) = big_value(data, loaded, p1, leaf % 16, linbits);
        let (v1, p3, l3) = big_value(data, l2, p2, (leaf / 16) % 16, linbits);
        (v0, v1, p3, refill(p3, l3), true)
    }
}

fn read_big_value(data: &[u8], loaded: usize, pos: usize, lsb: i32, linbits: u32) -> (r: (i32, usize, usize))
    requires
        0 <= lsb <= 15,
        linbits <= 13,
        pos + 100 <= usize::MAX,
        loaded <= pos + 40,
    ensures
        (r.0 as int, r.1 as int, r.2 as int) == big_value(data@, loaded as int, pos as int, lsb as int, linbits as int),
        pos <= r.1 <= pos + 14,
        r.2 <= r.1 + 40,
        -0x3000 <= r.0 <= 0x3000,
{
    proof {
        lemma2_to64();
    }
    if lsb == 15 && linbits != 0 {
        let extra = peek_bits(data, loaded, pos, linbits);
        proof {
            vstd::arithmetic::power2::lemma_pow2_strictly_increases(linbits as nat, 14);
            lemma2_to64();
        }
        let magnitude = 15 + extra as i32;
        let p2 = pos + linbits as usize;
        let l2 = refill_to(p2, loaded);
        let sign = peek_bits(data, l2, p2, 1);
        (if sign == 1 { -magnitude } else { magnitude }, p2 + 1, l2)
    } else if lsb == 0 {
        (0, pos, loaded)
    } else {
        let sign = peek_bits(data, loaded, pos, 1);
        (if sign == 1 { -lsb } else { lsb }, pos + 1, loaded)
    }
}

fn read_big_pair(data: &[u8], loaded: usize, pos: usize, cb: usize, end: usize, linbits: u32) -> (r: (i32, i32, usize, usize, bool))
    requires
        cb < end <= 2164,
        linbits <= 13,
        pos + 16100 <= usize::MAX,
        loaded <= pos + 40,
    ensures
        (r.0 as int, r.1 as int, r.2 as int, r.3 as int, r.4) == big_pair(data@, loaded as int, pos as int, cb as int, end as int, linbits as int),
        pos <= r.2 <= pos + 16000,
        r.3 <= r.2 + 40,
{
    let (leaf, p1, ok) = read_code_word(data, loaded, cb, end, pos);
    if !ok {
        return (0, 0, p1, loaded, false);
    }
    let (v0, p2, l2) = read_big_value(data, loaded, p1, leaf % 16, linbits);
    let (v1, p3, l3) = read_big_value(data, l2, p2, (leaf / 16) % 16, linbits);
    let l4 = refill_to(p3, l3);
    (v0, v1, p3, l4, true)
}


/// `n` pairs of big values from line `k` on, written into `out`. Decoding
/// stops, failing, where a pair would pass line 576 or its code word fails.
/// The result is (the lines, the position after, how far bits are loaded,
/// the next line, success).
pub open spec fn band_pairs(
    data: Seq<u8>,
    pos: int,
    loaded: int,
    cb: int,
    end: int,
    linbits: int,
    n: int,
    k: int,
    out: Seq<i32>,
) -> (Seq<i32>, int, int, int, bool)
    decreases n,
{
    if n <= 0 {
        (out, pos, loaded, k, true)
    } else if k < 0 || k + 2 > 576 {
        (out, pos, loaded, k, false)
    } else {
        let r = big_pair(data, loaded, pos, cb, end, linbits);
        if !r.4 {
            (out, r.2, r.3, k, false)
        } else {
            band_pairs(data, r.2, r.3, cb, end, linbits, n - 1, k + 2, out.update(k, r.0 as i32).update(k + 1, r.1 as i32))
        }
    }
}

/// The bands of a region from band `sfb` on, `widths` giving each band's
/// number of lines: as many pairs as the band has, or as are left of the
/// `big` pairs, then the next band while pairs are left and the region's
/// band count `sfb_cnt` is not used up. Decoding stops, failing, past the
/// last band or at a band without lines. The result is (the lines, the
/// position after, how far bits are loaded, the next line, the next band,
/// the pairs left (0 or less once all are decoded), success).
pub open spec fn region_bands(
    data: Seq<u8>,
    pos: int,
    loaded: int,
    cb: int,
    end: int,
    linbits: int,
    widths: Seq<u8>,
    sfb: int,
    sfb_cnt: int,
    big: int,
    k: int,
    out: Seq<i32>,
) -> (Seq<i32>, int, int, int, int, int, bool)
    decreases widths.len() - sfb,
{
    if sfb < 0 || sfb >= widths.len() || widths[sfb] / 2 == 0 {
        (out, pos, loaded, k, sfb, big, false)
    } else {
        let np = widths[sfb] / 2;
        let n = if big < np { big } else { np as int };
        let r = band_pairs(data, pos, loaded, cb, end, linbits, n, k, out);
        if !r.4 {
            (r.0, r.1, r.2, r.3, sfb + 1, big, false)
        } else if big - np > 0 && sfb_cnt - 1 >= 0 {
            region_bands(data, r.1, r.2, cb, end, linbits, widths, sfb + 1, sfb_cnt - 1, big - np, r.3, r.0)
        } else {
            (r.0, r.1, r.2, r.3, sfb + 1, big - np, true)
        }
    }
}

/// The big-value regions from region `ireg` on, while pairs are left: each
/// decoded with the table its granule selects, over one band more than its
/// region count. Decoding stops, failing, at a fourth region or a table
/// number past 31. The result is as for `region_bands`.
pub open spec fn big_regions(
    data: Seq<u8>,
    pos: int,
    loaded: int,
    g: GrInfo,
    widths: Seq<u8>,
    ireg: int,
    sfb: int,
    big: int,
    k: int,
    out: Seq<i32>,
) -> (Seq<i32>, int, int, int, int, int, bool)
    decreases 3 - ireg,
{
    if big <= 0 {
        (out, pos, loaded, k, sfb, big, true)
    } else if ireg < 0 || ireg >= 3 || g.table_select[ireg] >= 32 {
        (out, pos, loaded, k, sfb, big, false)
    } else {
        let t = g.table_select[ireg] as int;
        let r = region_bands(
            data,
            pos,
            loaded,
            codebook_start(t),
            codebook_end(t),
            linbits_of(t),
            widths,
            sfb,
            g.region_count[ireg] as int,
            big,
            k,
            out,
        );
        if !r.6 {
            r
        } else {
            big_regions(data, r.1, r.2, g, widths, ireg + 1, r.4, r.5, r.3, r.0)
        }
    }
}

fn read_band_pairs(
    data: &[u8],
    out: &mut [i32],
    pos: usize,
    loaded: usize,
    cb: usize,
    end: usize,
    linbits: u32,
    n: usize,
    k: usize,
) -> (r: (usize, usize, usize, bool))
    requires
        cb < end <= 2164,
        linbits <= 13,
        old(out)@.len() >= 576,
        k <= 576,
        pos + 16000 * n + 16100 <= usize::MAX,
        loaded <= pos + 40,
    ensures
        ({
            let s = band_pairs(data@, pos as int, loaded as int, cb as int, end as int, linbits as int, n as int, k as int, old(out)@);
            &&& final(out)@ == s.0
            &&& r.0 == s.1
            &&& r.1 == s.2
            &&& r.2 == s.3
            &&& r.3 == s.4
        }),
        pos <= r.0 <= pos + 16000 * n,
        r.1 <= r.0 + 40,
        r.2 <= 576,
        final(out)@.len() == old(out)@.len(),
{
    let ghost target = band_pairs(data@, pos as int, loaded as int, cb as int, end as int, linbits as int, n as int, k as int, out@);
    let ghost len = out@.len();
    let mut i: usize = 0;
    let mut p = pos;
    let mut l = loaded;
    let mut kk = k;
    while i < n
        invariant
            i <= n,
            cb < end <= 2164,
            linbits <= 13,
            len == old(out)@.len(),
            target == band_pairs(data@, pos as int, loaded as int, cb as int, end as int, linbits as int, n as int, k as int, old(out)@),
            out@.len() == len,
            len >= 576,
            kk <= 576,
            pos + 16000 * n + 16100 <= usize::MAX,
            pos <= p <= pos + 16000 * i,
            l <= p + 40,
            target == band_pairs(data@, p as int, l as int, cb as int, end as int, linbits as int, (n - i) as int, kk as int, out@),
        decreases n - i,
    {
        if kk + 2 > 576 {
            return (p, l, kk, false);
        }
        let (v0, v1, p2, l2, ok) = read_big_pair(data, l, p, cb, end, linbits);
        if !ok {
            return (p2, l2, kk, false);
        }
        out[kk] = v0;
        out[kk + 1] = v1;
        p = p2;
        l = l2;
        kk += 2;
        i += 1;
    }
    (p, l, kk, true)
}


#[verifier::rlimit(40)]
fn read_region_bands(
    data: &[u8],
    out: &mut [i32],
    pos: usize,
    loaded: usize,
    cb: usize,
    end: usize,
    linbits: u32,
    widths: &[u8],
    sfb: usize,
    sfb_cnt: i32,
    big: i32,
    k: usize,
) -> (r: (usize, usize, usize, usize, i32, bool))
    requires
        cb < end <= 2164,
        linbits <= 13,
        old(out)@.len() >= 576,
        k <= 576,
        0 < big <= 0xFFFF,
        0 <= sfb_cnt <= 255,
        sfb <= 64,
        widths@.len() <= 64,
        pos + 16000 * big + 16100 <= usize::MAX,
        loaded <= pos + 40,
    ensures
        ({
            let s = region_bands(data@, pos as int, loaded as int, cb as int, end as int, linbits as int, widths@, sfb as int, sfb_cnt as int, big as int, k as int, old(out)@);
            &&& final(out)@ == s.0
            &&& r.0 == s.1
            &&& r.1 == s.2
            &&& r.2 == s.3
            &&& r.3 == s.4
            &&& r.4 == s.5
            &&& r.5 == s.6
        }),
        -128 <= r.4 <= big,
        pos <= r.0 <= pos + 16000 * big,
        r.5 ==> r.4 < big && r.0 <= pos + 16000 * (big - r.4),
        r.1 <= r.0 + 40,
        r.2 <= 576,
        r.3 <= 65,
        final(out)@.len() == old(out)@.len(),
{
    let ghost target = region_bands(data@, pos as int, loaded as int, cb as int, end as int, linbits as int, widths@, sfb as int, sfb_cnt as int, big as int, k as int, out@);
    let mut b = sfb;
    let mut cnt = sfb_cnt;
    let mut left = big;
    let mut p = pos;
    let mut l = loaded;
    let mut kk = k;
    loop
        invariant
            cb < end <= 2164,
            linbits <= 13,
            out@.len() == old(out)@.len(),
            old(out)@.len() >= 576,
            kk <= 576,
            0 < left <= big <= 0xFFFF,
            0 <= cnt <= 255,
            sfb <= b <= 64,
            widths@.len() <= 64,
            pos + 16000 * big + 16100 <= usize::MAX,
            pos <= p <= pos + 16000 * (big - left),
            l <= p + 40,
            target == region_bands(data@, pos as int, loaded as int, cb as int, end as int, linbits as int, widths@, sfb as int, sfb_cnt as int, big as int, k as int, old(out)@),
            target == region_bands(data@, p as int, l as int, cb as int, end as int, linbits as int, widths@, b as int, cnt as int, left as int, kk as int, out@),
        decreases widths@.len() - b,
    {
        if b >= widths.len() || widths[b] / 2 == 0 {
            return (p, l, kk, b, left, false);
        }
        let np = (widths[b] / 2) as i32;
        let n = if left < np { left } else { np };
        let (p2, l2, k2, ok) = read_band_pairs(data, out, p, l, cb, end, linbits, n as usize, kk);
        if !ok {
            return (p2, l2, k2, b + 1, left, false);
        }
        if left - np > 0 && cnt - 1 >= 0 {
            b += 1;
            cnt -= 1;
            left -= np;
            p = p2;
            l = l2;
            kk = k2;
        } else {
            return (p2, l2, k2, b + 1, left - np, true);
        }
    }
}

#[verifier::rlimit(40)]
fn read_big_regions(data: &[u8], out: &mut [i32], pos: usize, loaded: usize, g: &GrInfo, widths: &[u8]) -> (r: (usize, usize, usize, usize, i32, bool))
    requires
        old(out)@.len() >= 576,
        widths@.len() <= 64,
        pos + 0x4000_0000 + 16100 <= usize::MAX,
        loaded <= pos + 40,
    ensures
        ({
            let s = big_regions(data@, pos as int, loaded as int, *g, widths@, 0, 0, g.big_values as int, 0, old(out)@);
            &&& final(out)@ == s.0
            &&& r.0 == s.1
            &&& r.1 == s.2
            &&& r.2 == s.3
            &&& r.3 == s.4
            &&& r.4 == s.5
            &&& r.5 == s.6
        }),
        r.4 >= -128,
        r.5 ==> r.4 <= 0,
        pos <= r.0 <= pos + 0x4000_0000,
        r.1 <= r.0 + 40,
        r.2 <= 576,
        r.3 <= 65,
        final(out)@.len() == old(out)@.len(),
{
    let ghost target = big_regions(data@, pos as int, loaded as int, *g, widths@, 0, 0, g.big_values as int, 0, out@);
    let mut ireg: usize = 0;
    let mut b: usize = 0;
    let mut left: i32 = g.big_values as i32;
    let mut p = pos;
    let mut l = loaded;
    let mut kk: usize = 0;
    loop
        invariant
            ireg <= 3,
            out@.len() == old(out)@.len(),
            old(out)@.len() >= 576,
            kk <= 576,
            -128 <= left <= g.big_values,
            b <= 65,
            widths@.len() <= 64,
            pos + 0x4000_0000 + 16100 <= usize::MAX,
            pos <= p <= pos + 16000 * (g.big_values - left),
            l <= p + 40,
            target == big_regions(data@, pos as int, loaded as int, *g, widths@, 0, 0, g.big_values as int, 0, old(out)@),
            target == big_regions(data@, p as int, l as int, *g, widths@, ireg as int, b as int, left as int, kk as int, out@),
        decreases 3 - ireg,
    {
        if left <= 0 {
            return (p, l, kk, b, left, true);
        }
        if ireg >= 3 || g.table_select[ireg] >= 32 {
            return (p, l, kk, b, left, false);
        }
        let t = g.table_select[ireg] as usize;
        proof {
            lemma_codebooks(t as int);
        }
        let cb = CODEBOOK_START[t] as usize;
        let end = CODEBOOK_END[t] as usize;
        let lb = LINBITS[t] as u32;
        if b > 64 {
            return (p, l, kk, b, left, false);
        }
        let (p2, l2, k2, b2, left2, ok) = read_region_bands(
            data,
            out,
            p,
            l,
            cb,
            end,
            lb,
            widths,
            b,
            g.region_count[ireg] as i32,
            left,
            kk,
        );
        if !ok {
            return (p2, l2, k2, b2, left2, false);
        }
        ireg += 1;
        b = b2;
        left = left2;
        p = p2;
        l = l2;
        kk = k2;
    }
}


/// A count1 code word at `pos` in code book `tab`: the first four bits
/// select an entry; one without bit 3 links to a sub-table (its low two
/// bits give how many more bits select the entry, the entry over eight
/// where the sub-table starts). The leaf's low three bits give the code
/// word's length. Decoding fails where an entry lies outside the code book
/// or a leaf gives no length. The result is (the leaf, the position after
/// the code word, success).
pub open spec fn count1_word(data: Seq<u8>, loaded: int, pos: int, tab: Seq<u8>) -> (int, int, bool) {
    let i1 = peek(data, loaded, pos, 4) as int;
    if i1 >= tab.len() {
        (0, pos, false)
    } else {
        let l1 = tab[i1] as int;
        let linked = (l1 / 8) % 2 == 0;
        let i2 = l1 / 8 + peek(data, loaded, pos + 4, (l1 % 4) as nat);
        if linked && i2 >= tab.len() {
            (0, pos, false)
        } else {
            let leaf = if linked { tab[i2] as int } else { l1 };
            if leaf % 8 == 0 {
                (0, pos, false)
            } else {
                (leaf, pos + leaf % 8, true)
            }
        }
    }
}

/// Moves on by one pair in the bands: `np` less one pairs are left in the
/// current band; where none are, the next band begins. Decoding stops at a
/// band without lines (the end of the band table) or past the table. The
/// result is (the pairs left plus one, the next band, stop).
pub open spec fn next_pair(widths: Seq<u8>, sfb: int, np: int) -> (int, int, bool) {
    if np - 1 != 0 {
        (np - 1, sfb, false)
    } else if sfb < 0 || sfb >= widths.len() {
        (0, sfb, true)
    } else if widths[sfb] / 2 == 0 {
        (0, sfb + 1, true)
    } else {
        ((widths[sfb] / 2) as int, sfb + 1, false)
    }
}

/// A count1 value of line `k`: where its flag is set, 1 or -1 by the sign
/// bit at `pos`; otherwise the line is not written.
pub open spec fn count1_value(data: Seq<u8>, loaded: int, pos: int, flag: bool, k: int, out: Seq<i32>) -> (Seq<i32>, int) {
    if flag {
        let negative = peek(data, loaded, pos, 1) == 1;
        (out.update(k, if negative { -1i32 } else { 1i32 }), pos + 1)
    } else {
        (out, pos)
    }
}

/// The count1 region from line `k` on: quadruples of values whose code
/// words say which of the four are nonzero (flags in bits 7 to 4 of the
/// leaf), each pair of them within the bands, until a code word ends past
/// `limit` or the bands end; the bits are refilled after each quadruple.
/// Decoding also stops where a pair would pass line 576. The result is
/// (the lines, whether the region stayed within the 576 lines).
pub open spec fn count1_values(
    data: Seq<u8>,
    pos: int,
    loaded: int,
    tab: Seq<u8>,
    widths: Seq<u8>,
    sfb: int,
    np: int,
    limit: int,
    k: int,
    out: Seq<i32>,
) -> (Seq<i32>, bool)
    decreases (if pos <= limit { limit + 1 - pos } else { 0 }),
{
    let (leaf, p1, ok) = count1_word(data, loaded, pos, tab);
    if !ok || p1 > limit {
        (out, true)
    } else {
        let (np1, sfb1, stop1) = next_pair(widths, sfb, np);
        if stop1 {
            (out, true)
        } else if k < 0 || k + 2 > 576 {
            (out, false)
        } else {
            let (o1, q1) = count1_value(data, loaded, p1, (leaf / 128) % 2 == 1, k, out);
            let (o2, q2) = count1_value(data, loaded, q1, (leaf / 64) % 2 == 1, k + 1, o1);
            let (np2, sfb2, stop2) = next_pair(widths, sfb1, np1);
            if stop2 {
                (o2, true)
            } else if k + 4 > 576 {
                (o2, false)
            } else {
                let (o3, q3) = count1_value(data, loaded, q2, (leaf / 32) % 2 == 1, k + 2, o2);
                let (o4, q4) = count1_value(data, loaded, q3, (leaf / 16) % 2 == 1, k + 3, o3);
                count1_values(data, q4, refill(q4, loaded), tab, widths, sfb2, np2, limit, k + 4, o4)
            }
        }
    }
}

fn read_count1_word(data: &[u8], loaded: usize, pos: usize, tab: &[u8]) -> (r: (i32, usize, bool))
    requires
        pos + 20 <= usize::MAX,
        tab@.len() <= 64,
    ensures
        (r.0 as int, r.1 as int, r.2) == count1_word(data@, loaded as int, pos as int, tab@),
        pos <= r.1 <= pos + 7,
        r.2 ==> 0 <= r.0 < 256 && r.1 >= pos + 1,
{
    let i1 = peek_bits(data, loaded, pos, 4) as usize;
    if i1 >= tab.len() {
        return (0, pos, false);
    }
    let l1 = tab[i1];
    let linked = (l1 / 8) % 2 == 0;
    let more = peek_bits(data, loaded, pos + 4, (l1 % 4) as u32);
    proof {
        vstd::arithmetic::power2::lemma_pow2_strictly_increases((l1 % 4) as nat, 4);
        lemma2_to64();
    }
    let i2 = (l1 / 8) as usize + more as usize;
    if linked && i2 >= tab.len() {
        return (0, pos, false);
    }
    let leaf = if linked { tab[i2] } else { l1 };
    if leaf % 8 == 0 {
        return (0, pos, false);
    }
    (leaf as i32, pos + (leaf % 8) as usize, true)
}

fn next_pair_of(widths: &[u8], sfb: usize, np: i32) -> (r: (i32, usize, bool))
    requires
        1 <= np <= 200,
        sfb <= 65,
    ensures
        (r.0 as int, r.1 as int, r.2) == next_pair(widths@, sfb as int, np as int),
        r.1 <= sfb || r.1 <= widths@.len(),
        !r.2 ==> 1 <= r.0 <= 200,
{
    if np - 1 != 0 {
        (np - 1, sfb, false)
    } else if sfb >= widths.len() {
        (0, sfb, true)
    } else if widths[sfb] / 2 == 0 {
        (0, sfb + 1, true)
    } else {
        ((widths[sfb] / 2) as i32, sfb + 1, false)
    }
}

fn read_count1_value(data: &[u8], out: &mut [i32], loaded: usize, pos: usize, flag: bool, k: usize) -> (r: usize)
    requires
        k < old(out)@.len(),
        pos + 1 <= usize::MAX,
    ensures
        (final(out)@, r as int) == count1_value(data@, loaded as int, pos as int, flag, k as int, old(out)@),
        r <= pos + 1,
{
    if flag {
        let sign = peek_bits(data, loaded, pos, 1);
        out[k] = if sign == 1 { -1 } else { 1 };
        pos + 1
    } else {
        pos
    }
}


#[verifier::rlimit(40)]
fn read_count1(
    data: &[u8],
    out: &mut [i32],
    pos: usize,
    loaded: usize,
    tab: &[u8],
    widths: &[u8],
    sfb: usize,
    np: i32,
    limit: usize,
    k: usize,
)
    requires
        old(out)@.len() >= 576,
        k <= 576,
        1 <= np <= 200,
        sfb <= 65,
        tab@.len() <= 64,
        widths@.len() <= 64,
        pos + 100 <= usize::MAX,
        limit + 100 <= usize::MAX,
        loaded <= pos + 40,
    ensures
        final(out)@ == count1_values(data@, pos as int, loaded as int, tab@, widths@, sfb as int, np as int, limit as int, k as int, old(out)@).0,
{
    let ghost target = count1_values(data@, pos as int, loaded as int, tab@, widths@, sfb as int, np as int, limit as int, k as int, out@);
    let ghost top: int = if pos > limit { pos as int } else { limit as int };
    let mut p = pos;
    let mut l = loaded;
    let mut b = sfb;
    let mut n = np;
    let mut kk = k;
    loop
        invariant
            old(out)@.len() >= 576,
            out@.len() == old(out)@.len(),
            kk <= 576,
            1 <= n <= 200,
            b <= 65,
            tab@.len() <= 64,
            widths@.len() <= 64,
            top == (if pos > limit { pos as int } else { limit as int }),
            top + 100 <= usize::MAX,
            p <= top + 10,
            l <= p + 40,
            target == count1_values(data@, pos as int, loaded as int, tab@, widths@, sfb as int, np as int, limit as int, k as int, old(out)@),
            target == count1_values(data@, p as int, l as int, tab@, widths@, b as int, n as int, limit as int, kk as int, out@),
        decreases (if p <= limit { limit + 1 - p } else { 0 }),
    {
        let (leaf, p1, ok) = read_count1_word(data, l, p, tab);
        if !ok || p1 > limit {
            return;
        }
        let (n1, b1, stop1) = next_pair_of(widths, b, n);
        if stop1 || kk + 2 > 576 {
            return;
        }
        let q1 = read_count1_value(data, out, l, p1, (leaf / 128) % 2 == 1, kk);
        let q2 = read_count1_value(data, out, l, q1, (leaf / 64) % 2 == 1, kk + 1);
        let (n2, b2, stop2) = next_pair_of(widths, b1, n1);
        if stop2 || kk + 4 > 576 {
            return;
        }
        let q3 = read_count1_value(data, out, l, q2, (leaf / 32) % 2 == 1, kk + 2);
        let q4 = read_count1_value(data, out, l, q3, (leaf / 16) % 2 == 1, kk + 3);
        l = refill_to(q4, l);
        p = q4;
        b = b2;
        n = n2;
        kk += 4;
    }
}

/// The widths of the scale factor bands of a granule's band table, ending
/// with 0; none where the granule has no table.
pub open spec fn band_widths(g: GrInfo) -> Seq<u8> {
    match g.sfb_table {
        Some(SFBTable::Long(t)) => if t < 8 { G_SCF_LONG@[t as int]@ } else { Seq::empty() },
        Some(SFBTable::Short(t)) => if t < 8 { G_SCF_SHORT@[t as int]@ } else { Seq::empty() },
        Some(SFBTable::Mixed(t, _)) => if t < 8 { G_SCF_MIXED@[t as int]@ } else { Seq::empty() },
        None => Seq::empty(),
    }
}

/// The quantized values of a granule's lines whose Huffman data starts at
/// bit `pos`, written over `out`: the big values (`big_regions`), then,
/// where those decoded, the count1 region (`count1_values`) with the code
/// book that the granule selects, up to bit `limit`. Lines that no code
/// word reaches keep what `out` held. Bits are first loaded up to the end
/// of the fourth byte from `pos`'s byte.
pub open spec fn huffman_values(data: Seq<u8>, pos: int, g: GrInfo, limit: int, out: Seq<i32>) -> Seq<i32> {
    let widths = band_widths(g);
    let b = big_regions(data, pos, pos - pos % 8 + 32, g, widths, 0, 0, g.big_values as int, 0, out);
    if !b.6 {
        b.0
    } else {
        let tab = if g.count1_table != 0 { COUNT1_TAB33@ } else { COUNT1_TAB32@ };
        count1_values(data, b.1, b.2, tab, widths, b.4, 1 - b.5, limit, b.3, b.0).0
    }
}

/// Decodes the Huffman-coded values of one granule of one channel into the
/// first 576 entries of `dst` (see `huffman_values`), reading from the
/// reader's position, and leaves the reader at the end of the granule's
/// data, `layer3gr_limit`.
pub fn huffman(dst: &mut [i32], bs: &mut Bits, gr: &GrInfo, layer3gr_limit: usize)
    requires
        old(dst)@.len() >= 576,
        old(bs).position <= 0x1000_0000,
        layer3gr_limit <= 0x1000_0000,
    ensures
        final(dst)@ == huffman_values(old(bs).data@, old(bs).position as int, *gr, layer3gr_limit as int, old(dst)@),
        final(bs).position == layer3gr_limit,
        final(bs).data@ == old(bs).data@,
{
    let pos = bs.position;
    let loaded = pos - pos % 8 + 32;
    let long = G_SCF_LONG;
    let short = G_SCF_SHORT;
    let mixed = G_SCF_MIXED;
    let none: [u8; 0] = [];
    let widths: &[u8] = match gr.sfb_table {
        Some(SFBTable::Long(t)) => if t < 8 { &long[t as usize] } else { &none },
        Some(SFBTable::Short(t)) => if t < 8 { &short[t as usize] } else { &none },
        Some(SFBTable::Mixed(t, _)) => if t < 8 { &mixed[t as usize] } else { &none },
        None => &none,
    };
    assert(widths@ == band_widths(*gr));
    let (p, l, k, sfb, big, ok) = read_big_regions(bs.data, dst, pos, loaded, gr, widths);
    if ok {
        let t32 = COUNT1_TAB32;
        let t33 = COUNT1_TAB33;
        let tab: &[u8] = if gr.count1_table != 0 { &t33 } else { &t32 };
        read_count1(bs.data, dst, p, l, tab, widths, sfb, 1 - big, layer3gr_limit, k);
    }
    bs.position = layer3gr_limit;
}


proof fn lemma_walk_decodes(data: Seq<u8>, loaded: int, cb: int, end: int, pos: int, w: int, idx: int)
    requires
        links_forward(cb, end),
        cb <= idx < end <= 2164,
    ensures
        code_walk(data, loaded, cb, end, pos, w, idx).2,
    decreases end - idx,
{
    reveal(links_forward);
    let leaf = tab_entry(idx);
    if leaf < 0 {
        let pos2 = pos + w;
        let w2 = leaf % 8;
        lemma_peek_bound(data, loaded, pos2, w2 as nat);
        let idx2 = cb - leaf / 8 + peek(data, loaded, pos2, w2 as nat);
        lemma_walk_decodes(data, loaded, cb, end, pos2, w2, idx2);
    }
}

/// Every big-value code word decodes: whatever the bits, the walk through
/// the code book of any of the 32 tables reaches a leaf.
pub proof fn lemma_code_words_decode(data: Seq<u8>, loaded: int, t: int, pos: int)
    requires
        0 <= t < 32,
    ensures
        code_word(data, loaded, codebook_start(t), codebook_end(t), pos).2,
{
    lemma_codebook_links(t);
    lemma_codebooks(t);
    lemma_peek_bound(data, loaded, pos, 5);
    lemma2_to64();
    lemma_walk_decodes(data, loaded, codebook_start(t), codebook_end(t), pos, 5, codebook_start(t) + peek(data, loaded, pos, 5));
}

/// Every count1 code word decodes, in either code book: whatever the bits,
/// it selects a leaf that gives its length.
pub proof fn lemma_count1_words_decode(data: Seq<u8>, loaded: int, pos: int, table_b: bool)
    ensures
        count1_word(data, loaded, pos, if table_b { COUNT1_TAB33@ } else { COUNT1_TAB32@ }).2,
{
    lemma_count1_tables();
    lemma_peek_bound(data, loaded, pos, 4);
    lemma2_to64();
    let tab = if table_b { COUNT1_TAB33@ } else { COUNT1_TAB32@ };
    let i1 = peek(data, loaded, pos, 4) as int;
    let l1 = tab[i1] as int;
    lemma_peek_bound(data, loaded, pos + 4, (l1 % 4) as nat);
}

/// The bands of `widths` from band `i` on, `acc` lines in: each has an even
/// width of at least two, they fill the 576 lines exactly, and a band of
/// width 0 ends the table there.
pub open spec fn bands_fill(widths: Seq<u8>, i: int, acc: int) -> bool
    decreases (if acc < 576 { 576 - acc } else { 0 }),
{
    if acc >= 576 {
        acc == 576 && 0 <= i < widths.len() && widths[i] == 0
    } else if 0 <= i < widths.len() && widths[i] >= 2 && widths[i] % 2 == 0 {
        bands_fill(widths, i + 1, acc + widths[i])
    } else {
        false
    }
}

/// The bands of every band table fill the 576 lines of a granule.
proof fn lemma_band_tables_fill(g: GrInfo)
    requires
        match g.sfb_table {
            Some(SFBTable::Long(t)) => t < 8,
            Some(SFBTable::Short(t)) => t < 8,
            Some(SFBTable::Mixed(t, _)) => t < 8,
            None => false,
        },
    ensures
        bands_fill(band_widths(g), 0, 0),
        band_widths(g).len() <= 40,
{
    reveal_with_fuel(bands_fill, 41);
}

proof fn lemma_band_pairs_ok(data: Seq<u8>, pos: int, loaded: int, t: int, n: int, k: int, out: Seq<i32>)
    requires
        0 <= t < 32,
        0 <= n,
        0 <= k,
        k + 2 * n <= 576,
    ensures
        ({
            let r = band_pairs(data, pos, loaded, codebook_start(t), codebook_end(t), linbits_of(t), n, k, out);
            r.4 && r.3 == k + 2 * n
        }),
    decreases n,
{
    if n > 0 {
        lemma_code_words_decode(data, loaded, t, pos);
        let r = big_pair(data, loaded, pos, codebook_start(t), codebook_end(t), linbits_of(t));
        lemma_band_pairs_ok(data, r.2, r.3, t, n - 1, k + 2, out.update(k, r.0 as i32).update(k + 1, r.1 as i32));
    }
}

proof fn lemma_region_bands_ok(
    data: Seq<u8>,
    pos: int,
    loaded: int,
    t: int,
    widths: Seq<u8>,
    sfb: int,
    cnt: int,
    big: int,
    k: int,
    out: Seq<i32>,
)
    requires
        0 <= t < 32,
        bands_fill(widths, sfb, k),
        0 <= k,
        0 < big,
        k + 2 * big <= 576,
        0 <= cnt,
    ensures
        ({
            let r = region_bands(data, pos, loaded, codebook_start(t), codebook_end(t), linbits_of(t), widths, sfb, cnt, big, k, out);
            &&& r.6
            &&& r.5 > 0 ==> bands_fill(widths, r.4, r.3) && 0 <= r.3 && r.3 + 2 * r.5 <= 576 && r.4 == sfb + cnt + 1
            &&& r.5 <= 0 ==> bands_fill(widths, r.4, r.3 - 2 * r.5) && 0 <= r.3 && r.3 - 2 * r.5 <= 576
        }),
    decreases widths.len() - sfb,
{
    let w = widths[sfb] as int;
    let np = widths[sfb] / 2;
    let n = if big < np { big } else { np as int };
    lemma_band_pairs_ok(data, pos, loaded, t, n, k, out);
    let r = band_pairs(data, pos, loaded, codebook_start(t), codebook_end(t), linbits_of(t), n, k, out);
    reveal_with_fuel(bands_fill, 2);
    assert(0 <= sfb < widths.len() && widths[sfb] >= 2 && widths[sfb] % 2 == 0);
    assert(bands_fill(widths, sfb + 1, k + w));
    assert(k + w <= 576);
    assert(w == 2 * np);
    if big - np > 0 && cnt - 1 >= 0 {
        lemma_region_bands_ok(data, r.1, r.2, t, widths, sfb + 1, cnt - 1, big - np, r.3, r.0);
    }
}

proof fn lemma_fill_bound(widths: Seq<u8>, i: int, acc: int)
    requires
        bands_fill(widths, i, acc),
        acc < 576,
    ensures
        0 <= i < widths.len(),
{
}

proof fn lemma_big_regions_ok(
    data: Seq<u8>,
    pos: int,
    loaded: int,
    g: GrInfo,
    widths: Seq<u8>,
    ireg: int,
    sfb: int,
    big: int,
    k: int,
    out: Seq<i32>,
)
    requires
        g.table_select[0] < 32 && g.table_select[1] < 32 && g.table_select[2] < 32,
        g.region_count[1] == 255 || g.region_count[2] == 255,
        widths.len() <= 40,
        0 <= ireg,
        big > 0 ==> ireg <= 1 || (ireg == 2 && g.region_count[2] == 255),
        big > 0 ==> bands_fill(widths, sfb, k) && 0 <= k && k + 2 * big <= 576,
        big <= 0 ==> bands_fill(widths, sfb, k - 2 * big) && 0 <= k && k - 2 * big <= 576,
    ensures
        ({
            let r = big_regions(data, pos, loaded, g, widths, ireg, sfb, big, k, out);
            &&& r.6
            &&& r.5 <= 0
            &&& bands_fill(widths, r.4, r.3 - 2 * r.5) && 0 <= r.3 && r.3 - 2 * r.5 <= 576
        }),
    decreases 3 - ireg,
{
    if big > 0 {
        let t = g.table_select[ireg] as int;
        let c = g.region_count[ireg] as int;
        lemma_region_bands_ok(data, pos, loaded, t, widths, sfb, c, big, k, out);
        let r = region_bands(data, pos, loaded, codebook_start(t), codebook_end(t), linbits_of(t), widths, sfb, c, big, k, out);
        if r.5 > 0 {
            lemma_fill_bound(widths, r.4, r.3);
        }
        lemma_big_regions_ok(data, r.1, r.2, g, widths, ireg + 1, r.4, r.5, r.3, r.0);
    }
}

/// What the Huffman decoding needs of a granule to decode its big values in
/// full: at most 288 pairs of them, table numbers below 32, a second or
/// third region of up to 255 more bands, and a band table.
pub open spec fn huffman_ready(g: GrInfo) -> bool {
    &&& g.big_values <= 288
    &&& g.table_select[0] < 32 && g.table_select[1] < 32 && g.table_select[2] < 32
    &&& (g.region_count[1] == 255 || g.region_count[2] == 255)
    &&& match g.sfb_table {
        Some(SFBTable::Long(t)) => t < 8,
        Some(SFBTable::Short(t)) => t < 8,
        Some(SFBTable::Mixed(t, _)) => t < 8,
        None => false,
    }
}

proof fn lemma_count1_in_bands(
    data: Seq<u8>,
    pos: int,
    loaded: int,
    tab: Seq<u8>,
    widths: Seq<u8>,
    sfb: int,
    np: int,
    limit: int,
    k: int,
    out: Seq<i32>,
)
    requires
        np >= 1,
        k >= 0,
        k + 2 * (np - 1) <= 576,
        bands_fill(widths, sfb, k + 2 * (np - 1)),
    ensures
        count1_values(data, pos, loaded, tab, widths, sfb, np, limit, k, out).1,
    decreases (if pos <= limit { limit + 1 - pos } else { 0 }),
{
    reveal_with_fuel(bands_fill, 2);
    let (leaf, p1, ok) = count1_word(data, loaded, pos, tab);
    let acc = k + 2 * (np - 1);
    if ok && p1 <= limit {
        let (np1, sfb1, stop1) = next_pair(widths, sfb, np);
        if !stop1 {
            // the first pair lies in band `sfb1 - 1`, which ends at line `acc1`
            let acc1 = k + 2 * np1;
            assert(acc1 <= 576 && bands_fill(widths, sfb1, acc1)) by {
                if np != 1 {
                    assert(acc1 == acc);
                } else {
                    assert(acc < 576);
                    assert(acc1 == acc + widths[sfb]);
                }
            }
            let (o1, q1) = count1_value(data, loaded, p1, (leaf / 128) % 2 == 1, k, out);
            let (o2, q2) = count1_value(data, loaded, q1, (leaf / 64) % 2 == 1, k + 1, o1);
            let (np2, sfb2, stop2) = next_pair(widths, sfb1, np1);
            if !stop2 {
                let acc2 = k + 2 + 2 * np2;
                assert(acc2 <= 576 && bands_fill(widths, sfb2, acc2)) by {
                    if np1 != 1 {
                        assert(acc2 == acc1);
                    } else {
                        assert(acc1 < 576);
                        assert(acc2 == acc1 + widths[sfb1]);
                    }
                }
                let (o3, q3) = count1_value(data, loaded, q2, (leaf / 32) % 2 == 1, k + 2, o2);
                let (o4, q4) = count1_value(data, loaded, q3, (leaf / 16) % 2 == 1, k + 3, o3);
                lemma_count1_in_bands(data, q4, refill(q4, loaded), tab, widths, sfb2, np2, limit, k + 4, o4);
            }
        }
    }
}

/// The Huffman decoding of a granule that meets `huffman_ready` decodes
/// its big values in full and keeps its count1 values within the 576
/// lines of the granule: the only stops are those of the bitstream (the
/// end of the granule's bits, or of the band table).
pub proof fn lemma_values_stay_in_granule(data: Seq<u8>, pos: int, g: GrInfo, limit: int, out: Seq<i32>)
    requires
        huffman_ready(g),
    ensures
        ({
            let widths = band_widths(g);
            let b = big_regions(data, pos, pos - pos % 8 + 32, g, widths, 0, 0, g.big_values as int, 0, out);
            let tab = if g.count1_table != 0 { COUNT1_TAB33@ } else { COUNT1_TAB32@ };
            &&& b.6
            &&& count1_values(data, b.1, b.2, tab, widths, b.4, 1 - b.5, limit, b.3, b.0).1
        }),
{
    lemma_band_tables_fill(g);
    let widths = band_widths(g);
    let loaded = pos - pos % 8 + 32;
    lemma_big_regions_ok(data, pos, loaded, g, widths, 0, 0, g.big_values as int, 0, out);
    let b = big_regions(data, pos, loaded, g, widths, 0, 0, g.big_values as int, 0, out);
    let tab = if g.count1_table != 0 { COUNT1_TAB33@ } else { COUNT1_TAB32@ };
    lemma_count1_in_bands(data, b.1, b.2, tab, widths, b.4, 1 - b.5, limit, b.3, b.0);
}
} // verus!
