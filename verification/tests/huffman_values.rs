use minimp3port::bits::Bits;
use minimp3port::huffman::huffman;
use minimp3port::huffman_tables::{
    CODEBOOK_START, COUNT1_TAB32, COUNT1_TAB33, HUFFMAN_TABS, LINBITS,
};
use minimp3port::layer3::{GrInfo, SFBTable, G_SCF_LONG, G_SCF_MIXED, G_SCF_SHORT};

/// A decoder that keeps its look-ahead in a 32-bit word, filled a byte at a
/// time; the bytes past the data read as zero.
struct Cached<'a> {
    data: &'a [u8],
    next: usize,
    sh: i32,
    cache: u32,
}

impl<'a> Cached<'a> {
    fn new(data: &'a [u8], pos: usize) -> Self {
        let mut c = Cached { data, next: pos / 8, sh: 0, cache: 0 };
        let mut word: u32 = 0;
        for i in 0..4 {
            word = (word << 8) | c.byte(c.next + i);
        }
        c.cache = word << (pos & 7);
        c.sh = (pos & 7) as i32 - 8;
        c.next += 4;
        c
    }
    fn byte(&self, i: usize) -> u32 {
        if i < self.data.len() {
            self.data[i] as u32
        } else {
            0
        }
    }
    fn peek(&self, n: u32) -> u32 {
        if n == 0 {
            0
        } else {
            self.cache >> (32 - n)
        }
    }
    fn flush(&mut self, n: u32) {
        self.cache <<= n;
        self.sh += n as i32;
    }
    fn check(&mut self) {
        while self.sh >= 0 {
            self.cache |= self.byte(self.next) << self.sh;
            self.next += 1;
            self.sh -= 8;
        }
    }
    fn pos(&self) -> i64 {
        self.next as i64 * 8 - 24 + self.sh as i64
    }
}

fn widths_of(g: &GrInfo) -> &'static [u8] {
    match g.sfb_table {
        Some(SFBTable::Long(t)) => &G_SCF_LONG[t as usize],
        Some(SFBTable::Short(t)) => &G_SCF_SHORT[t as usize],
        Some(SFBTable::Mixed(t, _)) => &G_SCF_MIXED[t as usize],
        None => &[],
    }
}

fn expected(data: &[u8], pos: usize, g: &GrInfo, limit: usize) -> Vec<i32> {
    let widths = widths_of(g);
    let mut r = Cached::new(data, pos);
    let mut dst = vec![0i32; 576];
    let mut big = g.big_values as i32;
    let mut ireg = 0;
    let mut sfb = 0;
    let mut k = 0;
    while big > 0 {
        let t = g.table_select[ireg] as usize;
        let mut sfb_cnt = g.region_count[ireg] as i32;
        ireg += 1;
        let cb = CODEBOOK_START[t] as i64;
        let linbits = LINBITS[t] as u32;
        loop {
            let np = (widths[sfb] / 2) as i32;
            sfb += 1;
            let mut pairs = if big < np { big } else { np };
            loop {
                let mut w = 5;
                let mut leaf = HUFFMAN_TABS[(cb + r.peek(w) as i64) as usize] as i32;
                while leaf < 0 {
                    r.flush(w);
                    w = (leaf & 7) as u32;
                    leaf = HUFFMAN_TABS[(cb + r.peek(w) as i64 - (leaf >> 3) as i64) as usize] as i32;
                }
                r.flush((leaf >> 8) as u32);
                for _ in 0..2 {
                    let mut lsb = leaf & 15;
                    if lsb == 15 && linbits != 0 {
                        lsb += r.peek(linbits) as i32;
                        r.flush(linbits);
                        r.check();
                        dst[k] = if (r.cache as i32) < 0 { -lsb } else { lsb };
                    } else {
                        dst[k] = if lsb == 0 {
                            0
                        } else if r.cache >> 31 == 1 {
                            -lsb
                        } else {
                            lsb
                        };
                    }
                    r.flush(if lsb != 0 { 1 } else { 0 });
                    k += 1;
                    leaf >>= 4;
                }
                r.check();
                pairs -= 1;
                if pairs == 0 {
                    break;
                }
            }
            big -= np;
            if big <= 0 {
                break;
            }
            sfb_cnt -= 1;
            if sfb_cnt < 0 {
                break;
            }
        }
    }
    let mut np = 1 - big;
    let cb1: &[u8] = if g.count1_table != 0 { &COUNT1_TAB33 } else { &COUNT1_TAB32 };
    'quads: loop {
        let mut leaf = cb1[r.peek(4) as usize] as i32;
        if leaf & 8 == 0 {
            leaf = cb1[((leaf >> 3) as u32 + ((r.cache << 4) >> (32 - (leaf & 3)))) as usize] as i32;
        }
        r.flush((leaf & 7) as u32);
        if r.pos() > limit as i64 {
            break;
        }
        for half in 0..2 {
            np -= 1;
            if np == 0 {
                np = (widths[sfb] / 2) as i32;
                sfb += 1;
                if np == 0 {
                    break 'quads;
                }
            }
            for j in 0..2 {
                let bit = 128 >> (2 * half + j);
                if leaf & bit != 0 {
                    dst[k + 2 * half + j] = if (r.cache as i32) < 0 { -1 } else { 1 };
                    r.flush(1);
                }
            }
        }
        r.check();
        k += 4;
    }
    dst
}

fn actual(data: &[u8], pos: usize, g: &GrInfo, limit: usize) -> (Vec<i32>, usize) {
    let mut out = vec![0i32; 576];
    let mut bs = Bits::new_with_pos(data, pos);
    huffman(&mut out, &mut bs, g, limit);
    (out, bs.position)
}

struct Lcg(u64);

impl Lcg {
    fn next(&mut self) -> u32 {
        self.0 = self.0.wrapping_mul(6364136223846793005).wrapping_add(1442695040888963407);
        (self.0 >> 33) as u32
    }
    fn below(&mut self, n: u32) -> u32 {
        self.next() % n
    }
}

fn random_granule(rng: &mut Lcg) -> GrInfo {
    let mut g = GrInfo::new();
    let sr = rng.below(8) as u8;
    g.big_values = rng.below(289) as u16;
    g.table_select = [rng.below(32) as u8, rng.below(32) as u8, rng.below(32) as u8];
    g.count1_table = rng.below(2) as u8;
    match rng.below(4) {
        0 => {
            g.sfb_table = Some(SFBTable::Short(sr));
            g.region_count = [8, 255, 0];
        }
        1 => {
            g.sfb_table = Some(SFBTable::Mixed(sr, 8));
            g.region_count = [7, 255, 0];
        }
        _ => {
            g.sfb_table = Some(SFBTable::Long(sr));
            g.region_count = [rng.below(16) as u8, rng.below(8) as u8, 255];
        }
    }
    g
}

#[test]
fn agrees_with_a_cached_reader_on_random_data() {
    let mut rng = Lcg(0x5eed);
    for _ in 0..3000 {
        let len = 1 + rng.below(700) as usize;
        let data: Vec<u8> = (0..len).map(|_| rng.next() as u8).collect();
        let g = random_granule(&mut rng);
        let pos = rng.below(64) as usize;
        let limit = pos + rng.below(5000) as usize;
        let (out, end) = actual(&data, pos, &g, limit);
        assert_eq!(out, expected(&data, pos, &g, limit));
        assert_eq!(end, limit);
    }
}

#[test]
fn sparse_data_agrees_too() {
    let mut rng = Lcg(42);
    for _ in 0..2000 {
        let len = 1 + rng.below(400) as usize;
        let data: Vec<u8> = (0..len)
            .map(|_| if rng.below(4) == 0 { rng.next() as u8 } else { 0 })
            .collect();
        let g = random_granule(&mut rng);
        let pos = rng.below(16) as usize;
        let limit = pos + rng.below(3000) as usize;
        let (out, _) = actual(&data, pos, &g, limit);
        assert_eq!(out, expected(&data, pos, &g, limit));
    }
}

#[test]
fn one_bit_zero_pairs_of_table_1() {
    // table 1 codes (0, 0) as a single 1 bit
    let data = [0xFFu8; 8];
    let mut g = GrInfo::new();
    g.sfb_table = Some(SFBTable::Long(0));
    g.big_values = 3;
    g.table_select = [1, 1, 1];
    g.region_count = [15, 7, 255];
    let mut out = vec![9i32; 576];
    let mut bs = Bits::new(&data);
    huffman(&mut out, &mut bs, &g, 3);
    assert_eq!(&out[..6], &[0, 0, 0, 0, 0, 0]);
    assert_eq!(out[6], 9);
    assert_eq!(bs.position, 3);
}

#[test]
fn table_1_small_values_with_signs() {
    // table 1: "001" codes (0, 1) ... checked against the cached reader
    let data = [0b0011_0100u8, 0b1100_0000, 0, 0];
    let mut g = GrInfo::new();
    g.sfb_table = Some(SFBTable::Long(0));
    g.big_values = 2;
    g.table_select = [1, 1, 1];
    g.region_count = [15, 7, 255];
    let (out, _) = actual(&data, 0, &g, 12);
    assert_eq!(out, expected(&data, 0, &g, 12));
    assert!(out[..4].iter().any(|&v| v != 0));
}

#[test]
fn count1_quadruples_of_table_b() {
    // table B: four bits, inverted; "1110" flags the last value only
    let data = [0b1110_1000u8, 0, 0, 0];
    let mut g = GrInfo::new();
    g.sfb_table = Some(SFBTable::Long(0));
    g.count1_table = 1;
    let mut out = vec![0i32; 576];
    let mut bs = Bits::new(&data);
    huffman(&mut out, &mut bs, &g, 5);
    assert_eq!(&out[..4], &[0, 0, 0, -1]);
    assert_eq!(bs.position, 5);
    // the same code word ending past the limit decodes nothing
    let mut out = vec![0i32; 576];
    let mut bs = Bits::new(&data);
    huffman(&mut out, &mut bs, &g, 3);
    assert!(out.iter().all(|&v| v == 0));
}
