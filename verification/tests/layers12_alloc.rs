use minimp3port::bits::Bits;
use minimp3port::layers12::{dequantize_granule, read_scale_info, ScaleInfo};

fn fresh() -> ScaleInfo {
    ScaleInfo {
        scf: [0; 192],
        scf_alloc: [0; 64],
        total_bands: 0,
        stereo_bands: 0,
        bitalloc: [0; 64],
        scfcod: [0; 64],
    }
}

fn put_bits(buf: &mut [u8], pos: &mut usize, value: u32, n: u32) {
    for k in (0..n).rev() {
        if (value >> k) & 1 == 1 {
            buf[*pos / 8] |= 0x80 >> (*pos % 8);
        }
        *pos += 1;
    }
}

// MPEG 1 layer I, 32 kbps, 44100 Hz, mono.
const L1_MONO: [u8; 4] = [0xFF, 0xFF, 0x10, 0xC0];
// MPEG 2 layer II, 64 kbps, 22050 Hz, mono.
const L2_MPEG2_MONO: [u8; 4] = [0xFF, 0xF5, 0x80, 0xC0];
// MPEG 1 layer II, 256 kbps, 48000 Hz, stereo.
const L2_STEREO: [u8; 4] = [0xFF, 0xFD, 0xC4, 0x04];
// MPEG 1 layer II, 48 kbps, 32000 Hz, joint stereo with 8 stereo bands.
const L2_LOW: [u8; 4] = [0xFF, 0xFD, 0x38, 0x50];

#[test]
fn layer1_plain_samples() {
    let mut data = [0u8; 40];
    let mut p = 0;
    put_bits(&mut data, &mut p, 1, 4); // band 0: allocation code 2
    p = 128;
    put_bits(&mut data, &mut p, 42, 6); // its scale factor
    put_bits(&mut data, &mut p, 0b00_11_01_10, 8); // four 2-bit samples
    let mut bs = Bits::new(&data);
    let mut sci = fresh();
    read_scale_info(&L1_MONO, &mut bs, &mut sci);
    assert_eq!(sci.total_bands, 32);
    assert_eq!(sci.stereo_bands, 0);
    assert_eq!(sci.bitalloc[0], 2);
    assert_eq!(sci.bitalloc[1], 0);
    assert!(sci.bitalloc[2..].iter().all(|&b| b == 0));
    assert_eq!(sci.scfcod[0], 2);
    assert_eq!(sci.scfcod[1], 6);
    assert_eq!(&sci.scf[..3], &[42, 42, 42]);
    assert_eq!(sci.scf_alloc[0], 2);
    assert_eq!(bs.position, 134);

    let mut grbuf = [0i32; 1152];
    assert_eq!(dequantize_granule(&mut grbuf, &mut bs, &sci, 1), 4);
    assert_eq!(&grbuf[..4], &[-1, 2, 0, 1]);
    assert!(grbuf[4..].iter().all(|&v| v == 0));
    assert_eq!(bs.position, 142);
}

#[test]
fn layer2_grouped_samples() {
    let mut data = [0u8; 40];
    let mut p = 0;
    put_bits(&mut data, &mut p, 1, 4); // band 0: grouped, 3 levels
    p = 75;
    put_bits(&mut data, &mut p, 2, 2); // one scale factor for all three parts
    put_bits(&mut data, &mut p, 7, 6);
    put_bits(&mut data, &mut p, 19, 5); // 19 = 1 + 0 * 3 + 2 * 9
    let mut bs = Bits::new(&data);
    let mut sci = fresh();
    read_scale_info(&L2_MPEG2_MONO, &mut bs, &mut sci);
    assert_eq!(sci.total_bands, 30);
    assert_eq!(sci.bitalloc[0], 17);
    assert_eq!(sci.scfcod[0], 2);
    assert_eq!(&sci.scf[..3], &[7, 7, 7]);
    assert_eq!(bs.position, 83);

    let mut grbuf = [0i32; 1152];
    assert_eq!(dequantize_granule(&mut grbuf, &mut bs, &sci, 3), 12);
    assert_eq!(&grbuf[..3], &[0, -1, 1]);
    assert_eq!(&grbuf[3..12], &[-1; 9]);
    assert_eq!(bs.position, 83 + 4 * 5);
}

#[test]
fn right_channel_samples_go_576_on() {
    let mut data = [0u8; 200];
    let mut p = 0;
    put_bits(&mut data, &mut p, 2, 4); // band 0 left: 3 bits per sample
    put_bits(&mut data, &mut p, 3, 4); // band 0 right: 4 bits per sample
    let mut sci = fresh();
    let mut bs = Bits::new(&data);
    read_scale_info(&L2_STEREO, &mut bs, &mut sci);
    assert_eq!(sci.total_bands, 27);
    assert_eq!(sci.stereo_bands, 27);
    assert_eq!(sci.bitalloc[0], 3);
    assert_eq!(sci.bitalloc[1], 4);
    let mut grbuf = [7i32; 1152];
    dequantize_granule(&mut grbuf, &mut bs, &sci, 3);
    // all-zero samples: 0 - 3 for 3 bits, 0 - 7 for 4 bits
    assert_eq!(&grbuf[..12], &[-3; 12]);
    assert_eq!(&grbuf[576..588], &[-7; 12]);
    assert_eq!(grbuf[12], 7);
    assert_eq!(grbuf[18], 7);
}

#[test]
fn low_rate_table_and_joint_stereo_bands() {
    let data = [0xFFu8; 200];
    let mut sci = fresh();
    let mut bs = Bits::new(&data);
    read_scale_info(&L2_LOW, &mut bs, &mut sci);
    assert_eq!(sci.total_bands, 12);
    assert_eq!(sci.stereo_bands, 8);
    // bands past the stereo ones carry no right channel
    for i in 8..12 {
        assert_eq!(sci.bitalloc[2 * i + 1], 0);
        assert_ne!(sci.bitalloc[2 * i], 0);
    }
    for i in 0..8 {
        assert_ne!(sci.bitalloc[2 * i + 1], 0);
    }
}
