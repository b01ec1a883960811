use minimp3port::bits::Bits;
use minimp3port::decoder::StreamState;
use minimp3port::layer3::{
    decode_scalefactors, prepare_main_data, read_side_info, restore_reservoir, save_reservoir, GrInfo,
    SFBTable,
};

// MPEG 1 layer III, 128 kbps, 44100 Hz, joint stereo (mid/side).
const L3: [u8; 4] = [0xFF, 0xFB, 0x90, 0x64];
// The same, mono.
const L3_MONO: [u8; 4] = [0xFF, 0xFB, 0x90, 0xC4];

/// Writes `n` bits of `value` at bit `pos`, most significant first.
fn put(buf: &mut [u8], pos: &mut usize, value: u32, n: u32) {
    for k in (0..n).rev() {
        let bit = (value >> k) & 1;
        if bit == 1 {
            buf[*pos / 8] |= 0x80 >> (*pos % 8);
        }
        *pos += 1;
    }
}

#[test]
fn zero_side_info() {
    let body = [0u8; 100];
    let mut bs = Bits::new(&body);
    let mut gr = [GrInfo::new(); 4];
    assert_eq!(read_side_info(&mut bs, &mut gr, &L3), 0);
    // 9 + 3 + 8 bits, then four granules of 59 bits
    assert_eq!(bs.position, 256);
    for g in gr.iter() {
        assert_eq!(g.big_values, 0);
        assert!(matches!(g.sfb_table, Some(SFBTable::Long(5))));
        assert_eq!(g.region_count, [0, 0, 255]);
    }
}

#[test]
fn mono_side_info_is_shorter() {
    let body = [0u8; 100];
    let mut bs = Bits::new(&body);
    let mut gr = [GrInfo::new(); 4];
    assert_eq!(read_side_info(&mut bs, &mut gr, &L3_MONO), 0);
    // 9 + 5 + 4 bits, then two granules of 59 bits
    assert_eq!(bs.position, 136);
}

#[test]
fn main_data_begin_and_granule_fields() {
    let mut body = [0u8; 100];
    let mut p = 0;
    put(&mut body, &mut p, 5, 9); // main data begins 5 bytes back
    put(&mut body, &mut p, 0, 3);
    put(&mut body, &mut p, 0b1010_0101, 8); // scale factor selection
    // granule 0, channel 0
    put(&mut body, &mut p, 100, 12); // part 2 and 3 length
    put(&mut body, &mut p, 288, 9); // big values
    put(&mut body, &mut p, 210, 8); // global gain
    put(&mut body, &mut p, 11, 4); // scale factor compression
    put(&mut body, &mut p, 1, 1); // window switching
    put(&mut body, &mut p, 2, 2); // short blocks
    put(&mut body, &mut p, 0, 1); // not mixed
    put(&mut body, &mut p, 7, 5);
    put(&mut body, &mut p, 9, 5);
    put(&mut body, &mut p, 1, 3);
    put(&mut body, &mut p, 2, 3);
    put(&mut body, &mut p, 3, 3);
    put(&mut body, &mut p, 1, 1); // preflag
    put(&mut body, &mut p, 1, 1); // scale factor scale
    put(&mut body, &mut p, 0, 1); // count1 table
    let mut bs = Bits::new(&body);
    let mut gr = [GrInfo::new(); 4];
    assert_eq!(read_side_info(&mut bs, &mut gr, &L3), 5);
    let g = gr[0];
    assert_eq!(g.part_23_length, 100);
    assert_eq!(g.big_values, 288);
    assert_eq!(g.global_gain, 210);
    assert_eq!(g.scalefac_compress, 11);
    assert_eq!(g.block_type, 2);
    assert!(!g.mixed_block);
    assert!(matches!(g.sfb_table, Some(SFBTable::Short(5))));
    assert_eq!(g.table_select, [7, 9, 0]);
    assert_eq!(g.region_count, [8, 255, 0]);
    assert_eq!(g.subblock_gain, [1, 2, 3]);
    assert!(g.preflag);
    assert_eq!(g.scalefac_scale, 1);
    assert_eq!(g.count1_table, 0);
    // the first granule takes no selection bits; its short blocks clear
    // those of the first channel in the second granule
    assert_eq!(g.scfsi, 0);
    assert_eq!(gr[1].scfsi, 0);
    assert_eq!(gr[2].scfsi, 0);
    assert_eq!(gr[3].scfsi, 0b0101);
}

#[test]
fn selection_bits_go_to_the_second_granule() {
    let mut body = [0u8; 100];
    let mut p = 12;
    put(&mut body, &mut p, 0b1010_0101, 8);
    let mut bs = Bits::new(&body);
    let mut gr = [GrInfo::new(); 4];
    assert_eq!(read_side_info(&mut bs, &mut gr, &L3), 0);
    assert_eq!(gr[0].scfsi, 0);
    assert_eq!(gr[1].scfsi, 0);
    assert_eq!(gr[2].scfsi, 0b1010);
    assert_eq!(gr[3].scfsi, 0b0101);
}

#[test]
fn too_many_big_values_are_refused() {
    let mut body = [0u8; 100];
    let mut p = 20 + 12;
    put(&mut body, &mut p, 289, 9);
    let mut bs = Bits::new(&body);
    let mut gr = [GrInfo::new(); 4];
    assert_eq!(read_side_info(&mut bs, &mut gr, &L3), -1);
}

#[test]
fn main_data_past_the_reservoir_is_refused() {
    let mut body = [0u8; 40];
    let mut p = 0;
    put(&mut body, &mut p, 0, 9);
    let mut p = 20;
    put(&mut body, &mut p, 4095, 12);
    let mut bs = Bits::new(&body);
    let mut gr = [GrInfo::new(); 4];
    assert_eq!(read_side_info(&mut bs, &mut gr, &L3), -1);
}

#[test]
fn reservoir_keeps_the_unread_bytes() {
    let mut state = StreamState::new();
    let main: Vec<u8> = (1..=10).collect();
    // 20 bits read: the third byte was started, so it is dropped
    save_reservoir(&mut state, &main, 20);
    assert_eq!(state.reserv, 7);
    assert_eq!(&state.reserv_buf[..7], &[4, 5, 6, 7, 8, 9, 10]);
}

#[test]
fn reservoir_keeps_at_most_511_bytes() {
    let mut state = StreamState::new();
    let main: Vec<u8> = (0..600).map(|i| (i % 251) as u8).collect();
    save_reservoir(&mut state, &main, 0);
    assert_eq!(state.reserv, 511);
    assert_eq!(&state.reserv_buf[..], &main[89..]);
}

#[test]
fn restored_main_data_starts_in_the_reservoir() {
    let mut state = StreamState::new();
    let main: Vec<u8> = (1..=10).collect();
    save_reservoir(&mut state, &main, 24);
    let frame = [20u8, 21, 22];
    let bs = Bits::new_with_pos(&frame, 8);
    let mut buf = [0xEEu8; 2815];
    let (n, complete) = restore_reservoir(&state, &bs, 3, &mut buf);
    assert!(complete);
    assert_eq!(&buf[..n], &[8, 9, 10, 21, 22]);
    assert_eq!(buf[n], 0xEE);
    let (n, complete) = restore_reservoir(&state, &bs, 9, &mut buf);
    assert!(!complete);
    assert_eq!(&buf[..n], &[4, 5, 6, 7, 8, 9, 10, 21, 22]);
    let (n, complete) = restore_reservoir(&state, &bs, 0, &mut buf);
    assert!(complete);
    assert_eq!(&buf[..n], &[21, 22]);
    let mid = Bits::new_with_pos(&frame, 9);
    let (n, complete) = restore_reservoir(&state, &mid, 0, &mut buf);
    assert!(complete);
    assert_eq!(&buf[..n], &[21]);
}

#[test]
fn what_is_saved_comes_back() {
    let mut state = StreamState::new();
    let main: Vec<u8> = (0..40).collect();
    save_reservoir(&mut state, &main, 80);
    let kept = state.reserv as usize;
    assert_eq!(kept, 30);
    let frame = [0xAAu8; 4];
    let bs = Bits::new(&frame);
    for back in 0..=kept {
        let mut buf = [0u8; 2815];
        let (n, complete) = restore_reservoir(&state, &bs, back as i32, &mut buf);
        let data = &buf[..n];
        assert!(complete);
        assert_eq!(&data[..back], &main[40 - back..]);
        assert_eq!(&data[back..], &frame[..]);
    }
}

#[test]
fn long_block_scale_factors() {
    let data = [0xFFu8; 20];
    let mut bs = Bits::new(&data);
    let mut gr = GrInfo::new();
    gr.sfb_table = Some(SFBTable::Long(5));
    gr.scalefac_compress = 15; // 4, 4, 3, 3 bits
    gr.global_gain = 200;
    let mut ist = [0u8; 39];
    let s = decode_scalefactors(&L3_MONO, &mut ist, &mut bs, &gr, 0);
    assert_eq!(bs.position, 6 * 4 + 5 * 4 + 5 * 3 + 5 * 3);
    for j in 0..11 {
        assert_eq!(s.iscf[j], 15);
    }
    for j in 11..21 {
        assert_eq!(s.iscf[j], 7);
    }
    for j in 21..40 {
        assert_eq!(s.iscf[j], 0);
    }
    assert_eq!(s.bands, 22);
    assert_eq!(s.shift, 1);
    assert_eq!(s.gain_exp, 200 - 4 - 210);
    assert_eq!(ist[0], 15);
    assert_eq!(ist[20], 7);
}

#[test]
fn preemphasis_and_mid_side_gain() {
    let data = [0u8; 20];
    let mut bs = Bits::new(&data);
    let mut gr = GrInfo::new();
    gr.sfb_table = Some(SFBTable::Long(5));
    gr.preflag = true;
    gr.global_gain = 150;
    let mut ist = [0u8; 39];
    let s = decode_scalefactors(&L3, &mut ist, &mut bs, &gr, 0);
    assert_eq!(bs.position, 0);
    assert_eq!(&s.iscf[11..21], &[1, 1, 1, 1, 2, 2, 3, 3, 3, 2]);
    assert_eq!(s.iscf[10], 0);
    assert_eq!(s.gain_exp, 150 - 4 - 210 - 2);
}

#[test]
fn short_block_subblock_gains() {
    let data = [0u8; 20];
    let mut bs = Bits::new(&data);
    let mut gr = GrInfo::new();
    gr.sfb_table = Some(SFBTable::Short(5));
    gr.subblock_gain = [1, 2, 3];
    gr.scalefac_scale = 1;
    let mut ist = [0u8; 39];
    let s = decode_scalefactors(&L3_MONO, &mut ist, &mut bs, &gr, 0);
    assert_eq!(s.bands, 39);
    assert_eq!(s.shift, 2);
    for j in 0..39 {
        assert_eq!(s.iscf[j] as usize, [2, 4, 6][j % 3]);
    }
}

#[test]
fn prepared_main_data() {
    let mut frame = vec![0u8; 417];
    frame[..4].copy_from_slice(&L3);
    for (i, b) in frame.iter_mut().enumerate().skip(36) {
        *b = i as u8;
    }
    let mut state = StreamState::new();
    let mut gr = [GrInfo::new(); 4];
    let mut buf = [0u8; 2815];
    let (n, complete) = prepare_main_data(&mut state, &frame, &mut gr, &mut buf).expect("accepted");
    let data = &buf[..n];
    assert!(complete);
    assert_eq!(data.len(), 417 - 4 - 32);
    assert_eq!(&data[..], &frame[36..]);
}

#[test]
fn refused_side_info_forgets_the_header() {
    let mut frame = vec![0u8; 417];
    frame[..4].copy_from_slice(&L3);
    let mut p = 4 * 8 + 20 + 12;
    put(&mut frame, &mut p, 300, 9);
    let mut state = StreamState::new();
    state.header = L3;
    let mut gr = [GrInfo::new(); 4];
    let mut buf = [7u8; 2815];
    assert!(prepare_main_data(&mut state, &frame, &mut gr, &mut buf).is_none());
    assert_eq!(buf, [7u8; 2815]);
    assert_eq!(state.header[0], 0);
}

#[test]
fn long_blocks_clear_the_block_fields() {
    let body = [0u8; 100];
    let mut bs = Bits::new(&body);
    let mut stale = GrInfo::new();
    stale.block_type = 2;
    stale.mixed_block = true;
    stale.sfb_table = Some(SFBTable::Mixed(5, 8));
    let mut gr = [stale; 4];
    assert_eq!(read_side_info(&mut bs, &mut gr, &L3), 0);
    for g in gr.iter() {
        assert_eq!(g.block_type, 0);
        assert!(!g.mixed_block);
        assert!(matches!(g.sfb_table, Some(SFBTable::Long(5))));
    }
}
