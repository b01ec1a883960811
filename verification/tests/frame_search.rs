use minimp3port::decoder::{find_frame, match_frame, skip_id3v2, StreamState};

const L3: [u8; 4] = [0xFF, 0xFB, 0x90, 0x64];
const L3_SIZE: usize = 417;

fn frames(n: usize) -> Vec<u8> {
    let mut v = Vec::new();
    for _ in 0..n {
        v.extend_from_slice(&L3);
        v.extend(std::iter::repeat(0u8).take(L3_SIZE - 4));
    }
    v
}

#[test]
fn id3v2_tag_size() {
    let mut buf = vec![0x49u8, 0x44, 0x33, 4, 0, 0, 0, 0, 1, 0x7F];
    buf.extend_from_slice(&[0; 300]);
    assert_eq!(skip_id3v2(&buf), 128 + 127 + 10);
    buf[6] = 0x81;
    assert_eq!(skip_id3v2(&buf), 0x20_0000 + 128 + 127 + 10);
}

#[test]
fn no_id3v2_tag() {
    assert_eq!(skip_id3v2(&frames(1)), 0);
    assert_eq!(skip_id3v2(&[0x49, 0x44, 0x33]), 0);
    assert_eq!(skip_id3v2(&[]), 0);
}

#[test]
fn following_frames_match() {
    let s = frames(3);
    assert!(match_frame(&s, 0));
    let mut one = frames(1);
    one.extend_from_slice(&[0u8; 100]);
    assert!(!match_frame(&one, 0));
    // a single frame and nothing after it: no header met
    assert!(!match_frame(&frames(1), 0));
}

#[test]
fn finds_the_first_frame() {
    let s = frames(3);
    let mut ffb = 0;
    let mut size = 0;
    assert_eq!(find_frame(&s, &mut ffb, &mut size), 0);
    assert_eq!(size, 417);
    assert_eq!(ffb, 0);
}

#[test]
fn skips_junk_before_a_frame() {
    let mut s = vec![0x12u8, 0xFF, 0x00, 0xFF, 0xFB];
    s.extend(frames(3));
    let mut ffb = 0;
    let mut size = 0;
    assert_eq!(find_frame(&s, &mut ffb, &mut size), 5);
    assert_eq!(size, 417);
}

#[test]
fn a_lone_frame_filling_the_buffer_is_taken() {
    let s = frames(1);
    let mut ffb = 0;
    let mut size = 0;
    assert_eq!(find_frame(&s, &mut ffb, &mut size), 0);
    assert_eq!(size, 417);
}

#[test]
fn no_frame_found() {
    let s = vec![0u8; 100];
    let mut ffb = 0;
    let mut size = 0;
    assert_eq!(find_frame(&s, &mut ffb, &mut size), 96);
    assert_eq!(size, 0);
    let mut size = 7;
    assert_eq!(find_frame(&[0xFF, 0xFB, 0x90], &mut ffb, &mut size), 0);
    assert_eq!(size, 0);
}

#[test]
fn free_format_frames_are_measured() {
    // MPEG 1 layer III, free format, 44100 Hz, stereo
    let h = [0xFFu8, 0xFB, 0x00, 0x44];
    let mut s = Vec::new();
    for _ in 0..4 {
        s.extend_from_slice(&h);
        s.extend_from_slice(&[0u8; 296]);
    }
    let mut ffb = 0;
    let mut size = 0;
    assert_eq!(find_frame(&s, &mut ffb, &mut size), 0);
    assert_eq!(size, 300);
    assert_eq!(ffb, 300);
}

#[test]
fn locate_then_continue() {
    let s = frames(3);
    let mut state = StreamState::new();
    let first = state.locate_frame(&s);
    assert!(first.restarted);
    let span = first.frame.expect("a frame");
    assert_eq!((span.start, span.size), (0, 417));
    assert_eq!(first.info.frame_bytes(), 417);
    assert_eq!(first.info.channels(), 2);
    assert_eq!(first.info.sample_rate(), 44100);
    assert_eq!(first.info.layer(), 3);
    assert_eq!(first.info.bitrate(), 16);
    assert_eq!(first.info.bitrate_kbps, 128);
    assert_eq!(first.info.samples(), 0);
    assert_eq!(state.header, L3);

    let second = state.locate_frame(&s[417..]);
    assert!(!second.restarted);
    let span = second.frame.expect("a frame");
    assert_eq!((span.start, span.size), (0, 417));
}

#[test]
fn reset_makes_the_next_frame_searched_for() {
    let s = frames(3);
    let mut state = StreamState::new();
    state.locate_frame(&s);
    state.reset();
    assert_eq!(state.header[0], 0);
    let again = state.locate_frame(&s[417..]);
    assert!(again.restarted);
    assert_eq!(again.frame.expect("a frame").start, 0);
}

#[test]
fn locate_in_junk_consumes_it() {
    let s = vec![0u8; 50];
    let mut state = StreamState::new();
    let r = state.locate_frame(&s);
    assert!(r.restarted);
    assert!(r.frame.is_none());
    assert_eq!(r.info.frame_bytes(), 46);
    assert_eq!(r.info.channels(), 0);
    assert_eq!(state.header, [0, 0, 0, 0]);
}

#[test]
fn a_restart_clears_the_reservoir() {
    let s = frames(3);
    let mut state = StreamState::new();
    state.reserv = 7;
    state.reserv_buf[0] = 9;
    let r = state.locate_frame(&s);
    assert!(r.restarted);
    assert_eq!(state.reserv, 0);
    assert_eq!(state.reserv_buf[0], 0);
}

#[test]
fn a_header_in_the_last_four_bytes_is_not_tried() {
    // a padded free-format layer I header filling the whole buffer
    let s = [0xFFu8, 0xFF, 0x02, 0x00];
    let mut ffb = 0;
    let mut size = 0;
    assert_eq!(find_frame(&s, &mut ffb, &mut size), 0);
    assert_eq!(size, 0);
    // a rejected valid header would clear the free-format size; none is tried
    let mut ffb = 77;
    let mut size = 0;
    assert_eq!(find_frame(&s, &mut ffb, &mut size), 0);
    assert_eq!(ffb, 77);
}

#[test]
fn a_large_free_format_size_is_kept_for_fixed_rate_frames() {
    let s = frames(3);
    let mut ffb = 5000;
    let mut size = 0;
    assert_eq!(find_frame(&s, &mut ffb, &mut size), 0);
    assert_eq!(size, 417);
    assert_eq!(ffb, 5000);
}

#[test]
fn free_format_pair_may_end_at_the_buffer_end() {
    // an unpadded free-format frame of 300 bytes, a padded one of 301, then
    // a last header that fills the buffer to its end
    let plain = [0xFFu8, 0xFB, 0x00, 0x44];
    let padded = [0xFFu8, 0xFB, 0x02, 0x44];
    let mut s = Vec::new();
    s.extend_from_slice(&plain);
    s.extend_from_slice(&[0u8; 296]);
    s.extend_from_slice(&padded);
    s.extend_from_slice(&[0u8; 297]);
    s.extend_from_slice(&plain);
    assert_eq!(s.len(), 605);
    let mut ffb = 0;
    let mut size = 0;
    assert_eq!(find_frame(&s, &mut ffb, &mut size), 0);
    assert_eq!(size, 300);
    assert_eq!(ffb, 300);
}

#[test]
fn after_reset_the_state_locates_like_a_fresh_one() {
    let s = frames(3);
    let mut used = StreamState::new();
    used.locate_frame(&s);
    used.reserv = 9;
    used.reserv_buf[3] = 4;
    used.free_format_bytes = 12;
    used.reset();
    let mut fresh = StreamState::new();
    for start in [0usize, 417, 5] {
        let mut a = StreamState::new();
        a.header = used.header;
        a.reserv = used.reserv;
        a.reserv_buf = used.reserv_buf;
        a.free_format_bytes = used.free_format_bytes;
        let ra = a.locate_frame(&s[start..]);
        let rb = fresh.locate_frame(&s[start..]);
        assert_eq!(ra.restarted, rb.restarted);
        assert_eq!(ra.info.frame_bytes(), rb.info.frame_bytes());
        assert_eq!(ra.frame.map(|f| (f.start, f.size)), rb.frame.map(|f| (f.start, f.size)));
        assert_eq!((a.header, a.reserv, a.free_format_bytes), (fresh.header, fresh.reserv, fresh.free_format_bytes));
        assert_eq!(a.reserv_buf, fresh.reserv_buf);
        fresh = StreamState::new();
    }
}
