use minimp3port::header::{
    frame_pcm_samples, layer3_granules,
    bitrate_kbps, compare, frame_bytes, frame_samples, get_bitrate, get_layer, get_my_sample_rate,
    get_sample_rate, get_stereo_mode, get_stereo_mode_ext, is_crc, is_frame_576, is_free_format,
    is_layer_1, is_mono, is_ms_stereo, is_valid, padding, sample_rate_hz, test_1_stereo, test_mpeg1,
    test_not_mpeg25, test_padding,
};

// MPEG 1 layer III, 128 kbps, 44100 Hz, joint stereo (mid/side), no checksum.
const L3: [u8; 4] = [0xFF, 0xFB, 0x90, 0x64];
// MPEG 1 layer II, 256 kbps, 48000 Hz, stereo.
const L2: [u8; 4] = [0xFF, 0xFD, 0xC4, 0x04];
// MPEG 1 layer I, 32 kbps, 44100 Hz, mono.
const L1: [u8; 4] = [0xFF, 0xFF, 0x10, 0xC0];
// MPEG 2 layer III, 64 kbps, 22050 Hz, mono, padded.
const M2: [u8; 4] = [0xFF, 0xF3, 0x82, 0xC0];
// MPEG 2.5 layer III, free format, 11025 Hz, stereo.
const M25: [u8; 4] = [0xFF, 0xE3, 0x00, 0x00];

#[test]
fn layer3_header_fields() {
    assert!(is_valid(&L3));
    assert_eq!(get_layer(&L3), 1);
    assert!(!is_layer_1(&L3));
    assert!(test_mpeg1(&L3));
    assert!(test_not_mpeg25(&L3));
    assert!(!is_crc(&L3));
    assert!(!is_mono(&L3));
    assert_eq!(get_bitrate(&L3), 9);
    assert_eq!(get_sample_rate(&L3), 0);
    assert!(!test_padding(&L3));
    assert!(!is_free_format(&L3));
    assert!(!is_frame_576(&L3));
    assert_eq!(get_stereo_mode(&L3), 1);
    assert_eq!(get_stereo_mode_ext(&L3), 2);
    assert!(is_ms_stereo(&L3));
    assert!(!test_1_stereo(&L3));
    assert_eq!(get_my_sample_rate(&L3), 6);
}

#[test]
fn layer3_frame_size() {
    assert_eq!(bitrate_kbps(&L3), 128);
    assert_eq!(sample_rate_hz(&L3), 44100);
    assert_eq!(frame_samples(&L3), 1152);
    assert_eq!(padding(&L3), 0);
    // 1152 * 128 * 125 / 44100 = 417.96
    assert_eq!(frame_bytes(&L3, 0), 417);
}

#[test]
fn layer2_frame_size() {
    assert!(is_valid(&L2));
    assert_eq!(get_layer(&L2), 2);
    assert_eq!(bitrate_kbps(&L2), 256);
    assert_eq!(sample_rate_hz(&L2), 48000);
    assert_eq!(frame_samples(&L2), 1152);
    assert_eq!(frame_bytes(&L2, 0), 768);
}

#[test]
fn layer1_slots_of_four_bytes() {
    assert!(is_valid(&L1));
    assert!(is_layer_1(&L1));
    assert!(is_mono(&L1));
    assert_eq!(bitrate_kbps(&L1), 32);
    assert_eq!(frame_samples(&L1), 384);
    // 384 * 32 * 125 / 44100 = 34.8, rounded down to a multiple of four
    assert_eq!(frame_bytes(&L1, 0), 32);
    let padded = [0xFF, 0xFF, 0x12, 0xC0];
    assert_eq!(padding(&padded), 4);
}

#[test]
fn mpeg2_half_rate_and_576_samples() {
    assert!(is_valid(&M2));
    assert!(!test_mpeg1(&M2));
    assert!(is_frame_576(&M2));
    assert_eq!(frame_samples(&M2), 576);
    assert_eq!(sample_rate_hz(&M2), 22050);
    assert_eq!(bitrate_kbps(&M2), 64);
    assert_eq!(padding(&M2), 1);
    // 576 * 64 * 125 / 22050 = 208.9
    assert_eq!(frame_bytes(&M2, 0), 208);
    assert_eq!(get_my_sample_rate(&M2), 3);
}

#[test]
fn mpeg25_free_format_takes_given_size() {
    assert!(is_valid(&M25));
    assert!(!test_not_mpeg25(&M25));
    assert!(is_free_format(&M25));
    assert_eq!(sample_rate_hz(&M25), 11025);
    assert_eq!(bitrate_kbps(&M25), 0);
    assert_eq!(frame_bytes(&M25, 321), 321);
    assert_eq!(get_my_sample_rate(&M25), 0);
}

#[test]
fn invalid_headers() {
    assert!(!is_valid(&[0xFE, 0xFB, 0x90, 0x64]));
    assert!(!is_valid(&[0xFF, 0x1B, 0x90, 0x64]));
    // no layer
    assert!(!is_valid(&[0xFF, 0xF9, 0x90, 0x64]));
    // bitrate index 15
    assert!(!is_valid(&[0xFF, 0xFB, 0xF0, 0x64]));
    // sample rate index 3
    assert!(!is_valid(&[0xFF, 0xFB, 0x9C, 0x64]));
    // MPEG 2.5 with layer I
    assert!(!is_valid(&[0xFF, 0xE7, 0x10, 0x00]));
    // a first byte other than 0xFF is enough to refuse
    assert!(!is_valid(&[0x00]));
}

#[test]
fn compare_headers() {
    assert!(compare(&L3, &L3));
    // other bitrate and padding, same stream
    assert!(compare(&L3, &[0xFF, 0xFB, 0xA2, 0x00]));
    // other layer
    assert!(!compare(&L3, &L2));
    // other sample rate
    assert!(!compare(&L3, &[0xFF, 0xFB, 0x94, 0x64]));
    // free format against fixed bitrate
    assert!(!compare(&L3, &[0xFF, 0xFB, 0x00, 0x64]));
    // an invalid second header
    assert!(!compare(&L3, &[0xFF, 0xFB, 0xF0, 0x64]));
}

#[test]
fn compatibility_goes_both_ways() {
    let other = [0xFF, 0xFB, 0xA2, 0x00];
    assert_eq!(compare(&L3, &other), compare(&other, &L3));
    assert_eq!(compare(&L3, &M2), compare(&M2, &L3));
}

#[test]
fn samples_of_a_frame_stay_within_the_maximum() {
    for h in [L3, L2, L1, M2, M25] {
        let channels = if is_mono(&h) { 1 } else { 2 };
        assert!((frame_samples(&h) * channels) as usize <= minimp3port::MINIMP3_MAX_SAMPLES_PER_FRAME);
    }
    assert_eq!(frame_samples(&L3) * 2, 2304);
}

#[test]
fn granules_and_samples_of_a_frame() {
    assert_eq!(layer3_granules(&L3), 2);
    assert_eq!(layer3_granules(&M2), 1);
    assert_eq!(frame_pcm_samples(&L3), 2304);
    assert_eq!(frame_pcm_samples(&M2), 576);
    assert_eq!(frame_pcm_samples(&L1), 384);
    assert_eq!(frame_pcm_samples(&M25), 1152);
}
