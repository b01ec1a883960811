use minimp3port::bits::Bits;

#[test]
fn reads_most_significant_bit_first() {
    let data = [0b1010_1100u8, 0xFF];
    let mut bs = Bits::new(&data);
    assert_eq!(bs.get_bits(3), 0b101);
    assert_eq!(bs.position, 3);
    assert_eq!(bs.get_bits(7), 0b011_0011);
    assert_eq!(bs.position, 10);
    assert_eq!(bs.get_bits(6), 0b11_1111);
    assert_eq!(bs.position, 16);
}

#[test]
fn reading_past_the_end_gives_zero_and_moves_on() {
    let data = [0xFFu8, 0xFF];
    let mut bs = Bits::new_with_pos(&data, 10);
    assert_eq!(bs.get_bits(9), 0);
    assert_eq!(bs.position, 19);
    assert_eq!(bs.get_bits(1), 0);
    assert_eq!(bs.limit(), 16);
}

#[test]
fn reads_a_whole_word() {
    let data = [0x12u8, 0x34, 0x56, 0x78, 0x9A];
    let mut bs = Bits::new(&data);
    assert_eq!(bs.get_bits(32), 0x1234_5678);
    let mut bs = Bits::new_with_pos(&data, 4);
    assert_eq!(bs.get_bits(32), 0x2345_6789);
    assert_eq!(bs.get_bits(0), 0);
    assert_eq!(bs.position, 36);
}

#[test]
fn two_reads_are_one_read_split() {
    let data = [0xC5u8, 0x3A, 0x7E];
    for n in 0..=12u32 {
        let m = 12 - n;
        let mut split = Bits::new_with_pos(&data, 5);
        let hi = split.get_bits(n);
        let lo = split.get_bits(m);
        let mut whole = Bits::new_with_pos(&data, 5);
        assert_eq!((hi << m) | lo, whole.get_bits(12));
        assert_eq!(split.position, whole.position);
    }
}

#[test]
fn overrun_is_moving_past_the_end() {
    let data = [0u8; 2];
    let mut bs = Bits::new(&data);
    bs.get_bits(16);
    assert!(!bs.overran());
    bs.get_bits(1);
    assert!(bs.overran());
}
