use hanover_flipdot::byte_to_hex;
use hanover_flipdot::FlipdotError;
use hanover_flipdot::HanoverFlipdot;

fn blank(w: u32, h: u32, addr: u8) -> HanoverFlipdot {
    HanoverFlipdot::new(w, h, addr).unwrap()
}

#[test]
fn test_b2h() {
    assert_eq!(byte_to_hex(&192), *b"C0");
    assert_eq!(byte_to_hex(&0), *b"00");
    assert_eq!(byte_to_hex(&255), *b"FF");
}

#[test]
fn lol() {
    let fd = HanoverFlipdot::new(96, 16, 0).unwrap();
    let one = fd.write_vec();
    assert!(one.len() == fd.get_packet_size());
    let mut two = vec![0; 2048];
    fd.make_packet(&mut two).unwrap();
    assert_eq!(one, two[..one.len()]);
    assert!(two[one.len()..].iter().all(|b| *b == 0));
}

#[test]
fn every_byte_expands_to_its_upper_case_hex() {
    for b in 0..=255u8 {
        let pair = byte_to_hex(&b);
        assert_eq!(&pair[..], format!("{:02X}", b).as_bytes());
    }
}

#[test]
fn hex_digits_cross_from_nine_to_a() {
    assert_eq!(byte_to_hex(&0x9A), *b"9A");
    assert_eq!(byte_to_hex(&0xA9), *b"A9");
    assert_eq!(byte_to_hex(&0x0F), *b"0F");
    assert_eq!(byte_to_hex(&0x10), *b"10");
}

#[test]
fn blank_8x8_frame_matches_hand_computation() {
    let fd = blank(8, 8, 0);
    let frame = fd.write_vec();
    assert_eq!(frame, b"\x0211080000000000000000\x03E4".to_vec());
}

#[test]
fn blank_96x16_frame_end_to_end() {
    let fd = blank(96, 16, 0);
    assert_eq!(fd.get_packet_size(), 392);
    let frame = fd.write_vec();
    assert_eq!(frame.len(), 392);
    assert_eq!(frame[0], 0x02);
    assert_eq!(&frame[1..3], b"11");
    assert_eq!(&frame[3..5], b"C0");
    assert!(frame[5..389].iter().all(|b| *b == b'0'));
    assert_eq!(frame[389], 0x03);
    assert_eq!(&frame[390..], b"2C");
}

fn hex_to_byte(pair: &[u8]) -> u8 {
    u8::from_str_radix(std::str::from_utf8(pair).unwrap(), 16).unwrap()
}

#[test]
fn checksum_makes_the_covered_bytes_sum_to_zero() {
    let mut fd = blank(8, 8, 5);
    fd.set_pixel(3, 4, true);
    fd.set_pixel(6, 1, true);
    let frame = fd.write_vec();
    let end = frame.len() - 3;
    assert_eq!(frame[end], 0x03);
    let mut sum = frame[end];
    for pair in frame[1..end].chunks(2) {
        sum = sum.wrapping_add(hex_to_byte(pair));
    }
    let checksum = hex_to_byte(&frame[end + 1..]);
    assert_eq!(sum.wrapping_add(checksum), 0);
    assert_eq!(checksum, (sum ^ 0xFF).wrapping_add(1));
    // 22 + 8 + 16 + 2 + 3 = 51, and 256 - 51 = 205
    assert_eq!(&frame[end + 1..], b"CD");
}

#[test]
fn checksum_leaves_out_the_start_byte_and_takes_in_the_end_byte() {
    // 17 + 8 + 0 + 3 = 28, and 256 - 28 = 228
    assert_eq!(&blank(8, 8, 0).write_vec()[22..], b"E4");
    // 17 + 0 + 3 = 20, and 256 - 20 = 236
    assert_eq!(&blank(0, 0, 0).write_vec()[6..], b"EC");
    let mut buf = [0u8; 24];
    blank(8, 8, 0).make_packet(&mut buf).unwrap();
    assert_eq!(&buf[22..24], b"E4");
}

#[test]
fn checksum_wraps_at_256() {
    // 17 + 8 + 8 * 255 + 3 = 2068 = 8 * 256 + 20
    let mut fd = blank(8, 8, 0);
    for x in 0..8 {
        for y in 0..8 {
            fd.set_pixel(x, y, true);
        }
    }
    assert_eq!(fd.write_vec(), b"\x021108FFFFFFFFFFFFFFFF\x03EC".to_vec());
    // 32 + 1 + 220 + 3 = 256: nothing is left to make up for
    let mut fd = blank(8, 1, 15);
    for x in [2, 3, 4, 6, 7] {
        fd.set_pixel(x, 0, true);
    }
    assert_eq!(fd.write_vec(), b"\x022001DC\x0300".to_vec());
}

#[test]
fn address_is_sent_with_offset_seventeen() {
    assert_eq!(&blank(8, 8, 0).write_vec()[1..3], b"11");
    assert_eq!(&blank(8, 8, 1).write_vec()[1..3], b"12");
    assert_eq!(&blank(8, 8, 15).write_vec()[1..3], b"20");
    assert_eq!(blank(8, 8, 15).write_vec(), b"\x0220080000000000000000\x03D5".to_vec());
}

#[test]
fn address_sixteen_and_above_is_rejected() {
    assert!(matches!(HanoverFlipdot::new(8, 8, 16), Err(FlipdotError::InvalidAddress)));
    assert!(matches!(HanoverFlipdot::new(8, 8, 17), Err(FlipdotError::InvalidAddress)));
    assert!(matches!(HanoverFlipdot::new(8, 8, 255), Err(FlipdotError::InvalidAddress)));
    assert!(HanoverFlipdot::new(8, 8, 15).is_ok());
    assert!(HanoverFlipdot::new(8, 8, 0).is_ok());
}

#[test]
fn address_is_rejected_whatever_the_extent() {
    assert!(matches!(HanoverFlipdot::new(0, 0, 16), Err(FlipdotError::InvalidAddress)));
    assert!(matches!(
        HanoverFlipdot::new(u32::MAX, u32::MAX, 16),
        Err(FlipdotError::InvalidAddress)
    ));
    assert!(matches!(HanoverFlipdot::new(65536, 65536, 200), Err(FlipdotError::InvalidAddress)));
}

#[test]
fn frame_length_is_packet_size() {
    for (w, h) in [(8, 8), (96, 16), (3, 3), (1, 1), (7, 1), (9, 1), (0, 0), (0, 5), (64, 64), (5, 13)] {
        let fd = blank(w, h, 2);
        let bytes = (w as usize * h as usize + 7) / 8;
        assert_eq!(fd.get_packet_size(), 2 * (3 + bytes) + 2);
        assert_eq!(fd.write_vec().len(), fd.get_packet_size());
    }
}

#[test]
fn pixel_count_that_is_no_multiple_of_eight() {
    let mut fd = blank(3, 3, 0);
    assert_eq!(fd.get_packet_size(), 12);
    assert_eq!(fd.write_vec(), b"\x0211010000\x03EB".to_vec());
    fd.set_pixel(2, 2, true);
    assert_eq!(fd.write_vec(), b"\x0211010001\x03EA".to_vec());
}

#[test]
fn display_without_pixels() {
    let fd = blank(0, 0, 0);
    assert_eq!(fd.get_packet_size(), 8);
    assert_eq!(fd.write_vec(), b"\x021100\x03EC".to_vec());
}

#[test]
fn resolution_byte_keeps_the_low_eight_bits() {
    let fd = blank(64, 64, 3);
    let frame = fd.write_vec();
    assert_eq!(frame.len(), 1032);
    assert_eq!(&frame[1..5], b"1400");
    assert_eq!(&frame[1029..], b"\x03E9");
}

#[test]
fn short_buffer_is_refused_and_left_alone() {
    let fd = blank(8, 8, 0);
    let mut buf = vec![0xAAu8; 23];
    assert_eq!(fd.make_packet(&mut buf), Err(FlipdotError::BufferTooSmall));
    assert_eq!(buf, vec![0xAAu8; 23]);
    let mut empty: Vec<u8> = Vec::new();
    assert_eq!(fd.make_packet(&mut empty), Err(FlipdotError::BufferTooSmall));
}

#[test]
fn buffer_of_exact_size_is_filled() {
    let fd = blank(8, 8, 0);
    let mut buf = vec![0xAAu8; 24];
    assert_eq!(fd.make_packet(&mut buf), Ok(()));
    assert_eq!(buf, b"\x0211080000000000000000\x03E4".to_vec());
}

#[test]
fn longer_buffer_keeps_its_tail() {
    let mut fd = blank(4, 2, 9);
    fd.set_pixel(3, 1, true);
    fd.set_pixel(0, 0, true);
    let mut buf = vec![0x55u8; 16];
    assert_eq!(fd.make_packet(&mut buf), Ok(()));
    assert_eq!(&buf[..10], b"\x021A0181\x0361");
    assert_eq!(&buf[10..], &[0x55u8; 6]);
}

#[test]
fn buffer_and_vector_agree() {
    let mut fd = blank(16, 7, 11);
    for (x, y) in [(0, 0), (1, 3), (15, 6), (8, 2), (7, 5), (3, 3)] {
        fd.set_pixel(x, y, true);
    }
    let built = fd.write_vec();
    let size = fd.get_packet_size();
    let mut buf = vec![0xFFu8; size + 9];
    fd.make_packet(&mut buf).unwrap();
    assert_eq!(&buf[..size], &built[..]);
    let mut other = vec![0x00u8; size];
    fd.make_packet(&mut other).unwrap();
    assert_eq!(other, built);
}

#[test]
fn encoding_twice_gives_the_same_bytes() {
    let mut fd = blank(8, 8, 0);
    fd.set_pixel(2, 3, true);
    fd.set_pixel(5, 1, true);
    let first = fd.write_vec();
    let second = fd.write_vec();
    assert_eq!(first, second);
    assert_eq!(first, b"\x0211080000080000020000\x03DA".to_vec());
    let mut buf = vec![0u8; 30];
    fd.make_packet(&mut buf).unwrap();
    let once = buf.clone();
    fd.make_packet(&mut buf).unwrap();
    assert_eq!(buf, once);
}
