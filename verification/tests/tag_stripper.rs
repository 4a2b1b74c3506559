use duprm::remove_tags::{
    decode_size, find_marker, get_frame_position, is_valid_id3_header, read_u24_be,
    remove_tags_from_buffer, strip, Outcome,
};

fn header(version: u8, flags: u8, size: [u8; 4]) -> Vec<u8> {
    vec![b'I', b'D', b'3', version, flags, 0x7f, size[0], size[1], size[2], size[3]]
}

fn tagged(prefix: &[u8], size: [u8; 4], payload: &[u8], suffix: &[u8]) -> Vec<u8> {
    let mut bytes = prefix.to_vec();
    bytes.extend_from_slice(&header(3, 0, size));
    bytes.extend_from_slice(payload);
    bytes.extend_from_slice(suffix);
    bytes
}

#[test]
fn decode_size_takes_seven_bits_from_each_byte() {
    assert_eq!(decode_size(&[0, 0, 0, 0]), 0);
    assert_eq!(decode_size(&[0, 0, 0, 0x7f]), 127);
    assert_eq!(decode_size(&[0, 0, 1, 0]), 128);
    assert_eq!(decode_size(&[0, 0, 2, 1]), 257);
    assert_eq!(decode_size(&[1, 2, 3, 4]), 2_130_308);
    assert_eq!(decode_size(&[0x7f, 0x7f, 0x7f, 0x7f]), 0x0fff_ffff);
}

#[test]
fn decode_size_reads_only_the_first_four_bytes() {
    assert_eq!(decode_size(&[0, 0, 1, 1, 0x55, 0x66]), 129);
}

#[test]
fn read_u24_be_reads_three_bytes() {
    assert_eq!(read_u24_be(b"ID3", 0), Some(0x49_4433));
    assert_eq!(read_u24_be(&[9, 1, 2, 3], 1), Some(0x01_0203));
    assert_eq!(read_u24_be(&[0xff, 0xff, 0xff], 0), Some(0xff_ffff));
}

#[test]
fn read_u24_be_needs_three_bytes() {
    assert_eq!(read_u24_be(&[1, 2], 0), None);
    assert_eq!(read_u24_be(&[1, 2, 3], 1), None);
    assert_eq!(read_u24_be(&[1, 2, 3], 3), None);
    assert_eq!(read_u24_be(&[1, 2, 3], 4), None);
    assert_eq!(read_u24_be(&[], usize::MAX), None);
}

#[test]
fn header_needs_marker_version_and_zero_flags() {
    assert!(is_valid_id3_header(&header(2, 0, [0, 0, 0, 0])));
    assert!(is_valid_id3_header(&header(3, 0, [0, 0, 0, 0])));
    assert!(is_valid_id3_header(&header(4, 0, [0, 0, 0, 0])));
    assert!(!is_valid_id3_header(&header(1, 0, [0, 0, 0, 0])));
    assert!(!is_valid_id3_header(&header(5, 0, [0, 0, 0, 0])));
    assert!(!is_valid_id3_header(&header(3, 1, [0, 0, 0, 0])));
    let mut wrong_marker = header(3, 0, [0, 0, 0, 0]);
    wrong_marker[2] = b'4';
    assert!(!is_valid_id3_header(&wrong_marker));
}

#[test]
fn header_test_does_not_look_at_the_size_field() {
    assert!(is_valid_id3_header(&header(3, 0, [0x80, 0xff, 0x80, 0xff])));
}

#[test]
fn header_needs_ten_bytes() {
    assert!(!is_valid_id3_header(&header(3, 0, [0, 0, 0, 0])[..9]));
    assert!(!is_valid_id3_header(b"ID3"));
    assert!(!is_valid_id3_header(&[]));
}

#[test]
fn find_marker_gives_the_first_place_from_start() {
    let bytes = b"xxID3yyID3";
    assert_eq!(find_marker(bytes, 0), Some(2));
    assert_eq!(find_marker(bytes, 2), Some(2));
    assert_eq!(find_marker(bytes, 3), Some(7));
    assert_eq!(find_marker(bytes, 8), None);
    assert_eq!(find_marker(bytes, 100), None);
    assert_eq!(find_marker(b"IDID3", 0), Some(2));
    assert_eq!(find_marker(b"ID", 0), None);
    assert_eq!(find_marker(b"", 0), None);
}

#[test]
fn frame_position_is_the_first_header() {
    let bytes = tagged(b"abc", [0, 0, 0, 2], b"pq", b"rest");
    assert_eq!(get_frame_position(&bytes), Some(3));
    let mut twice = bytes.clone();
    twice.extend_from_slice(&bytes);
    assert_eq!(get_frame_position(&twice), Some(3));
}

#[test]
fn frame_position_passes_over_markers_that_open_no_header() {
    let mut bytes = b"ID3ID3\x09\x00".to_vec();
    bytes.extend_from_slice(&header(4, 0, [0, 0, 0, 0]));
    assert_eq!(get_frame_position(&bytes), Some(8));
}

#[test]
fn frame_position_is_none_without_a_whole_header() {
    assert_eq!(get_frame_position(&b"no tag in here at all".to_vec()), None);
    assert_eq!(get_frame_position(&Vec::new()), None);
    assert_eq!(get_frame_position(&header(3, 0, [0, 0, 0, 0])[..9].to_vec()), None);
    let mut late = b"0123456".to_vec();
    late.extend_from_slice(&header(3, 0, [0, 0, 0, 0])[..9]);
    assert_eq!(get_frame_position(&late), None);
}

#[test]
fn frame_position_takes_a_header_that_ends_the_buffer() {
    let mut bytes = b"0123456".to_vec();
    bytes.extend_from_slice(&header(3, 0, [0, 0, 0, 0]));
    assert_eq!(get_frame_position(&bytes), Some(7));
}

#[test]
fn strip_leaves_a_buffer_without_marker_unchanged() {
    let bytes: Vec<u8> = (0..=255u8).filter(|b| *b != b'I').collect();
    assert_eq!(strip(bytes.clone()), Outcome::Unchanged(bytes.clone()));
    assert_eq!(remove_tags_from_buffer(bytes.clone()), Some(bytes));
    assert_eq!(strip(Vec::new()), Outcome::Unchanged(Vec::new()));
}

#[test]
fn strip_leaves_a_buffer_with_marker_but_no_header_unchanged() {
    let bytes = b"ID3 is only a word here, ID3\x03\x01 too".to_vec();
    assert_eq!(strip(bytes.clone()), Outcome::Unchanged(bytes));
}

#[test]
fn strip_gives_prefix_and_suffix() {
    let bytes = tagged(b"prefix", [0, 0, 0, 5], b"12345", b"suffix");
    assert_eq!(strip(bytes.clone()), Outcome::Stripped(b"prefixsuffix".to_vec()));
    assert_eq!(remove_tags_from_buffer(bytes), Some(b"prefixsuffix".to_vec()));
}

#[test]
fn strip_gives_prefix_and_suffix_for_a_long_payload() {
    let payload = vec![0xaau8; 300];
    let bytes = tagged(b"", [0, 0, 2, 44], &payload, b"audio");
    assert_eq!(strip(bytes), Outcome::Stripped(b"audio".to_vec()));
}

#[test]
fn strip_takes_an_empty_block_at_the_very_end() {
    let bytes = tagged(b"audio", [0, 0, 0, 0], b"", b"");
    assert_eq!(strip(bytes), Outcome::Stripped(b"audio".to_vec()));
    let only = tagged(b"", [0, 0, 0, 0], b"", b"");
    assert_eq!(strip(only), Outcome::Stripped(Vec::new()));
}

#[test]
fn strip_takes_a_block_that_ends_the_buffer() {
    let bytes = tagged(b"audio", [0, 0, 0, 3], b"abc", b"");
    assert_eq!(strip(bytes), Outcome::Stripped(b"audio".to_vec()));
}

#[test]
fn strip_cuts_only_the_first_block() {
    let second = tagged(b"", [0, 0, 0, 1], b"x", b"end");
    let bytes = tagged(b"a", [0, 0, 0, 2], b"yz", &second);
    let mut expected = b"a".to_vec();
    expected.extend_from_slice(&second);
    assert_eq!(strip(bytes), Outcome::Stripped(expected));
}

#[test]
fn strip_reports_a_high_bit_in_any_size_byte() {
    for k in 0..4 {
        let mut size = [0u8, 0, 0, 1];
        size[k] |= 0x80;
        let bytes = tagged(b"prefix", size, b"1", b"suffix");
        assert_eq!(strip(bytes.clone()), Outcome::Malformed);
        assert_eq!(remove_tags_from_buffer(bytes), None);
    }
    let bytes = tagged(b"", [0xff, 0xff, 0xff, 0xff], b"", b"");
    assert_eq!(strip(bytes), Outcome::Malformed);
}

#[test]
fn strip_reports_the_first_header_even_where_a_sound_one_follows() {
    let sound = tagged(b"", [0, 0, 0, 1], b"x", b"end");
    let bytes = tagged(b"", [0, 0x80, 0, 0], b"", &sound);
    assert_eq!(strip(bytes), Outcome::Malformed);
}

#[test]
fn strip_leaves_a_truncated_block_unchanged() {
    let bytes = tagged(b"prefix", [0, 0, 0, 6], b"12345", b"");
    assert_eq!(strip(bytes.clone()), Outcome::Unchanged(bytes.clone()));
    assert_eq!(remove_tags_from_buffer(bytes.clone()), Some(bytes));
    let huge = tagged(b"", [0x7f, 0x7f, 0x7f, 0x7f], b"short", b"");
    assert_eq!(strip(huge.clone()), Outcome::Unchanged(huge));
}
