use duprm::fingerprint::{fingerprint_content, pack_digest, try_data, FileRecord, FingerprintError};

fn tag(size: u8, payload: &[u8]) -> Vec<u8> {
    let mut bytes = vec![b'I', b'D', b'3', 3, 0, 0, 0, 0, 0, size];
    bytes.extend_from_slice(payload);
    bytes
}

#[test]
fn pack_digest_reads_most_significant_byte_first() {
    let mut digest = [0u8; 16];
    assert_eq!(pack_digest(&digest), 0);
    digest[15] = 7;
    assert_eq!(pack_digest(&digest), 7);
    digest[14] = 1;
    assert_eq!(pack_digest(&digest), 263);
    digest[0] = 0x80;
    assert_eq!(pack_digest(&digest), (1u128 << 127) + 263);
    assert_eq!(pack_digest(&[0xff; 16]), u128::MAX);
    let counting: [u8; 16] = [1, 2, 3, 4, 5, 6, 7, 8, 9, 10, 11, 12, 13, 14, 15, 16];
    assert_eq!(pack_digest(&counting), 0x0102_0304_0506_0708_090a_0b0c_0d0e_0f10);
}

#[test]
fn fingerprint_is_the_md5_digest() {
    assert_eq!(
        fingerprint_content(b"abcdefghijklmnopqrstuvwxyz"),
        0xc3fc_d3d7_6192_e400_7dfb_496c_ca67_e13b
    );
    assert_eq!(fingerprint_content(b""), 0xd41d_8cd9_8f00_b204_e980_0998_ecf8_427e);
    let bytes = b"some audio data";
    assert_eq!(fingerprint_content(bytes), u128::from_be_bytes(md5::compute(bytes).0));
    assert_eq!(format!("{:032x}", fingerprint_content(bytes)), format!("{:x}", md5::compute(bytes)));
}

#[test]
fn record_holds_fingerprint_of_stripped_bytes() {
    let mut bytes = b"lead".to_vec();
    bytes.extend_from_slice(&tag(3, b"tag"));
    bytes.extend_from_slice(b" and audio");
    let record = try_data::<&str, String>("a.mp3", Ok(bytes), Ok(1_700_000_000)).unwrap();
    assert_eq!(
        record,
        FileRecord {
            fingerprint: fingerprint_content(b"lead and audio"),
            timestamp: 1_700_000_000,
            path: "a.mp3",
        }
    );
}

#[test]
fn record_of_untagged_file_holds_fingerprint_of_all_bytes() {
    let record = try_data::<&str, String>("b.mp3", Ok(b"plain".to_vec()), Ok(-5)).unwrap();
    assert_eq!(record.fingerprint, fingerprint_content(b"plain"));
    assert_eq!(record.timestamp, -5);
    assert_eq!(record.path, "b.mp3");
}

#[test]
fn files_that_differ_only_in_tags_have_one_fingerprint() {
    let mut first = tag(4, b"tag1");
    first.extend_from_slice(b"the same audio");
    let mut second = tag(9, b"other tag");
    second.extend_from_slice(b"the same audio");
    let plain = b"the same audio".to_vec();
    let a = try_data::<u8, String>(1, Ok(first), Ok(1)).unwrap();
    let b = try_data::<u8, String>(2, Ok(second), Ok(2)).unwrap();
    let c = try_data::<u8, String>(3, Ok(plain), Ok(3)).unwrap();
    assert_eq!(a.fingerprint, b.fingerprint);
    assert_eq!(a.fingerprint, c.fingerprint);
    let d = try_data::<u8, String>(4, Ok(b"other audio".to_vec()), Ok(4)).unwrap();
    assert_ne!(a.fingerprint, d.fingerprint);
}

#[test]
fn truncated_tag_is_hashed_with_the_file() {
    let mut bytes = tag(100, b"short");
    bytes.extend_from_slice(b"audio");
    let record = try_data::<u8, String>(1, Ok(bytes.clone()), Ok(1)).unwrap();
    assert_eq!(record.fingerprint, fingerprint_content(&bytes));
}

#[test]
fn failed_read_is_reported() {
    let result = try_data::<&str, String>("a.mp3", Err("no such file".to_string()), Ok(1));
    assert_eq!(result, Err(FingerprintError::Read("no such file".to_string())));
}

#[test]
fn failed_creation_time_is_reported() {
    let result =
        try_data::<&str, String>("a.mp3", Ok(b"audio".to_vec()), Err("no metadata".to_string()));
    assert_eq!(result, Err(FingerprintError::Metadata("no metadata".to_string())));
}

#[test]
fn failed_read_is_reported_before_failed_creation_time() {
    let result = try_data::<&str, &str>("a.mp3", Err("read"), Err("metadata"));
    assert_eq!(result, Err(FingerprintError::Read("read")));
}

#[test]
fn failed_creation_time_is_reported_before_malformed_tags() {
    let mut bytes = tag(1, b"x");
    bytes[6] = 0x80;
    let result = try_data::<&str, &str>("a.mp3", Ok(bytes), Err("metadata"));
    assert_eq!(result, Err(FingerprintError::Metadata("metadata")));
}

#[test]
fn malformed_tags_give_no_record() {
    let mut bytes = tag(1, b"x");
    bytes[8] = 0x80;
    bytes.extend_from_slice(b"audio");
    let result = try_data::<&str, String>("a.mp3", Ok(bytes), Ok(1));
    assert_eq!(result, Err(FingerprintError::MalformedTags));
}
