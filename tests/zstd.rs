use dogstatsd_utils::zstd::is_zstd;

const HELLO_ZSTD_BYTES: &[u8] = &[
    0x28, 0xb5, 0x2f, 0xfd, 0x04, 0x58, 0x29, 0x00, 0x00, 0x68, 0x65, 0x6c, 0x6c, 0x6f, 0xa3,
    0x6d, 0x9f, 0x88,
];

const HELLO_BYTES: &[u8] = &[0x68, 0x65, 0x6c, 0x6c, 0x6f];

#[test]
fn is_zstd_compressed_data_is_detected() {
    assert!(is_zstd(HELLO_ZSTD_BYTES));
}

#[test]
fn is_zstd_ascii_data_is_not_detected() {
    assert!(!is_zstd(HELLO_BYTES));
}

#[test]
fn is_zstd_short_header_is_not_detected() {
    assert!(!is_zstd(&[0x28, 0xb5, 0x2f]));
    assert!(!is_zstd(&[]));
}
