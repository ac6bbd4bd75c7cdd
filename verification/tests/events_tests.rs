use scylla::events::decode_cover_bytes;

#[test]
fn cover_bytes_decode_standard_base64() {
    assert_eq!(decode_cover_bytes("AQID").unwrap(), vec![1, 2, 3]);
    assert_eq!(decode_cover_bytes("").unwrap(), Vec::<u8>::new());
    assert!(decode_cover_bytes("A").is_err());
    assert!(decode_cover_bytes("*!").is_err());
}
