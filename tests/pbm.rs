use netpbm::pbm::Encoder;
use netpbm::EncodingType;

#[test]
fn test_write_pbm_raw() {
    let mut enc = Encoder::new(Vec::<u8>::new());

    let data: Vec<u8> = vec![1, 0, 1, 0, 1, 0, 1, 0, 1, 0, 1, 0];
    // Each row of four bits is packed into its own byte: 1010 becomes 1010_0000.
    let expected = [80, 52, 10, 52, 32, 51, 10, 160, 160, 160];

    let res = enc.write(EncodingType::Raw, 4, 3, &data);
    assert!(res.is_ok());
    assert_eq!(enc.writer[..], expected[..]);
}

#[test]
fn test_write_pbm_plain() {
    let mut enc = Encoder::new(Vec::<u8>::new());

    let data: Vec<u8> = vec![
        1, 0, 1, 0, 1, 0, 1, 0, 1, 0, 1, 0, 1, 0, 1, 0, 1, 0, 1, 0, 1, 0, 1, 0, 1, 0, 1, 0, 1, 0,
        1, 0, 1, 0, 1, 0, 1, 0, 1, 0, 1, 0,
    ];
    let expected = format!(
        "P1\n7 6\n1 0 1 0 1 0 1 0 1 0 1 0 1 0 1 0 1 0 1 0 1 0 1 0 1 0 1 0 1 0 1 0 1 0 1\n0 1 0 1 0 1 0\n"
    );

    let res = enc.write(EncodingType::Plain, 7, 6, &data);
    assert!(res.is_ok());
    assert_eq!(enc.writer[..], *expected.as_bytes());
}
