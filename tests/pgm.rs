use netpbm::pgm::Encoder;
use netpbm::EncodingType;

#[test]
fn pgm_test_write_ppm_raw() {
    let mut enc = Encoder::new(Vec::<u8>::new());

    let data: Vec<u8> = vec![255, 0, 255, 0, 255, 0, 255, 0, 255, 0, 255, 0, 255, 0, 255, 0];
    let expected = [
        80, 53, 10, 52, 32, 52, 32, 50, 53, 53, 10, 255, 0, 255, 0, 255, 0, 255, 0, 255, 0, 255,
        0, 255, 0, 255, 0,
    ];

    let res = enc.write(EncodingType::Raw, 4, 4, 255, &data);
    assert!(res.is_ok());
    assert_eq!(enc.writer[..], expected[..]);
}

#[test]
fn pgm_test_write_ppm_plain() {
    let mut enc = Encoder::new(Vec::<u8>::new());

    let data: Vec<u8> = vec![255, 0, 255, 0, 255, 0, 255, 0, 255, 0, 255, 0, 255, 0, 255, 0];
    let expected = format!(
        "P2\n4 4 255\n255\n0\n255\n0\n255\n0\n255\n0\n255\n0\n255\n0\n255\n0\n255\n0\n"
    );

    let res = enc.write(EncodingType::Plain, 4, 4, 255, &data);
    assert!(res.is_ok());
    assert_eq!(enc.writer[..], *expected.as_bytes());
}

#[test]
fn pgm_test_write_ppm_wide_raw() {
    let mut enc = Encoder::new(Vec::<u8>::new());

    let data: Vec<u16> = vec![
        1056, 0, 1056, 0, 1056, 0, 1056, 0, 1056, 0, 1056, 0, 1056, 0, 1056, 0,
    ];
    let expected = [
        80, 53, 10, 52, 32, 52, 32, 50, 48, 52, 56, 10, 4, 32, 0, 0, 4, 32, 0, 0, 4, 32, 0, 0, 4,
        32, 0, 0, 4, 32, 0, 0, 4, 32, 0, 0, 4, 32, 0, 0, 4, 32, 0, 0,
    ];

    let res = enc.write_wide(EncodingType::Raw, 4, 4, 2048, &data);
    assert!(res.is_ok());
    assert_eq!(enc.writer[..], expected[..]);
    assert!(true)
}

#[test]
fn pgm_test_write_ppm_wide_plain() {
    let mut enc = Encoder::new(Vec::<u8>::new());

    let data: Vec<u16> = vec![
        1056, 0, 1056, 0, 1056, 0, 1056, 0, 1056, 0, 1056, 0, 1056, 0, 1056, 0,
    ];
    let expected = format!(
        "P2\n4 4 2048\n1056\n0\n1056\n0\n1056\n0\n1056\n0\n1056\n0\n1056\n0\n1056\n0\n1056\n0\n"
    );

    let res = enc.write_wide(EncodingType::Plain, 4, 4, 2048, &data);
    assert!(res.is_ok());
    assert_eq!(enc.writer[..], *expected.as_bytes());
}
