use netpbm::ppm::Encoder;
use netpbm::EncodingType;

#[test]
fn ppm_test_write_ppm_raw() {
    let mut enc = Encoder::new(Vec::<u8>::new());

    let data: Vec<u8> = vec![255, 0, 0, 0, 255, 0, 0, 0, 255, 255, 255, 0, 255, 255, 255, 0, 0, 0];
    let expected = [
        80, 54, 10, 51, 32, 50, 32, 50, 53, 53, 10, 255, 0, 0, 0, 255, 0, 0, 0, 255, 255, 255, 0,
        255, 255, 255, 0, 0, 0,
    ];

    let res = enc.write(EncodingType::Raw, 3, 2, 255, &data);
    assert!(res.is_ok());
    assert_eq!(enc.writer[..], expected[..]);
}

#[test]
fn ppm_test_write_ppm_plain() {
    let mut enc = Encoder::new(Vec::<u8>::new());

    let data: Vec<u8> = vec![255, 0, 0, 0, 255, 0, 0, 0, 255, 255, 255, 0, 255, 255, 255, 0, 0, 0];
    let expected = format!("P3\n3 2 255\n255 0 0\n0 255 0\n0 0 255\n255 255 0\n255 255 255\n0 0 0\n");

    let res = enc.write(EncodingType::Plain, 3, 2, 255, &data);
    assert!(res.is_ok());
    assert_eq!(enc.writer[..], *expected.as_bytes());
}

#[test]
fn ppm_test_write_ppm_wide_raw() {
    let mut enc = Encoder::new(Vec::<u8>::new());

    let data: Vec<u16> = vec![
        1056, 0, 0, 0, 1056, 0, 0, 0, 1056, 1056, 1056, 0, 1056, 1056, 1056, 0, 0, 0,
    ];
    let expected = [
        80, 54, 10, 51, 32, 50, 32, 50, 48, 52, 56, 10, 4, 32, 0, 0, 0, 0, 0, 0, 4, 32, 0, 0, 0,
        0, 0, 0, 4, 32, 4, 32, 4, 32, 0, 0, 4, 32, 4, 32, 4, 32, 0, 0, 0, 0, 0, 0,
    ];

    let res = enc.write_wide(EncodingType::Raw, 3, 2, 2048, &data);
    assert!(res.is_ok());
    assert_eq!(enc.writer[..], expected[..]);
}

#[test]
fn ppm_test_write_ppm_wide_plain() {
    let mut enc = Encoder::new(Vec::<u8>::new());

    let data: Vec<u16> = vec![
        1056, 0, 0, 0, 1056, 0, 0, 0, 1056, 1056, 1056, 0, 1056, 1056, 1056, 0, 0, 0,
    ];
    let expected = format!(
        "P3\n3 2 2048\n1056 0 0\n0 1056 0\n0 0 1056\n1056 1056 0\n1056 1056 1056\n0 0 0\n"
    );

    let res = enc.write_wide(EncodingType::Plain, 3, 2, 2048, &data);
    assert!(res.is_ok());
    assert_eq!(enc.writer[..], *expected.as_bytes());
}
