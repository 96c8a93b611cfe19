use netpbm::codec::Image;
use netpbm::header::{build_header, parse_header};
use netpbm::pam;
use netpbm::pbm;
use netpbm::pgm;
use netpbm::ppm;
use netpbm::{BitDepth, EncodingType, Family, ImageDim, Info, NetpbmError, NetpbmFormat, TypeInfo};

#[test]
fn bit_depth_bounds() {
    assert_eq!(BitDepth::new(1).unwrap().value(), 1);
    assert_eq!(BitDepth::new(65535).unwrap().value(), 65535);
    assert_eq!(BitDepth::new(0), Err(NetpbmError::InvalidBitDepth { value: 0 }));
    assert_eq!(BitDepth::new(65536), Err(NetpbmError::InvalidBitDepth { value: 65536 }));
}

#[test]
fn image_dim_bounds() {
    assert_eq!(ImageDim::new(1).unwrap().value(), 1);
    assert_eq!(ImageDim::new(u32::MAX).unwrap().value(), u32::MAX);
    assert_eq!(ImageDim::new(0), Err(NetpbmError::InvalidImageDim { value: 0 }));
}

#[test]
fn info_reports_first_invalid_field() {
    assert_eq!(
        Info::new_pgm(EncodingType::Raw, 0, 0, 0),
        Err(NetpbmError::InvalidImageDim { value: 0 })
    );
    assert_eq!(
        Info::new_pam(2, 2, 0, 0),
        Err(NetpbmError::InvalidBitDepth { value: 0 })
    );
    assert_eq!(
        Info::new_pam(2, 2, 5, 0),
        Err(NetpbmError::InvalidChannelDepth { value: 0 })
    );
    let info = Info::new_ppm(EncodingType::Plain, 3, 2, 255).unwrap();
    assert_eq!(info.format, NetpbmFormat::PPMPlain);
    assert_eq!(info.channels.value(), 3);
}

fn pbm_raw(width: u32, height: u32, samples: &[u8]) -> Vec<u8> {
    let mut enc = pbm::Encoder::new(Vec::<u8>::new());
    enc.write(EncodingType::Raw, width, height, samples).unwrap();
    enc.writer
}

#[test]
fn pbm_rows_are_padded_separately() {
    let samples: Vec<u8> = vec![1, 0, 1, 0, 1, 0, 1, 0, 1, 0, 1, 0];
    let out = pbm_raw(4, 3, &samples);
    assert_eq!(out, b"P4\n4 3\n\xa0\xa0\xa0".to_vec());

    let mut samples: Vec<u8> = vec![1; 10];
    samples.extend([0, 1, 0, 1, 0, 1, 0, 1, 0, 1]);
    let out = pbm_raw(10, 2, &samples);
    assert_eq!(out, b"P4\n10 2\n\xff\xc0\x55\x40".to_vec());

    let samples: Vec<u8> = vec![1, 1, 0, 0, 1, 1, 0, 0];
    let out = pbm_raw(8, 1, &samples);
    assert_eq!(out, b"P4\n8 1\n\xcc".to_vec());
}

#[test]
fn raw_sample_width_follows_bit_depth() {
    let samples: Vec<u16> = vec![255, 17];
    let mut enc = pgm::Encoder::new(Vec::<u8>::new());
    enc.write_wide(EncodingType::Raw, 2, 1, 255, &samples).unwrap();
    assert_eq!(enc.writer, b"P5\n2 1 255\n\xff\x11".to_vec());

    let mut enc = pgm::Encoder::new(Vec::<u8>::new());
    enc.write_wide(EncodingType::Raw, 2, 1, 256, &samples).unwrap();
    assert_eq!(enc.writer, b"P5\n2 1 256\n\x00\xff\x00\x11".to_vec());

    let samples: Vec<u16> = vec![0x1234, 0, 0xffff];
    let mut enc = ppm::Encoder::new(Vec::<u8>::new());
    enc.write_wide(EncodingType::Raw, 1, 1, 65535, &samples).unwrap();
    assert_eq!(enc.writer, b"P6\n1 1 65535\n\x12\x34\x00\x00\xff\xff".to_vec());

    let samples: Vec<u8> = vec![7, 200];
    let mut enc = pgm::Encoder::new(Vec::<u8>::new());
    enc.write(EncodingType::Raw, 2, 1, 300, &samples).unwrap();
    assert_eq!(enc.writer, b"P5\n2 1 300\n\x00\x07\x00\xc8".to_vec());
}

#[test]
fn sample_validation_reports_size_then_offset() {
    let samples: Vec<u8> = vec![1, 0, 1, 0, 2, 0, 0, 1, 0, 1, 0, 1];
    let info = Info::new_pbm(EncodingType::Raw, 3, 4).unwrap();
    match info.validate_u8_samples(&samples) {
        Err(NetpbmError::OversizedSample { offset, bit_depth }) => {
            assert_eq!(offset, 4);
            assert_eq!(bit_depth.value(), 1);
        }
        other => panic!("unexpected {:?}", other),
    }
    let info = Info::new_pgm(EncodingType::Raw, 5, 2, 1).unwrap();
    match info.validate_u8_samples(&samples) {
        Err(NetpbmError::MalformedInitArray { data_size, width, height }) => {
            assert_eq!(data_size, 12);
            assert_eq!(width.value(), 5);
            assert_eq!(height.value(), 2);
        }
        other => panic!("unexpected {:?}", other),
    }
    let wide: Vec<u16> = vec![3, 9, 2];
    let info = Info::new_pam(1, 1, 8, 3).unwrap();
    assert!(matches!(
        info.validate_u16_samples(&wide),
        Err(NetpbmError::OversizedSample { offset: 1, .. })
    ));
}

#[test]
fn validation_failure_writes_nothing() {
    let mut enc = pgm::Encoder::new(Vec::<u8>::new());
    let samples: Vec<u8> = vec![1, 2, 3];
    assert!(enc.write(EncodingType::Raw, 2, 2, 255, &samples).is_err());
    assert!(enc.write(EncodingType::Raw, 3, 1, 2, &samples).is_err());
    assert!(enc.write(EncodingType::Raw, 0, 1, 2, &samples).is_err());
    assert!(enc.writer.is_empty());
}

#[test]
fn pam_tuple_type_lines() {
    let info = Info::new_pam(1, 1, 255, 1).unwrap();
    let empty = build_header(&info, &TypeInfo::Empty);
    assert_eq!(empty, b"P7\nWIDTH 1\nHEIGHT 1\nDEPTH 1\nMAXVAL 255\nENDHDR\n".to_vec());
    let none = build_header(&info, &TypeInfo::Info(vec![]));
    assert_eq!(none, empty);
    let one = build_header(&info, &TypeInfo::Info(vec!["GRAYSCALE".to_string()]));
    assert_eq!(
        one,
        b"P7\nWIDTH 1\nHEIGHT 1\nDEPTH 1\nMAXVAL 255\nTUPLTYPE GRAYSCALE\nENDHDR\n".to_vec()
    );
    let two = build_header(
        &info,
        &TypeInfo::Info(vec!["RGB".to_string(), "ALPHA".to_string()]),
    );
    assert_eq!(
        two,
        b"P7\nWIDTH 1\nHEIGHT 1\nDEPTH 1\nMAXVAL 255\nTUPLTYPE RGB\nTUPLTYPE ALPHA\nENDHDR\n".to_vec()
    );
}

#[test]
fn header_parse_inverts_build() {
    let infos = vec![
        Info::new_pbm(EncodingType::Raw, 9, 2).unwrap(),
        Info::new_pbm(EncodingType::Plain, 1, 70).unwrap(),
        Info::new_pgm(EncodingType::Raw, 640, 480, 65535).unwrap(),
        Info::new_pgm(EncodingType::Plain, 3, 3, 15).unwrap(),
        Info::new_ppm(EncodingType::Raw, 10, 1, 255).unwrap(),
        Info::new_ppm(EncodingType::Plain, 1, 1, 1).unwrap(),
        Info::new_pam(7, 5, 300, 4).unwrap(),
    ];
    for info in infos {
        let tags = TypeInfo::Info(vec!["RGB_ALPHA".to_string(), "x y".to_string()]);
        let bytes = build_header(&info, &tags);
        let (parsed, type_info, end) = parse_header(&bytes, 0, None).unwrap();
        assert_eq!(parsed, info);
        assert_eq!(end, bytes.len());
        if info.format == NetpbmFormat::PAM {
            assert_eq!(type_info, tags);
        } else {
            assert_eq!(type_info, TypeInfo::Empty);
        }
    }
}

fn decode_one(bytes: Vec<u8>, family: Family) -> Image {
    let mut dec = netpbm::codec::StreamDecoder::new(bytes, Some(family));
    let img = dec.read().unwrap();
    assert!(!dec.has_image());
    img
}

#[test]
fn round_trip_pbm() {
    let samples: Vec<u8> = vec![1, 0, 0, 1, 1, 1, 0, 0, 1, 0, 1, 1, 1, 1, 0, 0, 0, 1, 0, 1];
    for encoding in [EncodingType::Raw, EncodingType::Plain] {
        let mut enc = pbm::Encoder::new(Vec::<u8>::new());
        enc.write(encoding, 10, 2, &samples).unwrap();
        let img = decode_one(enc.writer, Family::Pbm);
        assert_eq!(img.info, Info::new_pbm(encoding, 10, 2).unwrap());
        let expected: Vec<u16> = samples.iter().map(|&s| s as u16).collect();
        assert_eq!(img.samples, expected);
    }
}

#[test]
fn round_trip_pgm_and_ppm() {
    let samples: Vec<u16> = vec![0, 1, 300, 65535, 42, 7];
    for encoding in [EncodingType::Raw, EncodingType::Plain] {
        for bit_depth in [65535u16, 300] {
            let narrow = bit_depth == 300;
            let data: Vec<u16> = if narrow {
                vec![0, 1, 300, 299, 42, 7]
            } else {
                samples.clone()
            };
            let mut enc = pgm::Encoder::new(Vec::<u8>::new());
            enc.write_wide(encoding, 3, 2, bit_depth, &data).unwrap();
            let img = decode_one(enc.writer, Family::Pgm);
            assert_eq!(img.info, Info::new_pgm(encoding, 3, 2, bit_depth).unwrap());
            assert_eq!(img.samples, data);

            let mut enc = ppm::Encoder::new(Vec::<u8>::new());
            enc.write_wide(encoding, 2, 1, bit_depth, &data).unwrap();
            let img = decode_one(enc.writer, Family::Ppm);
            assert_eq!(img.info, Info::new_ppm(encoding, 2, 1, bit_depth).unwrap());
            assert_eq!(img.samples, data);
        }
        let bytes: Vec<u8> = vec![0, 255, 17, 3];
        let mut enc = pgm::Encoder::new(Vec::<u8>::new());
        enc.write(encoding, 2, 2, 255, &bytes).unwrap();
        let img = decode_one(enc.writer, Family::Pgm);
        assert_eq!(img.samples, vec![0u16, 255, 17, 3]);
    }
}

#[test]
fn round_trip_pam() {
    let data: Vec<u16> = vec![1, 2, 3, 4, 5, 6, 7, 8];
    let tags = TypeInfo::Info(vec!["RGB_ALPHA".to_string()]);
    let mut enc = pam::Encoder::new(Vec::<u8>::new());
    enc.write_wide(2, 1, 1000, 4, &tags, &data).unwrap();
    let mut dec = pam::Decoder::new(enc.writer);
    let img = dec.read().unwrap();
    assert_eq!(img.info, Info::new_pam(2, 1, 1000, 4).unwrap());
    assert_eq!(img.type_info, tags);
    assert_eq!(img.samples, data);
    assert!(!dec.has_image());

    let bytes: Vec<u8> = vec![9, 8, 7];
    let mut enc = pam::Encoder::new(Vec::<u8>::new());
    enc.write(3, 1, 9, 1, &TypeInfo::Empty, &bytes).unwrap();
    let mut dec = pam::Decoder::new(enc.writer);
    let img = dec.read().unwrap();
    assert_eq!(img.type_info, TypeInfo::Empty);
    assert_eq!(img.samples, vec![9u16, 8, 7]);
}
