use netpbm::codec::{decode_image, StreamDecoder};
use netpbm::header::parse_header;
use netpbm::{pbm, pgm, ppm};
use netpbm::{EncodingType, Family, Info, MagicNumber, NetpbmError, PamKeyword, TypeInfo};

#[test]
fn header_comments_and_whitespace() {
    let bytes = b"P2\n# a comment\n 2\t1 # width and height\n\r255\n1\n  2\n".to_vec();
    let mut dec = pgm::Decoder::new(bytes);
    let img = dec.read().unwrap();
    assert_eq!(img.info, Info::new_pgm(EncodingType::Plain, 2, 1, 255).unwrap());
    assert_eq!(img.samples, vec![1u16, 2]);
    assert!(!dec.has_image());
}

#[test]
fn plain_pbm_digits_need_no_spaces() {
    let mut dec = pbm::Decoder::new(b"P1\n3 2\n101\n0 1\n1".to_vec());
    let img = dec.read().unwrap();
    assert_eq!(img.samples, vec![1u16, 0, 1, 0, 1, 1]);
}

#[test]
fn raw_stream_holds_several_images() {
    let mut bytes = b"P5\n2 1 255\n\x01\x02".to_vec();
    bytes.extend(b"P5\n1 1 65535\n\x01\x00");
    let mut dec = pgm::Decoder::new(bytes);
    assert!(dec.has_image());
    let first = dec.read().unwrap();
    assert_eq!(first.samples, vec![1u16, 2]);
    assert!(dec.has_image());
    let second = dec.read().unwrap();
    assert_eq!(second.info.bit_depth.value(), 65535);
    assert_eq!(second.samples, vec![256u16]);
    assert!(!dec.has_image());
}

#[test]
fn decode_image_reports_end() {
    let bytes = b"xxP6\n1 1 255\n\x01\x02\x03rest".to_vec();
    let (img, end) = decode_image(&bytes, 2, None).unwrap();
    assert_eq!(img.samples, vec![1u16, 2, 3]);
    assert_eq!(end, bytes.len() - 4);
}

#[test]
fn unknown_magic_number() {
    let mut dec = StreamDecoder::new(b"XY\n1 1\n".to_vec(), None);
    assert_eq!(dec.read(), Err(NetpbmError::UnknownMagicNumber { offset: 0 }));
    let mut dec = StreamDecoder::new(b"P".to_vec(), None);
    assert_eq!(dec.read(), Err(NetpbmError::UnknownMagicNumber { offset: 0 }));
    let mut dec = StreamDecoder::new(b"P8\n".to_vec(), None);
    assert_eq!(dec.read(), Err(NetpbmError::UnknownMagicNumber { offset: 0 }));
}

#[test]
fn wrong_format_family() {
    let mut dec = pbm::Decoder::new(b"P5\n1 1 255\n\x00".to_vec());
    assert_eq!(dec.read(), Err(NetpbmError::WrongFormat { magic: MagicNumber::P5 }));
    let mut dec = ppm::Decoder::new(b"P7\n".to_vec());
    assert_eq!(dec.read(), Err(NetpbmError::WrongFormat { magic: MagicNumber::P7 }));
}

#[test]
fn unexpected_tokens() {
    assert_eq!(
        parse_header(b"P5\n2 x 255\n", 0, None),
        Err(NetpbmError::UnexpectedToken { offset: 5 })
    );
    assert_eq!(
        parse_header(b"P4\n2 1", 0, None),
        Err(NetpbmError::UnexpectedToken { offset: 6 })
    );
    assert_eq!(
        parse_header(b"P5\n2 1 99999999999\n", 0, None),
        Err(NetpbmError::UnexpectedToken { offset: 7 })
    );
    let mut dec = pgm::Decoder::new(b"P5\n2 2 255\n\x01\x02\x03".to_vec());
    assert_eq!(dec.read(), Err(NetpbmError::UnexpectedToken { offset: 14 }));
    let mut dec = pgm::Decoder::new(b"P2\n2 1 255\n1 a".to_vec());
    assert_eq!(dec.read(), Err(NetpbmError::UnexpectedToken { offset: 13 }));
}

#[test]
fn header_fields_are_checked() {
    assert_eq!(
        parse_header(b"P5\n0 1 255\n", 0, None),
        Err(NetpbmError::InvalidImageDim { value: 0 })
    );
    assert_eq!(
        parse_header(b"P5\n1 1 70000\n", 0, None),
        Err(NetpbmError::InvalidBitDepth { value: 70000 })
    );
    assert_eq!(
        parse_header(b"P7\nWIDTH 1\nHEIGHT 1\nDEPTH 0\nMAXVAL 1\nENDHDR\n", 0, None),
        Err(NetpbmError::InvalidChannelDepth { value: 0 })
    );
}

#[test]
fn pam_header_keywords() {
    let bytes = b"P7\nMAXVAL 3\n# note\nDEPTH 1\nTUPLTYPE  GRAY SCALE\nHEIGHT 1\nWIDTH 2\nENDHDR\n\x01\x03";
    let mut dec = StreamDecoder::new(bytes.to_vec(), Some(Family::Pam));
    let img = dec.read().unwrap();
    assert_eq!(img.info, Info::new_pam(2, 1, 3, 1).unwrap());
    assert_eq!(img.type_info, TypeInfo::Info(vec!["GRAY SCALE".to_string()]));
    assert_eq!(img.samples, vec![1u16, 3]);

    assert_eq!(
        parse_header(b"P7\nWIDTH 1\nHEIGHT 1\nDEPTH 1\nENDHDR\n", 0, None),
        Err(NetpbmError::MissingField { keyword: PamKeyword::Maxval })
    );
    assert_eq!(
        parse_header(b"P7\nWIDTH 1\nWIDTH 2\n", 0, None),
        Err(NetpbmError::UnexpectedToken { offset: 11 })
    );
    assert_eq!(
        parse_header(b"P7\nCOLOR 1\n", 0, None),
        Err(NetpbmError::UnexpectedToken { offset: 3 })
    );
    assert_eq!(
        parse_header(b"P7\nTUPLTYPE \xff\nENDHDR\n", 0, None),
        Err(NetpbmError::UnexpectedToken { offset: 12 })
    );
}

#[test]
fn decoded_samples_are_checked() {
    let mut dec = pgm::Decoder::new(b"P2\n2 1 10\n3 11\n".to_vec());
    match dec.read() {
        Err(NetpbmError::OversizedSample { offset, bit_depth }) => {
            assert_eq!(offset, 1);
            assert_eq!(bit_depth.value(), 10);
        }
        other => panic!("unexpected {:?}", other),
    }
    let mut dec = pgm::Decoder::new(b"P5\n2 1 10\n\x03\x0b".to_vec());
    assert!(matches!(dec.read(), Err(NetpbmError::OversizedSample { offset: 1, .. })));
}

#[test]
fn error_messages() {
    assert_eq!(
        NetpbmError::InvalidBitDepth { value: 0 }.message(),
        "Bit depth 0 should be in range [1, 65535]"
    );
    assert_eq!(
        NetpbmError::InvalidImageDim { value: 0 }.message(),
        "Image dimension 0 should be greater than 0"
    );
    let info = Info::new_pgm(EncodingType::Raw, 3, 4, 255).unwrap();
    let e = info.validate_u8_samples(&[1, 2]).unwrap_err();
    assert_eq!(e.message(), "Data size 2 does not match image dimensions (3, 4)");
    let e = info.validate_u16_samples(&[0, 0, 0, 0, 0, 300, 0, 0, 0, 0, 0, 0]).unwrap_err();
    assert_eq!(
        e.message(),
        "Sample value at byte [5] is larger than the expected bit depth 255"
    );
    assert_eq!(
        NetpbmError::IOOperationFailed { info: "disk full".to_string() }.message(),
        "IO operation failed: disk full"
    );
    assert_eq!(
        NetpbmError::WrongFormat { magic: MagicNumber::P3 }.message(),
        "Magic number P3 does not belong to the expected format"
    );
    assert_eq!(
        NetpbmError::MissingField { keyword: PamKeyword::Depth }.message(),
        "PAM header lacks the field DEPTH"
    );
    assert_eq!(
        NetpbmError::UnexpectedToken { offset: 12 }.message_bytes(),
        b"Unexpected token at byte 12".to_vec()
    );
}

#[test]
fn magic_bytes_round_trip() {
    for m in [
        MagicNumber::P1,
        MagicNumber::P2,
        MagicNumber::P3,
        MagicNumber::P4,
        MagicNumber::P5,
        MagicNumber::P6,
        MagicNumber::P7,
    ] {
        let b = m.to_bytes();
        assert_eq!(b[0], b'P');
        assert_eq!(MagicNumber::from_bytes(&b), Some(m));
    }
    assert_eq!(MagicNumber::P6.to_bytes(), *b"P6");
    assert_eq!(MagicNumber::from_bytes(b"P0"), None);
    assert_eq!(MagicNumber::from_bytes(b"Q1"), None);
}

#[test]
fn pam_tags_keep_their_characters() {
    let tags = TypeInfo::Info(vec!["grün".to_string(), "RGB #2".to_string()]);
    let mut enc = netpbm::pam::Encoder::new(Vec::<u8>::new());
    enc.write(1, 1, 255, 1, &tags, &[5]).unwrap();
    let mut dec = netpbm::pam::Decoder::new(enc.writer);
    let img = dec.read().unwrap();
    assert_eq!(img.type_info, tags);

    let padded = TypeInfo::Info(vec!["  lead".to_string()]);
    let mut enc = netpbm::pam::Encoder::new(Vec::<u8>::new());
    enc.write(1, 1, 255, 1, &padded, &[5]).unwrap();
    let mut dec = netpbm::pam::Decoder::new(enc.writer);
    let img = dec.read().unwrap();
    assert_eq!(img.type_info, TypeInfo::Info(vec!["lead".to_string()]));
}

#[test]
fn magic_number_starts_the_input() {
    let mut dec = pbm::Decoder::new(b" P4\n8 1\n\xcc".to_vec());
    assert_eq!(dec.read(), Err(NetpbmError::UnknownMagicNumber { offset: 0 }));
    let mut dec = pbm::Decoder::new(b"P4\n8 1\n\xcc".to_vec());
    assert_eq!(dec.read().unwrap().samples, vec![1u16, 1, 0, 0, 1, 1, 0, 0]);
}

#[test]
fn plain_image_takes_its_final_line_feed() {
    let mut enc = pgm::Encoder::new(Vec::<u8>::new());
    enc.write(EncodingType::Plain, 2, 1, 9, &[3, 4]).unwrap();
    let len = enc.writer.len();
    let (img, end) = decode_image(&enc.writer, 0, Some(Family::Pgm)).unwrap();
    assert_eq!(img.samples, vec![3u16, 4]);
    assert_eq!(end, len);
}
