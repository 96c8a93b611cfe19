use netpbm::{BitDepth, ChannelDepth, EncodingType, ImageDim, Info, MagicNumber, NetpbmFormat};

#[test]
fn formats_test_bit_depth() {
    assert!(BitDepth::new(1).is_ok());
    assert!(BitDepth::new(255).is_ok());
    assert!(BitDepth::new(65535).is_ok());
    assert!(BitDepth::new(0).is_err());
}

#[test]
fn formats_test_image_dim() {
    assert!(ImageDim::new(1).is_ok());
    assert!(ImageDim::new(0).is_err());
    assert!(ImageDim::new(1000000).is_ok());
}

#[test]
fn formats_test_channel_depth() {
    assert!(ChannelDepth::new(1).is_ok());
    assert!(ChannelDepth::new(3).is_ok());
    assert!(ChannelDepth::new(0).is_err());
    assert!(ChannelDepth::new(100).is_ok());
}

#[test]
fn test_magic() {
    assert_eq!(NetpbmFormat::PBMRaw.magic(), MagicNumber::P4);
    assert_eq!(NetpbmFormat::PBMPlain.magic(), MagicNumber::P1);
    assert_eq!(NetpbmFormat::PGMRaw.magic(), MagicNumber::P5);
    assert_eq!(NetpbmFormat::PGMPlain.magic(), MagicNumber::P2);
    assert_eq!(NetpbmFormat::PPMRaw.magic(), MagicNumber::P6);
    assert_eq!(NetpbmFormat::PPMPlain.magic(), MagicNumber::P3);
    assert_eq!(NetpbmFormat::PAM.magic(), MagicNumber::P7);
}

#[test]
fn test_pnm() {
    assert!(NetpbmFormat::PBMRaw.is_pnm());
    assert!(NetpbmFormat::PBMPlain.is_pnm());
    assert!(NetpbmFormat::PGMRaw.is_pnm());
    assert!(NetpbmFormat::PGMPlain.is_pnm());
    assert!(NetpbmFormat::PPMRaw.is_pnm());
    assert!(NetpbmFormat::PPMPlain.is_pnm());
    assert!(!NetpbmFormat::PAM.is_pnm());
}

#[test]
fn test_samples_valid() {
    let samples: Vec<u8> = vec![1, 0, 1, 0, 1, 0, 0, 1, 0, 1, 0, 1];
    let info = Info::new_pbm(EncodingType::Raw, 3, 4).expect("pbm");
    assert!(info.validate_u8_samples(&samples).is_ok());
    let info = Info::new_pgm(EncodingType::Plain, 3, 4, 255).expect("pgm");
    assert!(info.validate_u8_samples(&samples).is_ok());
    let info = Info::new_ppm(EncodingType::Raw, 4, 1, 10000).expect("ppm");
    assert!(info.validate_u8_samples(&samples).is_ok());
    let info = Info::new_pam(3, 4, 255, 1).expect("pam");
    assert!(info.validate_u8_samples(&samples).is_ok());

    let samples: Vec<u16> = vec![123, 23, 211, 0, 1232, 24, 100, 1, 1, 1, 100, 100];
    let info = Info::new_pgm(EncodingType::Plain, 3, 4, 1232).expect("pgm");
    assert!(info.validate_u16_samples(&samples).is_ok());
    let info = Info::new_ppm(EncodingType::Raw, 1, 4, 10000).expect("ppm");
    assert!(info.validate_u16_samples(&samples).is_ok());
    let info = Info::new_pam(3, 2, 1500, 2).expect("pam");
    assert!(info.validate_u16_samples(&samples).is_ok());
}

#[test]
fn test_samples_invalid() {
    let samples: Vec<u8> = vec![1, 0, 1, 0, 2, 0, 0, 1, 0, 1, 0, 1];
    let info = Info::new_pbm(EncodingType::Raw, 3, 4).expect("pbm");
    assert!(info.validate_u8_samples(&samples).is_err());
    let info = Info::new_pgm(EncodingType::Plain, 3, 4, 1).expect("pgm");
    assert!(info.validate_u8_samples(&samples).is_err());
    let info = Info::new_ppm(EncodingType::Raw, 4, 2, 10000).expect("ppm");
    assert!(info.validate_u8_samples(&samples).is_err());
    let info = Info::new_pam(3, 4, 255, 2).expect("pam");
    assert!(info.validate_u8_samples(&samples).is_err());

    let samples: Vec<u16> = vec![123, 23, 211, 0, 1232, 24, 100, 1, 1, 1, 100, 100];
    let info = Info::new_pbm(EncodingType::Plain, 3, 4).expect("pbm");
    assert!(info.validate_u16_samples(&samples).is_err());
    let info = Info::new_pgm(EncodingType::Raw, 11, 1, 1232).expect("pgm");
    assert!(info.validate_u16_samples(&samples).is_err());
    let info = Info::new_ppm(EncodingType::Plain, 3, 4, 10000).expect("ppm");
    assert!(info.validate_u16_samples(&samples).is_err());
    let info = Info::new_pam(1, 4, 1500, 4).expect("pam");
    assert!(info.validate_u16_samples(&samples).is_err());
}
