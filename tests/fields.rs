use netpbm::{BitDepth, ChannelDepth, ImageDim};

#[test]
fn fields_test_bit_depth() {
    assert!(BitDepth::new(1).is_ok());
    assert!(BitDepth::new(255).is_ok());
    assert!(BitDepth::new(65535).is_ok());
    assert!(BitDepth::new(0).is_err());
    assert!(BitDepth::new(100000).is_err());
}

#[test]
fn fields_test_image_dim() {
    assert!(ImageDim::new(1).is_ok());
    assert!(ImageDim::new(0).is_err());
    assert!(ImageDim::new(1000000).is_ok());
}

#[test]
fn fields_test_channel_depth() {
    assert!(ChannelDepth::new(1).is_ok());
    assert!(ChannelDepth::new(3).is_ok());
    assert!(ChannelDepth::new(0).is_err());
    assert!(ChannelDepth::new(100).is_ok());
}

#[test]
fn header_test_bit_depth() {
    assert!(BitDepth::new(1).is_ok());
    assert!(BitDepth::new(255).is_ok());
    assert!(BitDepth::new(65535).is_ok());
    assert!(BitDepth::new(0).is_err());
}

#[test]
fn header_test_image_dim() {
    assert!(ImageDim::new(1).is_ok());
    assert!(ImageDim::new(0).is_err());
    assert!(ImageDim::new(1000000).is_ok());
}

#[test]
fn header_test_channel_depth() {
    assert!(ChannelDepth::new(1).is_ok());
    assert!(ChannelDepth::new(3).is_ok());
    assert!(ChannelDepth::new(0).is_err());
    assert!(ChannelDepth::new(100).is_ok());
}
