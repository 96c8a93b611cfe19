//! The seven netpbm formats and the metadata record of one image.
use vstd::prelude::*;

use crate::fields::{group_field_values, BitDepth, ChannelDepth, ImageDim, MagicNumber};
use crate::{EncodingType, NetpbmError};

verus! {

broadcast use group_field_values;

/// The netpbm formats: PBM, PGM and PPM in their `raw` and `plain`
/// variants, and PAM. PBM, PGM and PPM together are called PNM.
#[derive(Debug, Clone, Copy, PartialEq, Eq, Structural)]
pub enum NetpbmFormat {
    PBMRaw,
    PBMPlain,
    PGMRaw,
    PGMPlain,
    PPMRaw,
    PPMPlain,
    PAM,
}

/// The base family of a format, without its encoding.
#[derive(Debug, Clone, Copy, PartialEq, Eq, Structural)]
pub enum Family {
    Pbm,
    Pgm,
    Ppm,
    Pam,
}

/// The family of a format.
pub open spec fn family_of(f: NetpbmFormat) -> Family {
    match f {
        NetpbmFormat::PBMRaw | NetpbmFormat::PBMPlain => Family::Pbm,
        NetpbmFormat::PGMRaw | NetpbmFormat::PGMPlain => Family::Pgm,
        NetpbmFormat::PPMRaw | NetpbmFormat::PPMPlain => Family::Ppm,
        NetpbmFormat::PAM => Family::Pam,
    }
}

/// The encoding of a format; PAM counts as raw.
pub open spec fn encoding_of(f: NetpbmFormat) -> EncodingType {
    match f {
        NetpbmFormat::PBMPlain | NetpbmFormat::PGMPlain | NetpbmFormat::PPMPlain => EncodingType::Plain,
        _ => EncodingType::Raw,
    }
}

/// The format of a family in an encoding; PAM has only one.
pub open spec fn format_of(family: Family, e: EncodingType) -> NetpbmFormat {
    match (family, e) {
        (Family::Pbm, EncodingType::Raw) => NetpbmFormat::PBMRaw,
        (Family::Pbm, EncodingType::Plain) => NetpbmFormat::PBMPlain,
        (Family::Pgm, EncodingType::Raw) => NetpbmFormat::PGMRaw,
        (Family::Pgm, EncodingType::Plain) => NetpbmFormat::PGMPlain,
        (Family::Ppm, EncodingType::Raw) => NetpbmFormat::PPMRaw,
        (Family::Ppm, EncodingType::Plain) => NetpbmFormat::PPMPlain,
        (Family::Pam, _) => NetpbmFormat::PAM,
    }
}

/// The magic number of a format.
pub open spec fn magic_of(f: NetpbmFormat) -> MagicNumber {
    match f {
        NetpbmFormat::PBMPlain => MagicNumber::P1,
        NetpbmFormat::PGMPlain => MagicNumber::P2,
        NetpbmFormat::PPMPlain => MagicNumber::P3,
        NetpbmFormat::PBMRaw => MagicNumber::P4,
        NetpbmFormat::PGMRaw => MagicNumber::P5,
        NetpbmFormat::PPMRaw => MagicNumber::P6,
        NetpbmFormat::PAM => MagicNumber::P7,
    }
}

/// The format that a magic number stands for.
pub open spec fn format_of_magic(m: MagicNumber) -> NetpbmFormat {
    match m {
        MagicNumber::P1 => NetpbmFormat::PBMPlain,
        MagicNumber::P2 => NetpbmFormat::PGMPlain,
        MagicNumber::P3 => NetpbmFormat::PPMPlain,
        MagicNumber::P4 => NetpbmFormat::PBMRaw,
        MagicNumber::P5 => NetpbmFormat::PGMRaw,
        MagicNumber::P6 => NetpbmFormat::PPMRaw,
        MagicNumber::P7 => NetpbmFormat::PAM,
    }
}

/// The number of channels that a PNM format fixes; PAM fixes none.
pub open spec fn fixed_channels(f: NetpbmFormat) -> Option<u32> {
    match family_of(f) {
        Family::Pbm | Family::Pgm => Some(1),
        Family::Ppm => Some(3),
        Family::Pam => None,
    }
}

impl NetpbmFormat {
    /// Whether the format is one of PBM, PGM and PPM.
    pub fn is_pnm(&self) -> (r: bool)
        ensures
            r == (*self != NetpbmFormat::PAM),
    {
        match self {
            NetpbmFormat::PAM => false,
            _ => true,
        }
    }

    /// The magic number of the format.
    pub fn magic(&self) -> (r: MagicNumber)
        ensures
            r == magic_of(*self),
    {
        match self {
            NetpbmFormat::PBMPlain => MagicNumber::P1,
            NetpbmFormat::PGMPlain => MagicNumber::P2,
            NetpbmFormat::PPMPlain => MagicNumber::P3,
            NetpbmFormat::PBMRaw => MagicNumber::P4,
            NetpbmFormat::PGMRaw => MagicNumber::P5,
            NetpbmFormat::PPMRaw => MagicNumber::P6,
            NetpbmFormat::PAM => MagicNumber::P7,
        }
    }

    /// The format that a magic number stands for.
    pub fn from_magic(m: MagicNumber) -> (r: NetpbmFormat)
        ensures
            r == format_of_magic(m),
            magic_of(r) == m,
    {
        match m {
            MagicNumber::P1 => NetpbmFormat::PBMPlain,
            MagicNumber::P2 => NetpbmFormat::PGMPlain,
            MagicNumber::P3 => NetpbmFormat::PPMPlain,
            MagicNumber::P4 => NetpbmFormat::PBMRaw,
            MagicNumber::P5 => NetpbmFormat::PGMRaw,
            MagicNumber::P6 => NetpbmFormat::PPMRaw,
            MagicNumber::P7 => NetpbmFormat::PAM,
        }
    }

    /// The family of the format.
    pub fn family(&self) -> (r: Family)
        ensures
            r == family_of(*self),
    {
        match self {
            NetpbmFormat::PBMRaw | NetpbmFormat::PBMPlain => Family::Pbm,
            NetpbmFormat::PGMRaw | NetpbmFormat::PGMPlain => Family::Pgm,
            NetpbmFormat::PPMRaw | NetpbmFormat::PPMPlain => Family::Ppm,
            NetpbmFormat::PAM => Family::Pam,
        }
    }

    /// The encoding of the format; PAM counts as raw.
    pub fn encoding(&self) -> (r: EncodingType)
        ensures
            r == encoding_of(*self),
    {
        match self {
            NetpbmFormat::PBMPlain | NetpbmFormat::PGMPlain | NetpbmFormat::PPMPlain => EncodingType::Plain,
            _ => EncodingType::Raw,
        }
    }

    /// The format of a family in an encoding.
    pub fn from_family(family: Family, encoding: EncodingType) -> (r: NetpbmFormat)
        ensures
            r == format_of(family, encoding),
            family_of(r) == family,
    {
        match (family, encoding) {
            (Family::Pbm, EncodingType::Raw) => NetpbmFormat::PBMRaw,
            (Family::Pbm, EncodingType::Plain) => NetpbmFormat::PBMPlain,
            (Family::Pgm, EncodingType::Raw) => NetpbmFormat::PGMRaw,
            (Family::Pgm, EncodingType::Plain) => NetpbmFormat::PGMPlain,
            (Family::Ppm, EncodingType::Raw) => NetpbmFormat::PPMRaw,
            (Family::Ppm, EncodingType::Plain) => NetpbmFormat::PPMPlain,
            (Family::Pam, _) => NetpbmFormat::PAM,
        }
    }
}

/// Metadata of one image, used for encoding and decoding.
#[derive(Debug, Clone, Copy, PartialEq, Eq, Structural)]
pub struct Info {
    /// The image format.
    pub format: NetpbmFormat,
    /// The encoding of the samples.
    pub encoding: EncodingType,
    /// The number of tuples in a row.
    pub width: ImageDim,
    /// The number of rows.
    pub height: ImageDim,
    /// The largest value a sample may hold.
    pub bit_depth: BitDepth,
    /// The number of samples in a tuple.
    pub channels: ChannelDepth,
}

/// The first field error among width, height, bit depth and channels, in
/// that order, or `None` where all four are valid.
pub open spec fn field_error(width: u32, height: u32, bit_depth: u32, channels: u32) -> Option<
    NetpbmError,
> {
    if width == 0 {
        Some(NetpbmError::InvalidImageDim { value: width })
    } else if height == 0 {
        Some(NetpbmError::InvalidImageDim { value: height })
    } else if !(1 <= bit_depth <= 65535) {
        Some(NetpbmError::InvalidBitDepth { value: bit_depth })
    } else if channels == 0 {
        Some(NetpbmError::InvalidChannelDepth { value: channels })
    } else {
        None
    }
}

/// The record of `format` that holds these field values.
pub open spec fn spec_info(format: NetpbmFormat, width: u32, height: u32, bit_depth: u32, channels: u32) -> Info {
    Info {
        format,
        encoding: encoding_of(format),
        width: ImageDim::spec_new(width),
        height: ImageDim::spec_new(height),
        bit_depth: BitDepth::spec_new(bit_depth as u16),
        channels: ChannelDepth::spec_new(channels),
    }
}

/// The outcome of building a record of `format` from raw field values:
/// the first field error, or the record that holds them.
pub open spec fn info_result(format: NetpbmFormat, width: u32, height: u32, bit_depth: u32, channels: u32) -> Result<Info, NetpbmError> {
    match field_error(width, height, bit_depth, channels) {
        Some(e) => Err(e),
        None => Ok(spec_info(format, width, height, bit_depth, channels)),
    }
}

impl Info {
    /// A consistent record: valid fields, the encoding of its format, the
    /// channel count that a PNM format fixes, and a bit depth of 1 for PBM.
    pub open spec fn wf(self) -> bool {
        &&& self.width.spec_value() > 0
        &&& self.height.spec_value() > 0
        &&& self.bit_depth.spec_value() >= 1
        &&& self.channels.spec_value() > 0
        &&& self.encoding == encoding_of(self.format)
        &&& (fixed_channels(self.format) matches Some(c) ==> self.channels.spec_value() == c)
        &&& (family_of(self.format) == Family::Pbm ==> self.bit_depth.spec_value() == 1)
    }

    /// The number of samples in the image: width, height and channels
    /// multiplied.
    pub open spec fn sample_count(self) -> int {
        self.width.spec_value() * self.height.spec_value() * self.channels.spec_value()
    }

    /// Builds a record of `format` from raw field values, checked in the
    /// order width, height, bit depth, channels.
    pub(crate) fn from_fields(
        format: NetpbmFormat,
        width: u32,
        height: u32,
        bit_depth: u32,
        channels: u32,
    ) -> (r: Result<Info, NetpbmError>)
        ensures
            r == info_result(format, width, height, bit_depth, channels),
    {
        let width = ImageDim::new(width)?;
        let height = ImageDim::new(height)?;
        let bit_depth = BitDepth::new(bit_depth)?;
        let channels = ChannelDepth::new(channels)?;
        let encoding = format.encoding();
        Ok(Info { format, encoding, width, height, bit_depth, channels })
    }

    /// Creates the record of a PBM image: bit depth 1, one channel.
    pub fn new_pbm(encoding: EncodingType, width: u32, height: u32) -> (r: Result<Info, NetpbmError>)
        ensures
            r == info_result(format_of(Family::Pbm, encoding), width, height, 1, 1),
            r is Ok ==> r->Ok_0.wf(),
    {
        let format = NetpbmFormat::from_family(Family::Pbm, encoding);
        Info::from_fields(format, width, height, 1, 1)
    }

    /// Creates the record of a PGM image: one channel.
    pub fn new_pgm(encoding: EncodingType, width: u32, height: u32, bit_depth: u16) -> (r: Result<
        Info,
        NetpbmError,
    >)
        ensures
            r == info_result(format_of(Family::Pgm, encoding), width, height, bit_depth as u32, 1),
            r is Ok ==> r->Ok_0.wf(),
    {
        let format = NetpbmFormat::from_family(Family::Pgm, encoding);
        Info::from_fields(format, width, height, bit_depth as u32, 1)
    }

    /// Creates the record of a PPM image: three channels.
    pub fn new_ppm(encoding: EncodingType, width: u32, height: u32, bit_depth: u16) -> (r: Result<
        Info,
        NetpbmError,
    >)
        ensures
            r == info_result(format_of(Family::Ppm, encoding), width, height, bit_depth as u32, 3),
            r is Ok ==> r->Ok_0.wf(),
    {
        let format = NetpbmFormat::from_family(Family::Ppm, encoding);
        Info::from_fields(format, width, height, bit_depth as u32, 3)
    }

    /// Creates the record of a PAM image, always raw.
    pub fn new_pam(width: u32, height: u32, bit_depth: u16, channels: u32) -> (r: Result<
        Info,
        NetpbmError,
    >)
        ensures
            r == info_result(NetpbmFormat::PAM, width, height, bit_depth as u32, channels),
            r is Ok ==> r->Ok_0.wf(),
    {
        Info::from_fields(NetpbmFormat::PAM, width, height, bit_depth as u32, channels)
    }

    /// Checks that `len` samples fill the image exactly.
    fn validate_sample_size(&self, len: usize) -> (r: Result<(), NetpbmError>)
        ensures
            r == size_check(*self, len as int),
    {
        let w = self.width.value() as u128;
        let h = self.height.value() as u128;
        let c = self.channels.value() as u128;
        assert(w * h <= 0xffff_ffff_ffff_ffff_ffff_ffffu128) by (nonlinear_arith)
            requires w <= 0xffff_ffff, h <= 0xffff_ffff;
        assert(w * h * c <= 0xffff_ffff_ffff_ffff_ffff_ffff_ffff_ffffu128) by (nonlinear_arith)
            requires w <= 0xffff_ffff, h <= 0xffff_ffff, c <= 0xffff_ffff;
        let expected = w * h * c;
        if expected != len as u128 {
            Err(NetpbmError::MalformedInitArray { data_size: len, width: self.width, height: self.height })
        } else {
            Ok(())
        }
    }

    /// Checks 8-bit samples against the record: their number first, then
    /// each value against the bit depth.
    pub fn validate_u8_samples(&self, samples: &[u8]) -> (r: Result<(), NetpbmError>)
        ensures
            r == validation(*self, widen(samples@)),
    {
        self.validate_sample_size(samples.len())?;
        let ghost s = widen(samples@);
        let mut k: usize = 0;
        while k < samples.len()
            invariant
                k <= samples@.len(),
                samples@.len() == self.sample_count(),
                s.len() == samples@.len(),
                s == widen(samples@),
                first_over(s, self.bit_depth.spec_value(), k as int) == first_over(s, self.bit_depth.spec_value(), 0),
            decreases samples@.len() - k,
        {
            if samples[k] as u16 > self.bit_depth.value() {
                assert(s[k as int] == samples@[k as int] as u16);
                assert(first_over(s, self.bit_depth.spec_value(), k as int) == k);
                return Err(NetpbmError::OversizedSample { offset: k, bit_depth: self.bit_depth });
            }
            k += 1;
        }
        Ok(())
    }

    /// Checks 16-bit samples against the record: their number first, then
    /// each value against the bit depth.
    pub fn validate_u16_samples(&self, samples: &[u16]) -> (r: Result<(), NetpbmError>)
        ensures
            r == validation(*self, samples@),
    {
        self.validate_sample_size(samples.len())?;
        let mut k: usize = 0;
        while k < samples.len()
            invariant
                k <= samples@.len(),
                samples@.len() == self.sample_count(),
                first_over(samples@, self.bit_depth.spec_value(), k as int) == first_over(samples@, self.bit_depth.spec_value(), 0),
            decreases samples@.len() - k,
        {
            if samples[k] > self.bit_depth.value() {
                assert(first_over(samples@, self.bit_depth.spec_value(), k as int) == k);
                return Err(NetpbmError::OversizedSample { offset: k, bit_depth: self.bit_depth });
            }
            k += 1;
        }
        Ok(())
    }
}

/// 8-bit samples as 16-bit values.
pub open spec fn widen(s: Seq<u8>) -> Seq<u16> {
    s.map_values(|x: u8| x as u16)
}

/// The offset of the first sample at or after `i` that exceeds `max`, or
/// the length of `s` if none does.
pub open spec fn first_over(s: Seq<u16>, max: u16, i: int) -> int
    decreases s.len() - i,
{
    if i < 0 || i >= s.len() {
        s.len() as int
    } else if s[i] > max {
        i
    } else {
        first_over(s, max, i + 1)
    }
}

/// The size check of `validation`: `len` must equal the sample count.
pub open spec fn size_check(info: Info, len: int) -> Result<(), NetpbmError> {
    if len != info.sample_count() {
        Err(NetpbmError::MalformedInitArray { data_size: len as usize, width: info.width, height: info.height })
    } else {
        Ok(())
    }
}

/// Whether samples agree with a record: a size mismatch comes first and
/// carries the actual length; then the first sample above the bit depth
/// is reported by its offset.
pub open spec fn validation(info: Info, s: Seq<u16>) -> Result<(), NetpbmError> {
    if s.len() != info.sample_count() {
        size_check(info, s.len() as int)
    } else if first_over(s, info.bit_depth.spec_value(), 0) < s.len() {
        Err(NetpbmError::OversizedSample {
            offset: first_over(s, info.bit_depth.spec_value(), 0) as usize,
            bit_depth: info.bit_depth,
        })
    } else {
        Ok(())
    }
}

/// Where no sample from `i` on is reported, none exceeds `max`.
pub proof fn lemma_none_over(s: Seq<u16>, max: u16, i: int)
    requires
        0 <= i,
        first_over(s, max, i) >= s.len(),
    ensures
        forall|k: int| i <= k < s.len() ==> #[trigger] s[k] <= max,
    decreases s.len() - i,
{
    if i < s.len() {
        lemma_none_over(s, max, i + 1);
    }
}

} // verus!
