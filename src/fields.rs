//! Range-checked scalar fields of a netpbm header.
use vstd::prelude::*;

use crate::NetpbmError;

verus! {

/// The two ASCII bytes `P` and a digit that open every netpbm image.
#[derive(Debug, Clone, Copy, PartialEq, Eq, Structural)]
pub enum MagicNumber {
    /// PBM plain
    P1,
    /// PGM plain
    P2,
    /// PPM plain
    P3,
    /// PBM raw
    P4,
    /// PGM raw
    P5,
    /// PPM raw
    P6,
    /// PAM
    P7,
}

/// The digit of a magic number, as a number from 1 to 7.
pub open spec fn magic_digit(m: MagicNumber) -> u8 {
    match m {
        MagicNumber::P1 => 1,
        MagicNumber::P2 => 2,
        MagicNumber::P3 => 3,
        MagicNumber::P4 => 4,
        MagicNumber::P5 => 5,
        MagicNumber::P6 => 6,
        MagicNumber::P7 => 7,
    }
}

/// The two bytes of a magic number: `P` followed by its ASCII digit.
pub open spec fn magic_bytes(m: MagicNumber) -> Seq<u8> {
    seq![80u8, (48 + magic_digit(m)) as u8]
}

impl MagicNumber {
    /// Returns the magic number's two bytes.
    pub fn to_bytes(&self) -> (r: [u8; 2])
        ensures
            r@ == magic_bytes(*self),
    {
        let d: u8 = match self {
            MagicNumber::P1 => 1,
            MagicNumber::P2 => 2,
            MagicNumber::P3 => 3,
            MagicNumber::P4 => 4,
            MagicNumber::P5 => 5,
            MagicNumber::P6 => 6,
            MagicNumber::P7 => 7,
        };
        let r: [u8; 2] = [80u8, 48 + d];
        assert(r@ =~= magic_bytes(*self));
        r
    }

    /// Recognises a magic number from its two bytes.
    pub fn from_bytes(bytes: &[u8; 2]) -> (r: Option<MagicNumber>)
        ensures
            r matches Some(m) ==> magic_bytes(m) == bytes@,
            r is None ==> forall|m: MagicNumber| magic_bytes(m) != bytes@,
    {
        let b0 = bytes[0];
        let b1 = bytes[1];
        if b0 != 80 {
            return None;
        }
        let r = if b1 == 49 {
            Some(MagicNumber::P1)
        } else if b1 == 50 {
            Some(MagicNumber::P2)
        } else if b1 == 51 {
            Some(MagicNumber::P3)
        } else if b1 == 52 {
            Some(MagicNumber::P4)
        } else if b1 == 53 {
            Some(MagicNumber::P5)
        } else if b1 == 54 {
            Some(MagicNumber::P6)
        } else if b1 == 55 {
            Some(MagicNumber::P7)
        } else {
            None
        };
        proof {
            if let Some(m) = r {
                assert(magic_bytes(m) =~= bytes@);
            } else {
                assert forall|m: MagicNumber| magic_bytes(m) != bytes@ by {
                    assert(magic_bytes(m)[1] == (48 + magic_digit(m)) as u8);
                }
            }
        }
        r
    }
}

/// Bit depth field: the maximum sample value of an image, which netpbm
/// calls `maxval`. It lies in `[1, 65535]`.
#[derive(Debug, Clone, Copy, PartialEq, Eq, Structural)]
pub struct BitDepth(u16);

impl BitDepth {
    /// The smallest accepted bit depth.
    pub const MIN: u32 = 1;

    /// The largest accepted bit depth.
    pub const MAX: u32 = 65535;

    /// The value held.
    pub closed spec fn spec_value(self) -> u16 {
        self.0
    }

    /// The bit depth that holds `v`.
    pub closed spec fn spec_new(v: u16) -> Self {
        BitDepth(v)
    }

    /// Creates a bit depth; fails unless `1 <= value <= 65535`.
    pub fn new(value: u32) -> (r: Result<Self, NetpbmError>)
        ensures
            r == if 1 <= value <= 65535 {
                Ok(BitDepth::spec_new(value as u16))
            } else {
                Err(NetpbmError::InvalidBitDepth { value })
            },
    {
        if Self::MIN <= value && value <= Self::MAX {
            Ok(BitDepth(value as u16))
        } else {
            Err(NetpbmError::InvalidBitDepth { value })
        }
    }

    /// Returns the value held.
    pub fn value(&self) -> (r: u16)
        ensures
            r == self.spec_value(),
    {
        self.0
    }

    /// Whether a sample of this bit depth takes two bytes in a raw
    /// raster, that is whether the bit depth exceeds 255.
    pub fn is_multi_byte(&self) -> (r: bool)
        ensures
            r == (self.spec_value() > 255),
    {
        self.0 > 255
    }
}

/// Image dimension field: a width or a height, never zero.
#[derive(Debug, Clone, Copy, PartialEq, Eq, Structural)]
pub struct ImageDim(u32);

impl ImageDim {
    /// The value held.
    pub closed spec fn spec_value(self) -> u32 {
        self.0
    }

    /// The field that holds `v`.
    pub closed spec fn spec_new(v: u32) -> Self {
        ImageDim(v)
    }

    /// Creates an image dimension; fails on zero.
    pub fn new(value: u32) -> (r: Result<Self, NetpbmError>)
        ensures
            r == if value > 0 {
                Ok(ImageDim::spec_new(value))
            } else {
                Err(NetpbmError::InvalidImageDim { value })
            },
    {
        if value > 0 {
            Ok(ImageDim(value))
        } else {
            Err(NetpbmError::InvalidImageDim { value })
        }
    }

    /// Returns the value held.
    pub fn value(&self) -> (r: u32)
        ensures
            r == self.spec_value(),
    {
        self.0
    }
}

/// Channel depth field: the number of samples in a tuple, never zero.
#[derive(Debug, Clone, Copy, PartialEq, Eq, Structural)]
pub struct ChannelDepth(u32);

impl ChannelDepth {
    /// The value held.
    pub closed spec fn spec_value(self) -> u32 {
        self.0
    }

    /// The field that holds `v`.
    pub closed spec fn spec_new(v: u32) -> Self {
        ChannelDepth(v)
    }

    /// Creates a channel depth; fails on zero.
    pub fn new(value: u32) -> (r: Result<Self, NetpbmError>)
        ensures
            r == if value > 0 {
                Ok(ChannelDepth::spec_new(value))
            } else {
                Err(NetpbmError::InvalidChannelDepth { value })
            },
    {
        if value > 0 {
            Ok(ChannelDepth(value))
        } else {
            Err(NetpbmError::InvalidChannelDepth { value })
        }
    }

    /// Returns the value held.
    pub fn value(&self) -> (r: u32)
        ensures
            r == self.spec_value(),
    {
        self.0
    }
}

/// A bit depth is determined by its value.
pub broadcast proof fn lemma_bit_depth_value(b: BitDepth)
    ensures
        #[trigger] BitDepth::spec_new(b.spec_value()) == b,
{
}

/// A bit depth holds the value it was made from.
pub broadcast proof fn lemma_bit_depth_new(v: u16)
    ensures
        #[trigger] BitDepth::spec_new(v).spec_value() == v,
{
}

/// An image dimension is determined by its value.
pub broadcast proof fn lemma_image_dim_value(d: ImageDim)
    ensures
        #[trigger] ImageDim::spec_new(d.spec_value()) == d,
{
}

/// An image dimension holds the value it was made from.
pub broadcast proof fn lemma_image_dim_new(v: u32)
    ensures
        #[trigger] ImageDim::spec_new(v).spec_value() == v,
{
}

/// A channel depth is determined by its value.
pub broadcast proof fn lemma_channel_depth_value(c: ChannelDepth)
    ensures
        #[trigger] ChannelDepth::spec_new(c.spec_value()) == c,
{
}

/// A channel depth holds the value it was made from.
pub broadcast proof fn lemma_channel_depth_new(v: u32)
    ensures
        #[trigger] ChannelDepth::spec_new(v).spec_value() == v,
{
}

/// The facts that tie each field to its value; client proofs bring them
/// in with `broadcast use`.
pub broadcast group group_field_values {
    lemma_bit_depth_value,
    lemma_bit_depth_new,
    lemma_image_dim_value,
    lemma_image_dim_new,
    lemma_channel_depth_value,
    lemma_channel_depth_new,
}

/// Tuple type field of a PAM image: semantic tags such as `RGB_ALPHA`,
/// in order, or no tags at all.
#[derive(Debug, Clone, PartialEq, Eq)]
pub enum TypeInfo {
    Info(Vec<String>),
    Empty,
}

/// The tags of a tuple type, each as the characters of its string; no
/// tags for `Empty`.
pub open spec fn type_tags(t: TypeInfo) -> Seq<Seq<char>> {
    match t {
        TypeInfo::Info(v) => v@.map_values(|s: String| s@),
        TypeInfo::Empty => Seq::empty(),
    }
}

} // verus!
