//! Encoding and decoding of the netpbm image family: PBM, PGM, PPM and PAM.
use vstd::prelude::*;
use vstd::string::StringSliceAdditionalSpecFns;
use vstd::utf8::*;

pub mod codec;
pub mod fields;
pub mod formats;
pub mod header;
pub mod pam;
pub mod pbm;
pub mod pgm;
pub mod pnm;
pub mod ppm;
pub mod raster;
pub mod samples;
pub mod text;

pub use crate::fields::{BitDepth, ChannelDepth, ImageDim, MagicNumber, TypeInfo};
pub use crate::formats::{Family, Info, NetpbmFormat};
pub use crate::header::PamKeyword;

use crate::fields::magic_bytes;
use crate::header::{keyword_text, lemma_keyword, string_from_utf8};
use crate::text::{decimal, lemma_ascii_utf8, lemma_decimal_utf8, push_decimal, push_str};

verus! {

/// Whether sample data is serialized as bytes (`Raw`) or as ASCII
/// decimal numbers separated by whitespace (`Plain`).
///
/// PAM has no plain variant and is always `Raw`. In both variants the
/// header is ASCII.
#[derive(Debug, Clone, Copy, PartialEq, Eq, Structural)]
pub enum EncodingType {
    Raw,
    Plain,
}

/// Errors of construction, encoding and decoding.
#[derive(Debug, Clone, PartialEq, Eq)]
pub enum NetpbmError {
    /// The bit depth (maxval) is outside `[1, 65535]`.
    InvalidBitDepth { value: u32 },
    /// An image dimension is zero.
    InvalidImageDim { value: u32 },
    /// A channel depth is zero.
    InvalidChannelDepth { value: u32 },
    /// The number of samples does not match the image dimensions.
    MalformedInitArray { data_size: usize, width: ImageDim, height: ImageDim },
    /// A sample exceeds the bit depth; `offset` is its index among all
    /// samples.
    OversizedSample { offset: usize, bit_depth: BitDepth },
    /// A tuple is longer than the channel depth.
    OversizedTuple { length: usize, channel_depth: ChannelDepth },
    /// The byte sink failed.
    IOOperationFailed { info: String },
    /// The two bytes at `offset` are no magic number.
    UnknownMagicNumber { offset: usize },
    /// The magic number belongs to another format family than the one
    /// asked for.
    WrongFormat { magic: MagicNumber },
    /// The byte at `offset` does not fit the grammar; an offset equal to
    /// the input's length means that the input ended too early.
    UnexpectedToken { offset: usize },
    /// A PAM header ended without this keyword.
    MissingField { keyword: PamKeyword },
}

/// The bytes of an error's message: what went wrong, with the value,
/// offset or sizes that it carries.
pub open spec fn error_text(e: NetpbmError) -> Seq<u8> {
    match e {
        NetpbmError::InvalidBitDepth { value } => "Bit depth ".spec_bytes() + decimal(value as nat)
            + " should be in range [1, 65535]".spec_bytes(),
        NetpbmError::InvalidImageDim { value } => "Image dimension ".spec_bytes() + decimal(
            value as nat,
        ) + " should be greater than 0".spec_bytes(),
        NetpbmError::InvalidChannelDepth { value } => "Channel depth ".spec_bytes() + decimal(
            value as nat,
        ) + " should be greater than 0".spec_bytes(),
        NetpbmError::MalformedInitArray { data_size, width, height } => "Data size ".spec_bytes()
            + decimal(data_size as nat) + " does not match image dimensions (".spec_bytes()
            + decimal(width.spec_value() as nat) + ", ".spec_bytes() + decimal(
            height.spec_value() as nat,
        ) + ")".spec_bytes(),
        NetpbmError::OversizedSample { offset, bit_depth } => "Sample value at byte [".spec_bytes()
            + decimal(offset as nat) + "] is larger than the expected bit depth ".spec_bytes()
            + decimal(bit_depth.spec_value() as nat),
        NetpbmError::OversizedTuple { length, channel_depth } => "Tuple size ".spec_bytes()
            + decimal(length as nat) + " is larger than the expected channel depth ".spec_bytes()
            + decimal(channel_depth.spec_value() as nat),
        NetpbmError::IOOperationFailed { info } => "IO operation failed: ".spec_bytes()
            + encode_utf8(info@),
        NetpbmError::UnknownMagicNumber { offset } => "No magic number at byte ".spec_bytes()
            + decimal(offset as nat),
        NetpbmError::WrongFormat { magic } => "Magic number ".spec_bytes() + magic_bytes(magic)
            + " does not belong to the expected format".spec_bytes(),
        NetpbmError::UnexpectedToken { offset } => "Unexpected token at byte ".spec_bytes()
            + decimal(offset as nat),
        NetpbmError::MissingField { keyword } => "PAM header lacks the field ".spec_bytes()
            + keyword_text(keyword),
    }
}

impl NetpbmError {
    /// The bytes of the error's message.
    pub fn message_bytes(&self) -> (r: Vec<u8>)
        ensures
            r@ == error_text(*self),
    {
        let mut out: Vec<u8> = Vec::new();
        match self {
            NetpbmError::InvalidBitDepth { value } => {
                push_str(&mut out, "Bit depth ");
                push_decimal(&mut out, *value as u64);
                push_str(&mut out, " should be in range [1, 65535]");
            },
            NetpbmError::InvalidImageDim { value } => {
                push_str(&mut out, "Image dimension ");
                push_decimal(&mut out, *value as u64);
                push_str(&mut out, " should be greater than 0");
            },
            NetpbmError::InvalidChannelDepth { value } => {
                push_str(&mut out, "Channel depth ");
                push_decimal(&mut out, *value as u64);
                push_str(&mut out, " should be greater than 0");
            },
            NetpbmError::MalformedInitArray { data_size, width, height } => {
                push_str(&mut out, "Data size ");
                push_decimal(&mut out, *data_size as u64);
                push_str(&mut out, " does not match image dimensions (");
                push_decimal(&mut out, width.value() as u64);
                push_str(&mut out, ", ");
                push_decimal(&mut out, height.value() as u64);
                push_str(&mut out, ")");
            },
            NetpbmError::OversizedSample { offset, bit_depth } => {
                push_str(&mut out, "Sample value at byte [");
                push_decimal(&mut out, *offset as u64);
                push_str(&mut out, "] is larger than the expected bit depth ");
                push_decimal(&mut out, bit_depth.value() as u64);
            },
            NetpbmError::OversizedTuple { length, channel_depth } => {
                push_str(&mut out, "Tuple size ");
                push_decimal(&mut out, *length as u64);
                push_str(&mut out, " is larger than the expected channel depth ");
                push_decimal(&mut out, channel_depth.value() as u64);
            },
            NetpbmError::IOOperationFailed { info } => {
                push_str(&mut out, "IO operation failed: ");
                push_str(&mut out, info.as_str());
            },
            NetpbmError::UnknownMagicNumber { offset } => {
                push_str(&mut out, "No magic number at byte ");
                push_decimal(&mut out, *offset as u64);
            },
            NetpbmError::WrongFormat { magic } => {
                push_str(&mut out, "Magic number ");
                let m = magic.to_bytes();
                out.push(m[0]);
                out.push(m[1]);
                push_str(&mut out, " does not belong to the expected format");
            },
            NetpbmError::UnexpectedToken { offset } => {
                push_str(&mut out, "Unexpected token at byte ");
                push_decimal(&mut out, *offset as u64);
            },
            NetpbmError::MissingField { keyword } => {
                push_str(&mut out, "PAM header lacks the field ");
                let k = keyword.text();
                crate::text::push_all(&mut out, k.as_slice());
            },
        }
        assert(out@ =~= error_text(*self));
        out
    }

    /// The error's message, for display.
    pub fn message(&self) -> (r: String)
        ensures
            r@ == decode_utf8(error_text(*self)),
    {
        let bytes = self.message_bytes();
        proof {
            lemma_error_text_utf8(*self);
        }
        match string_from_utf8(bytes) {
            Some(t) => t,
            None => String::new(),
        }
    }
}

/// Two valid UTF-8 sequences joined stay valid.
proof fn lemma_join(x: Seq<u8>, y: Seq<u8>)
    requires
        valid_utf8(x),
        valid_utf8(y),
    ensures
        valid_utf8(x + y),
{
    valid_utf8_concat(x, y);
}

/// Text of a string literal is valid UTF-8.
proof fn lemma_text(t: &str)
    ensures
        valid_utf8(t.spec_bytes()),
{
    encode_utf8_valid_utf8(t@);
}

/// Every message is valid UTF-8.
proof fn lemma_error_text_utf8(e: NetpbmError)
    ensures
        valid_utf8(error_text(e)),
{
    match e {
        NetpbmError::InvalidBitDepth { value } => {
            let (a, d, b) = ("Bit depth ", decimal(value as nat), " should be in range [1, 65535]");
            lemma_text(a);
            lemma_text(b);
            lemma_decimal_utf8(value as nat);
            lemma_join(a.spec_bytes(), d);
            lemma_join(a.spec_bytes() + d, b.spec_bytes());
        },
        NetpbmError::InvalidImageDim { value } => {
            let (a, d, b) = ("Image dimension ", decimal(value as nat), " should be greater than 0");
            lemma_text(a);
            lemma_text(b);
            lemma_decimal_utf8(value as nat);
            lemma_join(a.spec_bytes(), d);
            lemma_join(a.spec_bytes() + d, b.spec_bytes());
        },
        NetpbmError::InvalidChannelDepth { value } => {
            let (a, d, b) = ("Channel depth ", decimal(value as nat), " should be greater than 0");
            lemma_text(a);
            lemma_text(b);
            lemma_decimal_utf8(value as nat);
            lemma_join(a.spec_bytes(), d);
            lemma_join(a.spec_bytes() + d, b.spec_bytes());
        },
        NetpbmError::MalformedInitArray { data_size, width, height } => {
            let t1 = "Data size ".spec_bytes();
            let d1 = decimal(data_size as nat);
            let t2 = " does not match image dimensions (".spec_bytes();
            let d2 = decimal(width.spec_value() as nat);
            let t3 = ", ".spec_bytes();
            let d3 = decimal(height.spec_value() as nat);
            let t4 = ")".spec_bytes();
            lemma_text("Data size ");
            lemma_text(" does not match image dimensions (");
            lemma_text(", ");
            lemma_text(")");
            lemma_decimal_utf8(data_size as nat);
            lemma_decimal_utf8(width.spec_value() as nat);
            lemma_decimal_utf8(height.spec_value() as nat);
            lemma_join(t1, d1);
            lemma_join(t1 + d1, t2);
            lemma_join(t1 + d1 + t2, d2);
            lemma_join(t1 + d1 + t2 + d2, t3);
            lemma_join(t1 + d1 + t2 + d2 + t3, d3);
            lemma_join(t1 + d1 + t2 + d2 + t3 + d3, t4);
        },
        NetpbmError::OversizedSample { offset, bit_depth } => {
            let t1 = "Sample value at byte [".spec_bytes();
            let d1 = decimal(offset as nat);
            let t2 = "] is larger than the expected bit depth ".spec_bytes();
            let d2 = decimal(bit_depth.spec_value() as nat);
            lemma_text("Sample value at byte [");
            lemma_text("] is larger than the expected bit depth ");
            lemma_decimal_utf8(offset as nat);
            lemma_decimal_utf8(bit_depth.spec_value() as nat);
            lemma_join(t1, d1);
            lemma_join(t1 + d1, t2);
            lemma_join(t1 + d1 + t2, d2);
        },
        NetpbmError::OversizedTuple { length, channel_depth } => {
            let t1 = "Tuple size ".spec_bytes();
            let d1 = decimal(length as nat);
            let t2 = " is larger than the expected channel depth ".spec_bytes();
            let d2 = decimal(channel_depth.spec_value() as nat);
            lemma_text("Tuple size ");
            lemma_text(" is larger than the expected channel depth ");
            lemma_decimal_utf8(length as nat);
            lemma_decimal_utf8(channel_depth.spec_value() as nat);
            lemma_join(t1, d1);
            lemma_join(t1 + d1, t2);
            lemma_join(t1 + d1 + t2, d2);
        },
        NetpbmError::IOOperationFailed { info } => {
            lemma_text("IO operation failed: ");
            encode_utf8_valid_utf8(info@);
            lemma_join("IO operation failed: ".spec_bytes(), encode_utf8(info@));
        },
        NetpbmError::UnknownMagicNumber { offset } => {
            lemma_text("No magic number at byte ");
            lemma_decimal_utf8(offset as nat);
            lemma_join("No magic number at byte ".spec_bytes(), decimal(offset as nat));
        },
        NetpbmError::WrongFormat { magic } => {
            let t1 = "Magic number ".spec_bytes();
            let m = magic_bytes(magic);
            let t2 = " does not belong to the expected format".spec_bytes();
            lemma_text("Magic number ");
            lemma_text(" does not belong to the expected format");
            lemma_ascii_utf8(m);
            lemma_join(t1, m);
            lemma_join(t1 + m, t2);
        },
        NetpbmError::UnexpectedToken { offset } => {
            lemma_text("Unexpected token at byte ");
            lemma_decimal_utf8(offset as nat);
            lemma_join("Unexpected token at byte ".spec_bytes(), decimal(offset as nat));
        },
        NetpbmError::MissingField { keyword } => {
            lemma_keyword(keyword);
            lemma_text("PAM header lacks the field ");
            lemma_ascii_utf8(keyword_text(keyword));
            lemma_join("PAM header lacks the field ".spec_bytes(), keyword_text(keyword));
        },
    }
}

} // verus!
