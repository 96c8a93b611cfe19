//! PAM (Portable Arbitrary Map): images of `height` rows of `width`
//! tuples, each of `depth` samples.
//!
//! A PAM file (`P7`) is a sequence of images. Its header is a block of
//! `KEYWORD value` lines ended by `ENDHDR`, with optional `TUPLTYPE`
//! lines that say what the samples mean; samples are stored as in the
//! raw PGM and PPM formats.
use vstd::prelude::*;

use crate::codec::{encoder_outcome, read_outcome, write_image, Image, StreamDecoder};
use crate::fields::{type_tags, TypeInfo};
use crate::formats::{info_result, widen, Family, Info, NetpbmFormat};
use crate::samples::SampleBuffer;
use crate::text::skip_spaces;
use crate::NetpbmError;

verus! {

/// PAM encoder: appends encoded images to a byte buffer, which holds the
/// file written so far.
#[derive(Debug)]
pub struct Encoder {
    /// The bytes written so far.
    pub writer: Vec<u8>,
}

impl Encoder {
    /// Creates an encoder that appends to `writer`.
    pub fn new(writer: Vec<u8>) -> (r: Self)
        ensures
            r.writer == writer,
    {
        Encoder { writer }
    }

    /// Writes one PAM image of 8-bit samples.
    pub fn write(
        &mut self,
        width: u32,
        height: u32,
        bit_depth: u8,
        channels: u32,
        type_info: &TypeInfo,
        samples: &[u8],
    ) -> (r: Result<(), NetpbmError>)
        ensures
            encoder_outcome(
                old(self).writer@,
                final(self).writer@,
                r,
                info_result(NetpbmFormat::PAM, width, height, bit_depth as u32, channels),
                type_tags(*type_info),
                widen(samples@),
            ),
    {
        let info = match Info::new_pam(width, height, bit_depth as u16, channels) {
            Err(e) => return Err(e),
            Ok(i) => i,
        };
        write_image(&mut self.writer, &info, type_info, &SampleBuffer::EIGHT(samples))
    }

    /// Writes one PAM image of 16-bit samples. With a bit depth below 256
    /// each sample is truncated to its low byte; otherwise it takes two
    /// bytes, most significant first.
    pub fn write_wide(
        &mut self,
        width: u32,
        height: u32,
        bit_depth: u16,
        channels: u32,
        type_info: &TypeInfo,
        samples: &[u16],
    ) -> (r: Result<(), NetpbmError>)
        ensures
            encoder_outcome(
                old(self).writer@,
                final(self).writer@,
                r,
                info_result(NetpbmFormat::PAM, width, height, bit_depth as u32, channels),
                type_tags(*type_info),
                samples@,
            ),
    {
        let info = match Info::new_pam(width, height, bit_depth, channels) {
            Err(e) => return Err(e),
            Ok(i) => i,
        };
        write_image(&mut self.writer, &info, type_info, &SampleBuffer::SIXTEEN(samples))
    }
}

/// PAM decoder over the whole content of a file.
pub struct Decoder {
    inner: StreamDecoder,
}

impl Decoder {
    /// The stream being decoded.
    pub closed spec fn stream(self) -> StreamDecoder {
        self.inner
    }

    /// Creates a decoder over the whole content of a file; images of
    /// other families are refused.
    pub fn new(data: Vec<u8>) -> (r: Self)
        ensures
            r.stream().data() == data@,
            r.stream().position() == 0,
            r.stream().family() == Some(Family::Pam),
    {
        Decoder { inner: StreamDecoder::new(data, Some(Family::Pam)) }
    }

    /// Whether anything but whitespace is left to decode.
    pub fn has_image(&self) -> (r: bool)
        ensures
            r == (skip_spaces(self.stream().data(), self.stream().position()) < self.stream().data().len()),
    {
        self.inner.has_image()
    }

    /// Decodes the next PAM image and moves past it.
    pub fn read(&mut self) -> (r: Result<Image, NetpbmError>)
        ensures
            read_outcome(old(self).stream(), final(self).stream(), r),
    {
        self.inner.read()
    }
}

} // verus!
