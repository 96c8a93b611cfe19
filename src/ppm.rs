//! PPM (Portable Pixel Map): images of `height` rows of `width` RGB triplets.
//!
//! A raw PPM file (`P6`) is a sequence of images whose channel values
//! are unsigned binary integers. A plain PPM file (`P3`) holds one image
//! whose triplets are written as ASCII decimal numbers, one to a line.
use vstd::prelude::*;

use crate::codec::{encoder_outcome, read_outcome, write_image, Image, StreamDecoder};
use crate::fields::TypeInfo;
use crate::formats::{format_of, info_result, widen, Family, Info};
use crate::samples::SampleBuffer;
use crate::text::skip_spaces;
use crate::{EncodingType, NetpbmError};

verus! {

/// PPM encoder: appends encoded images to a byte buffer, which holds the
/// file written so far.
#[derive(Debug)]
pub struct Encoder {
    /// The bytes written so far.
    pub writer: Vec<u8>,
}

impl Encoder {
    /// Creates an encoder that appends to `writer`.
    pub fn new(writer: Vec<u8>) -> (r: Self)
        ensures
            r.writer == writer,
    {
        Encoder { writer }
    }

    /// Writes one PPM image of 8-bit samples. With a bit depth above 255
    /// each raw sample takes two bytes.
    ///
    /// Nothing stops a second image in a plain file; a plain file should
    /// hold one image, and that is the caller's to keep.
    pub fn write(
        &mut self,
        encoding: EncodingType,
        width: u32,
        height: u32,
        bit_depth: u16,
        samples: &[u8],
    ) -> (r: Result<(), NetpbmError>)
        ensures
            encoder_outcome(
                old(self).writer@,
                final(self).writer@,
                r,
                info_result(format_of(Family::Ppm, encoding), width, height, bit_depth as u32, 3),
                Seq::empty(),
                widen(samples@),
            ),
    {
        let info = match Info::new_ppm(encoding, width, height, bit_depth) {
            Err(e) => return Err(e),
            Ok(i) => i,
        };
        let none = TypeInfo::Empty;
        write_image(&mut self.writer, &info, &none, &SampleBuffer::EIGHT(samples))
    }

    /// Writes one PPM image of 16-bit samples. With a bit depth below 256
    /// each raw sample is truncated to its low byte; otherwise it takes two
    /// bytes, most significant first.
    ///
    /// Nothing stops a second image in a plain file; a plain file should
    /// hold one image, and that is the caller's to keep.
    pub fn write_wide(
        &mut self,
        encoding: EncodingType,
        width: u32,
        height: u32,
        bit_depth: u16,
        samples: &[u16],
    ) -> (r: Result<(), NetpbmError>)
        ensures
            encoder_outcome(
                old(self).writer@,
                final(self).writer@,
                r,
                info_result(format_of(Family::Ppm, encoding), width, height, bit_depth as u32, 3),
                Seq::empty(),
                samples@,
            ),
    {
        let info = match Info::new_ppm(encoding, width, height, bit_depth) {
            Err(e) => return Err(e),
            Ok(i) => i,
        };
        let none = TypeInfo::Empty;
        write_image(&mut self.writer, &info, &none, &SampleBuffer::SIXTEEN(samples))
    }
}

/// PPM decoder over the whole content of a file.
pub struct Decoder {
    inner: StreamDecoder,
}

impl Decoder {
    /// The stream being decoded.
    pub closed spec fn stream(self) -> StreamDecoder {
        self.inner
    }

    /// Creates a decoder over the whole content of a file; images of
    /// other families are refused.
    pub fn new(data: Vec<u8>) -> (r: Self)
        ensures
            r.stream().data() == data@,
            r.stream().position() == 0,
            r.stream().family() == Some(Family::Ppm),
    {
        Decoder { inner: StreamDecoder::new(data, Some(Family::Ppm)) }
    }

    /// Whether anything but whitespace is left to decode.
    pub fn has_image(&self) -> (r: bool)
        ensures
            r == (skip_spaces(self.stream().data(), self.stream().position()) < self.stream().data().len()),
    {
        self.inner.has_image()
    }

    /// Decodes the next PPM image and moves past it.
    pub fn read(&mut self) -> (r: Result<Image, NetpbmError>)
        ensures
            read_outcome(old(self).stream(), final(self).stream(), r),
    {
        self.inner.read()
    }
}

} // verus!
