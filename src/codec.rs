//! Whole images: header and raster together, encoded into a byte buffer
//! and decoded from the complete content of a file.
use vstd::prelude::*;

use crate::fields::{type_tags, TypeInfo};
use crate::formats::{family_of, validation, Family, Info, NetpbmFormat};
use crate::header::{
    build_header, header_bytes, header_result, lemma_header_round_trip, parse_header, tag_fits,
};
use crate::raster::{
    lemma_raster_round_trip, push_raster, raster_bytes, raster_decode, read_raster,
};
use crate::samples::SampleBuffer;
use crate::text::{push_all, skip_spaces, spaces_end};
use crate::NetpbmError;

verus! {

/// The bytes of one image: its header, then its raster.
pub open spec fn image_bytes(info: Info, tags: Seq<Seq<char>>, s: Seq<u16>) -> Seq<u8> {
    header_bytes(info, tags) + raster_bytes(info, s)
}

/// What encoding one image gives: the first validation error, or the
/// image's bytes.
pub open spec fn encoding_result(info: Info, tags: Seq<Seq<char>>, s: Seq<u16>) -> Result<
    Seq<u8>,
    NetpbmError,
> {
    match validation(info, s) {
        Err(e) => Err(e),
        Ok(_) => Ok(image_bytes(info, tags, s)),
    }
}

/// How appending an encoded image to a buffer ends, given the record that
/// the arguments build: a field or sample error leaves the buffer as it
/// was; otherwise the image's bytes are appended.
pub open spec fn encoder_outcome(
    before: Seq<u8>,
    after: Seq<u8>,
    r: Result<(), NetpbmError>,
    info: Result<Info, NetpbmError>,
    tags: Seq<Seq<char>>,
    s: Seq<u16>,
) -> bool {
    match info {
        Err(e) => r == Err::<(), NetpbmError>(e) && after == before,
        Ok(i) => match encoding_result(i, tags, s) {
            Err(e) => r == Err::<(), NetpbmError>(e) && after == before,
            Ok(b) => r is Ok && after == before + b,
        },
    }
}

/// Encodes one image: validates the samples against the record, then
/// builds header and raster.
pub fn encode_image(info: &Info, type_info: &TypeInfo, samples: &SampleBuffer) -> (r: Result<
    Vec<u8>,
    NetpbmError,
>)
    requires
        info.wf(),
    ensures
        match encoding_result(*info, type_tags(*type_info), samples.values()) {
            Err(e) => r == Err::<Vec<u8>, NetpbmError>(e),
            Ok(b) => r is Ok && r->Ok_0@ == b,
        },
{
    match samples.validate(info) {
        Err(e) => return Err(e),
        Ok(()) => {},
    }
    let mut out = build_header(info, type_info);
    push_raster(&mut out, info, samples);
    Ok(out)
}

/// Encodes one image and appends it to `out`; nothing is appended when
/// the samples do not agree with the record.
pub fn write_image(out: &mut Vec<u8>, info: &Info, type_info: &TypeInfo, samples: &SampleBuffer) -> (r: Result<(), NetpbmError>)
    requires
        info.wf(),
    ensures
        encoder_outcome(old(out)@, final(out)@, r, Ok(*info), type_tags(*type_info), samples.values()),
{
    let bytes = match encode_image(info, type_info, samples) {
        Err(e) => return Err(e),
        Ok(b) => b,
    };
    push_all(out, bytes.as_slice());
    Ok(())
}

/// One decoded image: its record, its tuple type, and its samples.
#[derive(Debug, Clone, PartialEq, Eq)]
pub struct Image {
    pub info: Info,
    pub type_info: TypeInfo,
    pub samples: Vec<u16>,
}

/// What decoding the image at position `i` gives: the first error, or
/// its record, tags and samples with the position where it ends.
pub open spec fn decode_result(s: Seq<u8>, i: int, family: Option<Family>) -> Result<
    (Info, Seq<Seq<char>>, Seq<u16>, int),
    NetpbmError,
> {
    match header_result(s, i, family) {
        Err(e) => Err(e),
        Ok((info, tags, p)) => match raster_decode(s, p, info) {
            Err(e) => Err(e),
            Ok((v, end)) => Ok((info, tags, v, end)),
        },
    }
}

/// Whether a decoded image and its end match a spec outcome.
pub open spec fn decoded_as(
    img: Image,
    end: int,
    d: Result<(Info, Seq<Seq<char>>, Seq<u16>, int), NetpbmError>,
) -> bool {
    d == Ok::<(Info, Seq<Seq<char>>, Seq<u16>, int), NetpbmError>(
        (img.info, type_tags(img.type_info), img.samples@, end),
    )
}

/// Decodes the image at position `i`: its header, then its raster.
/// Where `family` is given, an image of another family is refused.
pub fn decode_image(s: &[u8], i: usize, family: Option<Family>) -> (r: Result<(Image, usize), NetpbmError>)
    requires
        i <= s@.len(),
    ensures
        match r {
            Ok((img, end)) => decoded_as(img, end as int, decode_result(s@, i as int, family)),
            Err(x) => decode_result(s@, i as int, family) == Err::<
                (Info, Seq<Seq<char>>, Seq<u16>, int),
                NetpbmError,
            >(x),
        },
        r matches Ok((_, end)) ==> end <= s@.len(),
{
    let (info, type_info, p) = match parse_header(s, i, family) {
        Err(e) => return Err(e),
        Ok(h) => h,
    };
    let (samples, end) = match read_raster(s, p, &info) {
        Err(e) => return Err(e),
        Ok(x) => x,
    };
    Ok((Image { info, type_info, samples }, end))
}

/// How a read ends: the data and family stay; on success the image is
/// the one whose magic number stands at the old position, and the new
/// position is its end; on failure the position stays.
pub open spec fn read_outcome(before: StreamDecoder, after: StreamDecoder, r: Result<Image, NetpbmError>) -> bool {
    let d = decode_result(before.data(), before.position(), before.family());
    &&& after.data() == before.data()
    &&& after.family() == before.family()
    &&& match r {
        Ok(img) => decoded_as(img, after.position(), d),
        Err(x) => after.position() == before.position() && d == Err::<(Info, Seq<Seq<char>>, Seq<u16>, int), NetpbmError>(x),
    }
}

/// Reads images one after another from bytes held in memory: a raw file
/// may hold several images back to back, a plain file one.
pub struct StreamDecoder {
    data: Vec<u8>,
    pos: usize,
    family: Option<Family>,
}

impl StreamDecoder {
    #[verifier::type_invariant]
    spec fn inv(self) -> bool {
        self.pos <= self.data@.len()
    }

    /// The bytes being decoded.
    pub closed spec fn data(self) -> Seq<u8> {
        self.data@
    }

    /// Where the next image is looked for.
    pub closed spec fn position(self) -> int {
        self.pos as int
    }

    /// The family accepted, or `None` for all.
    pub closed spec fn family(self) -> Option<Family> {
        self.family
    }

    /// Creates a decoder over the whole content of a file; where `family`
    /// is given, images of other families are refused.
    pub fn new(data: Vec<u8>, family: Option<Family>) -> (r: Self)
        ensures
            r.data() == data@,
            r.position() == 0,
            r.family() == family,
    {
        StreamDecoder { data, pos: 0, family }
    }

    /// Whether anything but whitespace is left to decode.
    pub fn has_image(&self) -> (r: bool)
        ensures
            r == (skip_spaces(self.data(), self.position()) < self.data().len()),
    {
        proof {
            use_type_invariant(self);
        }
        spaces_end(self.data.as_slice(), self.pos) < self.data.len()
    }

    /// Decodes the image whose magic number stands at the position, and
    /// moves past it; on failure the position stays.
    pub fn read(&mut self) -> (r: Result<Image, NetpbmError>)
        ensures
            read_outcome(*old(self), *final(self), r),
    {
        proof {
            use_type_invariant(&*self);
        }
        match decode_image(self.data.as_slice(), self.pos, self.family) {
            Err(e) => Err(e),
            Ok((img, end)) => {
                self.pos = end;
                Ok(img)
            },
        }
    }
}

/// Decoding an encoded image gives back the record and the samples it was
/// encoded from, with its tags for PAM and none for the other formats.
/// The read ends right after the image. This holds wherever the image stands in the input and
/// whatever follows it, with or without a family asked for; tags must be
/// fit to stand on a header line.
#[verifier::rlimit(60)]
pub proof fn lemma_image_round_trip(
    pre: Seq<u8>,
    info: Info,
    tags: Seq<Seq<char>>,
    v: Seq<u16>,
    rest: Seq<u8>,
    family: Option<Family>,
)
    requires
        info.wf(),
        validation(info, v) is Ok,
        family is None || family == Some(family_of(info.format)),
        info.format == NetpbmFormat::PAM ==> forall|k: int| 0 <= k < tags.len() ==> tag_fits(#[trigger] tags[k]),
    ensures
        encoding_result(info, tags, v) == Ok::<Seq<u8>, NetpbmError>(image_bytes(info, tags, v)),
        decode_result(pre + image_bytes(info, tags, v) + rest, pre.len() as int, family) == Ok::<
            (Info, Seq<Seq<char>>, Seq<u16>, int),
            NetpbmError,
        >(
            (
                info,
                if info.format == NetpbmFormat::PAM {
                    tags
                } else {
                    Seq::empty()
                },
                v,
                (pre.len() + image_bytes(info, tags, v).len()) as int,
            ),
        ),
{
    let hb = header_bytes(info, tags);
    let rb = raster_bytes(info, v);
    let s = pre + image_bytes(info, tags, v) + rest;
    assert(s =~= pre + hb + (rb + rest));
    lemma_header_round_trip(pre, info, tags, rb + rest, family);
    let p = (pre.len() + hb.len()) as int;
    assert(s.subrange(p, p + rb.len()) =~= rb);
    lemma_raster_round_trip(s, p, info, v);
    let d = raster_decode(s, p, info);
    assert(d == Ok::<(Seq<u16>, int), NetpbmError>((v, p + rb.len())));
}

} // verus!
