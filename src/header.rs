//! The ASCII header of a netpbm image: building it, and parsing it back.
use vstd::prelude::*;
use vstd::utf8::*;

use crate::fields::{group_field_values, magic_bytes, type_tags, MagicNumber, TypeInfo};
use crate::formats::{
    family_of, field_error, fixed_channels, format_of_magic, info_result, magic_of, spec_info, Family,
    Info, NetpbmFormat,
};
use crate::text::{
    blanks_end, decimal, digits_end, digits_value, find_line_end, find_word_end, gap_end, is_blank,
    is_digit, is_space, lemma_decimal_digits, lemma_line_end, lemma_read_decimal, lemma_word_end,
    line_end, push_all, push_decimal, read_digits, skip_blanks, skip_gap, word_end,
};
use crate::NetpbmError;

verus! {

broadcast use group_field_values;

/// The keywords of a PAM header.
#[derive(Debug, Clone, Copy, PartialEq, Eq, Structural)]
pub enum PamKeyword {
    Width,
    Height,
    Depth,
    Maxval,
    Tupltype,
    Endhdr,
}

/// The ASCII letters of a PAM keyword.
pub open spec fn keyword_text(k: PamKeyword) -> Seq<u8> {
    match k {
        PamKeyword::Width => seq![87u8, 73, 68, 84, 72],
        PamKeyword::Height => seq![72u8, 69, 73, 71, 72, 84],
        PamKeyword::Depth => seq![68u8, 69, 80, 84, 72],
        PamKeyword::Maxval => seq![77u8, 65, 88, 86, 65, 76],
        PamKeyword::Tupltype => seq![84u8, 85, 80, 76, 84, 89, 80, 69],
        PamKeyword::Endhdr => seq![69u8, 78, 68, 72, 68, 82],
    }
}

impl PamKeyword {
    /// The ASCII letters of the keyword.
    pub fn text(&self) -> (r: Vec<u8>)
        ensures
            r@ == keyword_text(*self),
    {
        let r = match self {
            PamKeyword::Width => vec![87u8, 73, 68, 84, 72],
            PamKeyword::Height => vec![72u8, 69, 73, 71, 72, 84],
            PamKeyword::Depth => vec![68u8, 69, 80, 84, 72],
            PamKeyword::Maxval => vec![77u8, 65, 88, 86, 65, 76],
            PamKeyword::Tupltype => vec![84u8, 85, 80, 76, 84, 89, 80, 69],
            PamKeyword::Endhdr => vec![69u8, 78, 68, 72, 68, 82],
        };
        assert(r@ =~= keyword_text(*self));
        r
    }
}

/// One line `KEYWORD value` of a PAM header.
pub open spec fn pam_line(k: PamKeyword, value: Seq<u8>) -> Seq<u8> {
    keyword_text(k) + seq![32u8] + value + seq![10u8]
}

/// One `TUPLTYPE` line for each tag, in order.
pub open spec fn tuple_type_lines(tags: Seq<Seq<char>>) -> Seq<u8>
    decreases tags.len(),
{
    if tags.len() == 0 {
        Seq::empty()
    } else {
        tuple_type_lines(tags.drop_last()) + pam_line(PamKeyword::Tupltype, encode_utf8(tags.last()))
    }
}

/// The header of a PBM, PGM or PPM image: the magic number on a line,
/// then width, height and (but for PBM) the bit depth, separated by
/// spaces and ended by a line feed.
pub open spec fn pnm_header(info: Info) -> Seq<u8> {
    let dims = magic_bytes(magic_of(info.format)) + seq![10u8] + decimal(
        info.width.spec_value() as nat,
    ) + seq![32u8] + decimal(info.height.spec_value() as nat);
    if family_of(info.format) == Family::Pbm {
        dims + seq![10u8]
    } else {
        dims + seq![32u8] + decimal(info.bit_depth.spec_value() as nat) + seq![10u8]
    }
}

/// The header of a PAM image: the magic number on a line, the lines
/// WIDTH, HEIGHT, DEPTH and MAXVAL, one TUPLTYPE line per tag, and ENDHDR.
pub open spec fn pam_header(info: Info, tags: Seq<Seq<char>>) -> Seq<u8> {
    magic_bytes(magic_of(info.format)) + seq![10u8]
        + pam_line(PamKeyword::Width, decimal(info.width.spec_value() as nat))
        + pam_line(PamKeyword::Height, decimal(info.height.spec_value() as nat))
        + pam_line(PamKeyword::Depth, decimal(info.channels.spec_value() as nat))
        + pam_line(PamKeyword::Maxval, decimal(info.bit_depth.spec_value() as nat))
        + tuple_type_lines(tags) + keyword_text(PamKeyword::Endhdr) + seq![10u8]
}

/// The header of an image of any format; the tags count for PAM only.
pub open spec fn header_bytes(info: Info, tags: Seq<Seq<char>>) -> Seq<u8> {
    if info.format == NetpbmFormat::PAM {
        pam_header(info, tags)
    } else {
        pnm_header(info)
    }
}

/// Appends one `KEYWORD value` line with a decimal value.
fn push_number_line(out: &mut Vec<u8>, k: PamKeyword, value: u64)
    ensures
        final(out)@ == old(out)@ + pam_line(k, decimal(value as nat)),
{
    let text = k.text();
    push_all(out, text.as_slice());
    out.push(32);
    push_decimal(out, value);
    out.push(10);
    assert(final(out)@ =~= old(out)@ + pam_line(k, decimal(value as nat)));
}

/// Builds the header of one image; `type_info` counts for PAM only.
pub fn build_header(info: &Info, type_info: &TypeInfo) -> (r: Vec<u8>)
    ensures
        r@ == header_bytes(*info, type_tags(*type_info)),
{
    let mut out: Vec<u8> = Vec::new();
    let magic = info.format.magic().to_bytes();
    out.push(magic[0]);
    out.push(magic[1]);
    out.push(10);
    if info.format.is_pnm() {
        push_decimal(&mut out, info.width.value() as u64);
        out.push(32);
        push_decimal(&mut out, info.height.value() as u64);
        match info.format.family() {
            Family::Pbm => {},
            _ => {
                out.push(32);
                push_decimal(&mut out, info.bit_depth.value() as u64);
            },
        }
        out.push(10);
        assert(out@ =~= pnm_header(*info));
    } else {
        assert(out@ =~= magic_bytes(magic_of(info.format)) + seq![10u8]);
        push_number_line(&mut out, PamKeyword::Width, info.width.value() as u64);
        push_number_line(&mut out, PamKeyword::Height, info.height.value() as u64);
        push_number_line(&mut out, PamKeyword::Depth, info.channels.value() as u64);
        push_number_line(&mut out, PamKeyword::Maxval, info.bit_depth.value() as u64);
        let ghost before = out@;
        let ghost tags = type_tags(*type_info);
        if let TypeInfo::Info(v) = type_info {
            let kw = PamKeyword::Tupltype.text();
            let mut k: usize = 0;
            while k < v.len()
                invariant
                    k <= v@.len(),
                    tags == v@.map_values(|s: String| s@),
                    kw@ == keyword_text(PamKeyword::Tupltype),
                    out@ == before + tuple_type_lines(tags.take(k as int)),
                decreases v@.len() - k,
            {
                let bytes = v[k].as_str().as_bytes();
                push_all(&mut out, kw.as_slice());
                out.push(32);
                push_all(&mut out, bytes);
                out.push(10);
                assert(tags.take(k + 1).drop_last() =~= tags.take(k as int));
                assert(out@ =~= before + tuple_type_lines(tags.take(k + 1)));
                k += 1;
            }
            assert(tags.take(k as int) =~= tags);
        } else {
            assert(tuple_type_lines(tags) =~= Seq::<u8>::empty());
            assert(out@ =~= before + tuple_type_lines(tags));
        }
        let end = PamKeyword::Endhdr.text();
        push_all(&mut out, end.as_slice());
        out.push(10);
        assert(out@ =~= pam_header(*info, tags));
    }
    out
}

/// The magic number at position `i`, if the two bytes there are one.
pub open spec fn magic_at(s: Seq<u8>, i: int) -> Option<MagicNumber> {
    if 0 <= i && i + 2 <= s.len() && s[i] == 80 && 49 <= s[i + 1] <= 55 {
        Some(
            match s[i + 1] {
                49u8 => MagicNumber::P1,
                50u8 => MagicNumber::P2,
                51u8 => MagicNumber::P3,
                52u8 => MagicNumber::P4,
                53u8 => MagicNumber::P5,
                54u8 => MagicNumber::P6,
                _ => MagicNumber::P7,
            },
        )
    } else {
        None
    }
}

/// The decimal number that starts exactly at `p`, with its end; it must
/// have a digit and fit in 32 bits.
pub open spec fn number_at(s: Seq<u8>, p: int) -> Result<(u32, int), NetpbmError> {
    let e = digits_end(s, p);
    if e == p || digits_value(s, p, e) > 0xffff_ffff {
        Err(NetpbmError::UnexpectedToken { offset: p as usize })
    } else {
        Ok((digits_value(s, p, e) as u32, e))
    }
}

/// The fields of a header as read, before their values are checked.
pub struct HeaderFields {
    pub format: NetpbmFormat,
    pub width: u32,
    pub height: u32,
    pub maxval: u32,
    pub depth: u32,
    pub tags: Seq<Seq<char>>,
    /// The position after the header, where the raster starts.
    pub end: int,
}

/// The fields of a PNM header whose magic number ends at `i`: width,
/// height and, but for PBM, the bit depth, each after whitespace and
/// comments; then one whitespace byte before the raster.
pub open spec fn pnm_fields(s: Seq<u8>, i: int, format: NetpbmFormat) -> Result<HeaderFields, NetpbmError> {
    match number_at(s, skip_gap(s, i, false)) {
        Err(e) => Err(e),
        Ok((w, e1)) => match number_at(s, skip_gap(s, e1, false)) {
            Err(e) => Err(e),
            Ok((h, e2)) => {
                let m = if family_of(format) == Family::Pbm {
                    Ok((1u32, e2))
                } else {
                    number_at(s, skip_gap(s, e2, false))
                };
                match m {
                    Err(e) => Err(e),
                    Ok((maxval, e3)) => if 0 <= e3 < s.len() && is_space(s[e3]) {
                        Ok(
                            HeaderFields {
                                format,
                                width: w,
                                height: h,
                                maxval,
                                depth: fixed_channels(format).unwrap(),
                                tags: Seq::empty(),
                                end: e3 + 1,
                            },
                        )
                    } else {
                        Err(NetpbmError::UnexpectedToken { offset: e3 as usize })
                    },
                }
            },
        },
    }
}

/// The PAM fields read so far.
pub struct PamFields {
    pub width: Option<u32>,
    pub height: Option<u32>,
    pub depth: Option<u32>,
    pub maxval: Option<u32>,
    pub tags: Seq<Seq<char>>,
}

/// The numeric keyword spelt by `word`, if any.
pub open spec fn numeric_keyword(word: Seq<u8>) -> Option<PamKeyword> {
    if word == keyword_text(PamKeyword::Width) {
        Some(PamKeyword::Width)
    } else if word == keyword_text(PamKeyword::Height) {
        Some(PamKeyword::Height)
    } else if word == keyword_text(PamKeyword::Depth) {
        Some(PamKeyword::Depth)
    } else if word == keyword_text(PamKeyword::Maxval) {
        Some(PamKeyword::Maxval)
    } else {
        None
    }
}

/// The value read for a numeric keyword.
pub open spec fn field_of(acc: PamFields, k: PamKeyword) -> Option<u32> {
    match k {
        PamKeyword::Width => acc.width,
        PamKeyword::Height => acc.height,
        PamKeyword::Depth => acc.depth,
        _ => acc.maxval,
    }
}

/// `acc` with the value of a numeric keyword set.
pub open spec fn with_field(acc: PamFields, k: PamKeyword, v: u32) -> PamFields {
    match k {
        PamKeyword::Width => PamFields { width: Some(v), ..acc },
        PamKeyword::Height => PamFields { height: Some(v), ..acc },
        PamKeyword::Depth => PamFields { depth: Some(v), ..acc },
        _ => PamFields { maxval: Some(v), ..acc },
    }
}

/// The PAM header lines from position `i` to `ENDHDR`, in any order,
/// added to `acc`; with the position after the line feed that ends
/// `ENDHDR`. Each numeric keyword may come once; `TUPLTYPE` may repeat,
/// and its tag is the rest of its line after spaces and tabs.
pub open spec fn pam_lines(s: Seq<u8>, i: int, acc: PamFields) -> Result<(PamFields, int), NetpbmError>
    decreases s.len() - i,
{
    let j = skip_gap(s, i, false);
    let k = word_end(s, j);
    let word = s.subrange(j, k);
    if !(0 <= i <= j <= k <= s.len()) || k == j {
        Err(NetpbmError::UnexpectedToken { offset: j as usize })
    } else if word == keyword_text(PamKeyword::Endhdr) {
        if k < s.len() && s[k] == 10 {
            Ok((acc, k + 1))
        } else {
            Err(NetpbmError::UnexpectedToken { offset: k as usize })
        }
    } else if word == keyword_text(PamKeyword::Tupltype) {
        let p = skip_blanks(s, k);
        let e = line_end(s, p);
        if !(k <= p <= e < s.len()) {
            Err(NetpbmError::UnexpectedToken { offset: e as usize })
        } else if !valid_utf8(s.subrange(p, e)) {
            Err(NetpbmError::UnexpectedToken { offset: p as usize })
        } else {
            pam_lines(
                s,
                e + 1,
                PamFields { tags: acc.tags.push(decode_utf8(s.subrange(p, e))), ..acc },
            )
        }
    } else {
        match numeric_keyword(word) {
            None => Err(NetpbmError::UnexpectedToken { offset: j as usize }),
            Some(kw) => if field_of(acc, kw) is Some {
                Err(NetpbmError::UnexpectedToken { offset: j as usize })
            } else {
                match number_at(s, skip_blanks(s, k)) {
                    Err(e) => Err(e),
                    Ok((v, e)) => if k < e <= s.len() {
                        pam_lines(s, e, with_field(acc, kw, v))
                    } else {
                        Err(NetpbmError::UnexpectedToken { offset: e as usize })
                    },
                }
            },
        }
    }
}

/// No PAM fields read yet.
pub open spec fn no_pam_fields() -> PamFields {
    PamFields { width: None, height: None, depth: None, maxval: None, tags: Seq::empty() }
}

/// The fields of a PAM header whose magic number ends at `i`; a keyword
/// missing at `ENDHDR` is reported in the order WIDTH, HEIGHT, DEPTH,
/// MAXVAL.
pub open spec fn pam_fields(s: Seq<u8>, i: int) -> Result<HeaderFields, NetpbmError> {
    match pam_lines(s, i, no_pam_fields()) {
        Err(e) => Err(e),
        Ok((acc, end)) => if acc.width is None {
            Err(NetpbmError::MissingField { keyword: PamKeyword::Width })
        } else if acc.height is None {
            Err(NetpbmError::MissingField { keyword: PamKeyword::Height })
        } else if acc.depth is None {
            Err(NetpbmError::MissingField { keyword: PamKeyword::Depth })
        } else if acc.maxval is None {
            Err(NetpbmError::MissingField { keyword: PamKeyword::Maxval })
        } else {
            Ok(
                HeaderFields {
                    format: NetpbmFormat::PAM,
                    width: acc.width.unwrap(),
                    height: acc.height.unwrap(),
                    maxval: acc.maxval.unwrap(),
                    depth: acc.depth.unwrap(),
                    tags: acc.tags,
                    end,
                },
            )
        },
    }
}

/// The fields of the header at position `i`. Where `family` is given,
/// a magic number of another family is refused.
pub open spec fn header_fields(s: Seq<u8>, i: int, family: Option<Family>) -> Result<HeaderFields, NetpbmError> {
    match magic_at(s, i) {
        None => Err(NetpbmError::UnknownMagicNumber { offset: i as usize }),
        Some(m) => {
            let f = format_of_magic(m);
            if family matches Some(fam) && family_of(f) != fam {
                Err(NetpbmError::WrongFormat { magic: m })
            } else if f == NetpbmFormat::PAM {
                pam_fields(s, i + 2)
            } else {
                pnm_fields(s, i + 2, f)
            }
        },
    }
}

/// What parsing the header at position `i` gives: a grammar error, the
/// first field error, or the record with the tags and the position where
/// the raster starts.
pub open spec fn header_result(s: Seq<u8>, i: int, family: Option<Family>) -> Result<(Info, Seq<Seq<char>>, int), NetpbmError> {
    match header_fields(s, i, family) {
        Err(e) => Err(e),
        Ok(h) => match info_result(h.format, h.width, h.height, h.maxval, h.depth) {
            Err(e) => Err(e),
            Ok(info) => Ok((info, h.tags, h.end)),
        },
    }
}

/// Relies on `String::from_utf8`: it accepts exactly the valid UTF-8
/// byte sequences, and the string holds the characters they encode.
#[verifier::external_body]
pub(crate) fn string_from_utf8(bytes: Vec<u8>) -> (r: Option<String>)
    ensures
        r is Some <==> valid_utf8(bytes@),
        r matches Some(t) ==> t@ == decode_utf8(bytes@),
{
    String::from_utf8(bytes).ok()
}

/// The magic number at position `i`, if any.
fn read_magic(s: &[u8], i: usize) -> (r: Option<MagicNumber>)
    ensures
        r == magic_at(s@, i as int),
{
    if i < s.len() && s.len() - i >= 2 && s[i] == 80 {
        let d = s[i + 1];
        if d == 49 {
            Some(MagicNumber::P1)
        } else if d == 50 {
            Some(MagicNumber::P2)
        } else if d == 51 {
            Some(MagicNumber::P3)
        } else if d == 52 {
            Some(MagicNumber::P4)
        } else if d == 53 {
            Some(MagicNumber::P5)
        } else if d == 54 {
            Some(MagicNumber::P6)
        } else if d == 55 {
            Some(MagicNumber::P7)
        } else {
            None
        }
    } else {
        None
    }
}

/// Reads the decimal number that starts exactly at `p`.
fn read_number(s: &[u8], p: usize) -> (r: Result<(u32, usize), NetpbmError>)
    requires
        p <= s@.len(),
    ensures
        match r {
            Err(x) => number_at(s@, p as int) == Err::<(u32, int), NetpbmError>(x),
            Ok((v, e)) => number_at(s@, p as int) == Ok::<(u32, int), NetpbmError>((v, e as int)) && p < e <= s@.len(),
        },
{
    let (e, v) = read_digits(s, p);
    if e == p || v > 0xffff_ffff {
        Err(NetpbmError::UnexpectedToken { offset: p })
    } else {
        Ok((v as u32, e))
    }
}

/// Whether `s[j..k]` spells `word`.
fn spells(s: &[u8], j: usize, k: usize, word: &Vec<u8>) -> (r: bool)
    requires
        j <= k <= s@.len(),
    ensures
        r == (s@.subrange(j as int, k as int) == word@),
{
    if k - j != word.len() {
        return false;
    }
    let mut t: usize = 0;
    while t < word.len()
        invariant
            k - j == word@.len(),
            j <= k <= s@.len(),
            t <= word@.len(),
            forall|u: int| 0 <= u < t ==> s@[j + u] == word@[u],
        decreases word@.len() - t,
    {
        if s[j + t] != word[t] {
            assert(s@.subrange(j as int, k as int)[t as int] != word@[t as int]);
            return false;
        }
        t += 1;
    }
    assert(s@.subrange(j as int, k as int) =~= word@);
    true
}

/// Header fields as read by the parser.
struct ParsedHeader {
    format: NetpbmFormat,
    width: u32,
    height: u32,
    maxval: u32,
    depth: u32,
    tags: Vec<String>,
    end: usize,
}

impl ParsedHeader {
    spec fn view(&self) -> HeaderFields {
        HeaderFields {
            format: self.format,
            width: self.width,
            height: self.height,
            maxval: self.maxval,
            depth: self.depth,
            tags: self.tags@.map_values(|t: String| t@),
            end: self.end as int,
        }
    }
}

/// Reads the fields of a PNM header whose magic number ends at `i`.
fn parse_pnm(s: &[u8], i: usize, format: NetpbmFormat) -> (r: Result<ParsedHeader, NetpbmError>)
    requires
        i <= s@.len(),
        format != NetpbmFormat::PAM,
    ensures
        match pnm_fields(s@, i as int, format) {
            Err(e) => r == Err::<ParsedHeader, NetpbmError>(e),
            Ok(h) => r is Ok && r->Ok_0.view() == h,
        },
        r is Ok ==> r->Ok_0.end <= s@.len(),
{
    let (w, e1) = match read_number(s, gap_end(s, i)) {
        Err(e) => return Err(e),
        Ok(x) => x,
    };
    let (h, e2) = match read_number(s, gap_end(s, e1)) {
        Err(e) => return Err(e),
        Ok(x) => x,
    };
    let (maxval, e3) = match format.family() {
        Family::Pbm => (1u32, e2),
        _ => match read_number(s, gap_end(s, e2)) {
            Err(e) => return Err(e),
            Ok(x) => x,
        },
    };
    if e3 < s.len() && (s[e3] == 32 || s[e3] == 9 || s[e3] == 13 || s[e3] == 10) {
        let depth: u32 = match format.family() {
            Family::Ppm => 3,
            _ => 1,
        };
        let r = ParsedHeader { format, width: w, height: h, maxval, depth, tags: Vec::new(), end: e3 + 1 };
        assert(r.view().tags =~= Seq::<Seq<char>>::empty());
        Ok(r)
    } else {
        Err(NetpbmError::UnexpectedToken { offset: e3 })
    }
}

/// PAM fields as read by the parser.
struct PamState {
    width: Option<u32>,
    height: Option<u32>,
    depth: Option<u32>,
    maxval: Option<u32>,
    tags: Vec<String>,
}

impl PamState {
    spec fn view(&self) -> PamFields {
        PamFields {
            width: self.width,
            height: self.height,
            depth: self.depth,
            maxval: self.maxval,
            tags: self.tags@.map_values(|t: String| t@),
        }
    }
}

/// Reads the fields of a PAM header whose magic number ends at `i`.
fn parse_pam(s: &[u8], i: usize) -> (r: Result<ParsedHeader, NetpbmError>)
    requires
        i <= s@.len(),
    ensures
        match pam_fields(s@, i as int) {
            Err(e) => r == Err::<ParsedHeader, NetpbmError>(e),
            Ok(h) => r is Ok && r->Ok_0.view() == h,
        },
        r is Ok ==> r->Ok_0.end <= s@.len(),
{
    let mut acc = PamState { width: None, height: None, depth: None, maxval: None, tags: Vec::new() };
    assert(acc.view().tags =~= no_pam_fields().tags);
    let endhdr = PamKeyword::Endhdr.text();
    let tupltype = PamKeyword::Tupltype.text();
    let width_kw = PamKeyword::Width.text();
    let height_kw = PamKeyword::Height.text();
    let depth_kw = PamKeyword::Depth.text();
    let maxval_kw = PamKeyword::Maxval.text();
    let mut pos = i;
    let end: usize;
    loop
        invariant
            pos <= s@.len(),
            pam_lines(s@, pos as int, acc.view()) == pam_lines(s@, i as int, no_pam_fields()),
            endhdr@ == keyword_text(PamKeyword::Endhdr),
            tupltype@ == keyword_text(PamKeyword::Tupltype),
            width_kw@ == keyword_text(PamKeyword::Width),
            height_kw@ == keyword_text(PamKeyword::Height),
            depth_kw@ == keyword_text(PamKeyword::Depth),
            maxval_kw@ == keyword_text(PamKeyword::Maxval),
        ensures
            pam_lines(s@, i as int, no_pam_fields()) == Ok::<(PamFields, int), NetpbmError>((acc.view(), end as int)),
            end <= s@.len(),
        decreases s@.len() - pos,
    {
        let j = gap_end(s, pos);
        let k = find_word_end(s, j);
        if k == j {
            return Err(NetpbmError::UnexpectedToken { offset: j });
        }
        if spells(s, j, k, &endhdr) {
            if k < s.len() && s[k] == 10 {
                end = k + 1;
                break;
            }
            return Err(NetpbmError::UnexpectedToken { offset: k });
        }
        if spells(s, j, k, &tupltype) {
            let p = blanks_end(s, k);
            let e = find_line_end(s, p);
            if e >= s.len() {
                return Err(NetpbmError::UnexpectedToken { offset: e });
            }
            let mut bytes: Vec<u8> = Vec::new();
            push_all(&mut bytes, &s[p..e]);
            assert(bytes@ =~= s@.subrange(p as int, e as int));
            match string_from_utf8(bytes) {
                None => {
                    return Err(NetpbmError::UnexpectedToken { offset: p });
                },
                Some(t) => {
                    let ghost before = acc.view();
                    acc.tags.push(t);
                    assert(acc.view().tags =~= before.tags.push(
                        decode_utf8(s@.subrange(p as int, e as int)),
                    ));
                },
            }
            pos = e + 1;
        } else {
            let kw = if spells(s, j, k, &width_kw) {
                PamKeyword::Width
            } else if spells(s, j, k, &height_kw) {
                PamKeyword::Height
            } else if spells(s, j, k, &depth_kw) {
                PamKeyword::Depth
            } else if spells(s, j, k, &maxval_kw) {
                PamKeyword::Maxval
            } else {
                return Err(NetpbmError::UnexpectedToken { offset: j });
            };
            let seen = match kw {
                PamKeyword::Width => acc.width.is_some(),
                PamKeyword::Height => acc.height.is_some(),
                PamKeyword::Depth => acc.depth.is_some(),
                _ => acc.maxval.is_some(),
            };
            if seen {
                return Err(NetpbmError::UnexpectedToken { offset: j });
            }
            let (v, e) = match read_number(s, blanks_end(s, k)) {
                Err(e) => return Err(e),
                Ok(x) => x,
            };
            match kw {
                PamKeyword::Width => acc.width = Some(v),
                PamKeyword::Height => acc.height = Some(v),
                PamKeyword::Depth => acc.depth = Some(v),
                _ => acc.maxval = Some(v),
            }
            pos = e;
        }
    }
    let width = match acc.width {
        None => return Err(NetpbmError::MissingField { keyword: PamKeyword::Width }),
        Some(v) => v,
    };
    let height = match acc.height {
        None => return Err(NetpbmError::MissingField { keyword: PamKeyword::Height }),
        Some(v) => v,
    };
    let depth = match acc.depth {
        None => return Err(NetpbmError::MissingField { keyword: PamKeyword::Depth }),
        Some(v) => v,
    };
    let maxval = match acc.maxval {
        None => return Err(NetpbmError::MissingField { keyword: PamKeyword::Maxval }),
        Some(v) => v,
    };
    Ok(ParsedHeader { format: NetpbmFormat::PAM, width, height, maxval, depth, tags: acc.tags, end })
}

/// Parses the header of one image at position `i`: the magic number,
/// then its fields, checked as the record's constructors check them.
/// Where `family` is given, another family's magic number is refused.
/// Returns the record, the tuple type, and where the raster starts.
pub fn parse_header(s: &[u8], i: usize, family: Option<Family>) -> (r: Result<(Info, TypeInfo, usize), NetpbmError>)
    requires
        i <= s@.len(),
    ensures
        match header_result(s@, i as int, family) {
            Err(e) => r == Err::<(Info, TypeInfo, usize), NetpbmError>(e),
            Ok((info, tags, end)) => r is Ok && r->Ok_0.0 == info && type_tags(r->Ok_0.1) == tags
                && r->Ok_0.2 == end && info.wf() && end <= s@.len(),
        },
{
    let m = match read_magic(s, i) {
        None => return Err(NetpbmError::UnknownMagicNumber { offset: i }),
        Some(m) => m,
    };
    let n = s.len();
    assert(i + 2 <= n);
    let f = NetpbmFormat::from_magic(m);
    if let Some(fam) = family {
        if f.family() != fam {
            return Err(NetpbmError::WrongFormat { magic: m });
        }
    }
    let parsed = if f.is_pnm() {
        parse_pnm(s, i + 2, f)
    } else {
        parse_pam(s, i + 2)
    };
    let h = match parsed {
        Err(e) => return Err(e),
        Ok(h) => h,
    };
    let info = match Info::from_fields(h.format, h.width, h.height, h.maxval, h.depth) {
        Err(e) => return Err(e),
        Ok(info) => info,
    };
    let type_info = if h.tags.len() == 0 {
        TypeInfo::Empty
    } else {
        TypeInfo::Info(h.tags)
    };
    assert(type_tags(type_info) =~= h.view().tags);
    Ok((info, type_info, h.end))
}

/// The middle part of a concatenation, by position.
proof fn lemma_middle(x: Seq<u8>, y: Seq<u8>, z: Seq<u8>)
    ensures
        (x + y + z).subrange(x.len() as int, (x.len() + y.len()) as int) == y,
        forall|k: int| 0 <= k < y.len() ==> (x + y + z)[x.len() + k] == #[trigger] y[k],
{
    assert((x + y + z).subrange(x.len() as int, (x.len() + y.len()) as int) =~= y);
}

/// `decimal(n)` at `p`, followed by a non-digit, is read as the number `n`.
proof fn lemma_number_at(s: Seq<u8>, p: int, n: u32)
    requires
        0 <= p,
        p + decimal(n as nat).len() < s.len(),
        s.subrange(p, p + decimal(n as nat).len()) == decimal(n as nat),
        !is_digit(s[p + decimal(n as nat).len()]),
    ensures
        number_at(s, p) == Ok::<(u32, int), NetpbmError>((n, p + decimal(n as nat).len())),
{
    lemma_read_decimal(s, p, n as nat);
}

/// A digit is neither whitespace nor a comment sign.
proof fn lemma_gap_at_digit(s: Seq<u8>, p: int)
    requires
        0 <= p < s.len(),
        is_digit(s[p]),
    ensures
        skip_gap(s, p, false) == p,
{
}

/// The magic number of a format reads back as that format's.
proof fn lemma_magic_at(s: Seq<u8>, i: int, f: NetpbmFormat)
    requires
        0 <= i,
        i + 2 <= s.len(),
        s.subrange(i, i + 2) == magic_bytes(magic_of(f)),
    ensures
        magic_at(s, i) == Some(magic_of(f)),
        format_of_magic(magic_of(f)) == f,
{
    assert(s[i] == s.subrange(i, i + 2)[0]);
    assert(s[i + 1] == s.subrange(i, i + 2)[1]);
}

/// A PNM header reads back as the fields it was built from, and the
/// raster starts right after it.
#[verifier::rlimit(80)]
proof fn lemma_pnm_round_trip(pre: Seq<u8>, info: Info, rest: Seq<u8>)
    requires
        info.wf(),
        info.format != NetpbmFormat::PAM,
    ensures
        pnm_fields(pre + pnm_header(info) + rest, pre.len() + 2int, info.format) == Ok::<HeaderFields, NetpbmError>(
            HeaderFields {
                format: info.format,
                width: info.width.spec_value(),
                height: info.height.spec_value(),
                maxval: info.bit_depth.spec_value() as u32,
                depth: info.channels.spec_value(),
                tags: Seq::empty(),
                end: (pre.len() + pnm_header(info).len()) as int,
            },
        ),
{
    let s = pre + pnm_header(info) + rest;
    let w = info.width.spec_value();
    let h = info.height.spec_value();
    let m = info.bit_depth.spec_value() as u32;
    let mb = magic_bytes(magic_of(info.format));
    let dw = decimal(w as nat);
    let dh = decimal(h as nat);
    let dm = decimal(m as nat);
    lemma_decimal_digits(w as nat);
    lemma_decimal_digits(h as nat);
    lemma_decimal_digits(m as nat);
    let pbm = family_of(info.format) == Family::Pbm;
    let tail = if pbm {
        seq![10u8]
    } else {
        seq![32u8] + dm + seq![10u8]
    };
    assert(pnm_header(info) =~= mb + seq![10u8] + dw + seq![32u8] + dh + tail);
    let i = pre.len() as int;
    // the magic number
    assert(s =~= pre + mb + (seq![10u8] + dw + seq![32u8] + dh + tail + rest));
    lemma_middle(pre, mb, seq![10u8] + dw + seq![32u8] + dh + tail + rest);
    // the width
    let x1 = pre + mb + seq![10u8];
    assert(s =~= x1 + dw + (seq![32u8] + dh + tail + rest));
    lemma_middle(x1, dw, seq![32u8] + dh + tail + rest);
    let a = i + 3;
    assert(s[i + 2] == 10);
    assert(s[a + dw.len()] == 32);
    lemma_gap_at_digit(s, a);
    assert(skip_gap(s, i + 2, false) == a);
    lemma_number_at(s, a, w);
    // the height
    let x2 = x1 + dw + seq![32u8];
    assert(s =~= x2 + dh + (tail + rest));
    lemma_middle(x2, dh, tail + rest);
    let c = a + dw.len() + 1;
    assert(x2.len() == c);
    lemma_gap_at_digit(s, c);
    assert(skip_gap(s, a + dw.len(), false) == c);
    let d = c + dh.len();
    assert(s[d] == tail[0]);
    lemma_number_at(s, c, h);
    if pbm {
        assert(m == 1);
        assert(info.channels.spec_value() == 1);
    } else {
        let x3 = x2 + dh + seq![32u8];
        assert(s =~= x3 + dm + (seq![10u8] + rest));
        lemma_middle(x3, dm, seq![10u8] + rest);
        let e = d + 1;
        assert(x3.len() == e);
        lemma_gap_at_digit(s, e);
        assert(skip_gap(s, d, false) == e);
        assert(s[e + dm.len()] == 10);
        lemma_number_at(s, e, m);
        assert(fixed_channels(info.format).unwrap() == info.channels.spec_value());
    }
}

/// A tag that a `TUPLTYPE` line carries unchanged: its UTF-8 bytes hold
/// no line feed and do not start with a space or a tab.
pub open spec fn tag_fits(t: Seq<char>) -> bool {
    let b = encode_utf8(t);
    &&& (b.len() == 0 || !is_blank(b[0]))
    &&& forall|k: int| 0 <= k < b.len() ==> #[trigger] b[k] != 10
}

/// Splitting a known stretch of `s` in two.
proof fn lemma_split(s: Seq<u8>, a: int, x: Seq<u8>, y: Seq<u8>)
    requires
        0 <= a,
        a + x.len() + y.len() <= s.len(),
        s.subrange(a, a + x.len() + y.len()) == x + y,
    ensures
        s.subrange(a, a + x.len()) == x,
        s.subrange(a + x.len(), a + x.len() + y.len()) == y,
{
    assert forall|k: int| 0 <= k < x.len() implies #[trigger] s.subrange(a, a + x.len())[k] == x[k] by {
        assert(s.subrange(a, a + x.len() + y.len())[k] == (x + y)[k]);
    }
    assert forall|k: int| 0 <= k < y.len() implies #[trigger] s.subrange(a + x.len(), a + x.len() + y.len())[k] == y[k] by {
        assert(s.subrange(a, a + x.len() + y.len())[x.len() + k] == (x + y)[x.len() + k]);
        assert(s.subrange(a, a + x.len() + y.len())[x.len() + k] == s[a + x.len() + k]);
        assert(s.subrange(a + x.len(), a + x.len() + y.len())[k] == s[a + x.len() + k]);
        assert((x + y)[x.len() + k] == y[k]);
    }
    assert(s.subrange(a, a + x.len()) =~= x);
    assert(s.subrange(a + x.len(), a + x.len() + y.len()) =~= y);
}

/// The bytes of a known stretch of `s`, one by one.
proof fn lemma_bytes_of(s: Seq<u8>, a: int, x: Seq<u8>)
    requires
        0 <= a,
        a + x.len() <= s.len(),
        s.subrange(a, a + x.len()) == x,
    ensures
        forall|k: int| 0 <= k < x.len() ==> s[a + k] == #[trigger] x[k],
{
    assert forall|k: int| 0 <= k < x.len() implies s[a + k] == #[trigger] x[k] by {
        assert(s.subrange(a, a + x.len())[k] == x[k]);
    }
}

/// Keywords are capital letters; the four numeric ones are recognised as
/// themselves, and no keyword spells another.
pub(crate) proof fn lemma_keyword(k: PamKeyword)
    ensures
        forall|i: int| 0 <= i < keyword_text(k).len() ==> 65 <= #[trigger] keyword_text(k)[i] <= 90,
        keyword_text(k).len() >= 5,
        k != PamKeyword::Endhdr ==> keyword_text(k) != keyword_text(PamKeyword::Endhdr),
        k != PamKeyword::Tupltype ==> keyword_text(k) != keyword_text(PamKeyword::Tupltype),
        k != PamKeyword::Endhdr && k != PamKeyword::Tupltype ==> numeric_keyword(keyword_text(k)) == Some(k),
{
    let t = keyword_text(k);
    let e = keyword_text(PamKeyword::Endhdr);
    let w = keyword_text(PamKeyword::Width);
    let h = keyword_text(PamKeyword::Height);
    let d = keyword_text(PamKeyword::Depth);
    assert(e[0] == 69 && w[0] == 87 && h[0] == 72 && d[0] == 68);
    assert(keyword_text(PamKeyword::Maxval)[0] == 77);
    assert(keyword_text(PamKeyword::Tupltype).len() == 8);
}

/// Where the header gap ends when it starts at a line feed before a
/// letter, or at the letter itself.
proof fn lemma_gap_to_letter(s: Seq<u8>, q: int, g: int)
    requires
        0 <= q <= g < s.len(),
        g == q || (g == q + 1 && s[q] == 10),
        65 <= s[g] <= 90,
    ensures
        skip_gap(s, q, false) == g,
{
    assert(skip_gap(s, g, false) == g);
}

/// One `KEYWORD number` line of a PAM header, after the gap that starts at
/// `q`, is read as that field.
proof fn lemma_number_line(s: Seq<u8>, q: int, g: int, kw: PamKeyword, v: u32, acc: PamFields)
    requires
        kw != PamKeyword::Endhdr && kw != PamKeyword::Tupltype,
        0 <= q <= g,
        skip_gap(s, q, false) == g,
        g + pam_line(kw, decimal(v as nat)).len() <= s.len(),
        s.subrange(g, g + pam_line(kw, decimal(v as nat)).len()) == pam_line(kw, decimal(v as nat)),
        field_of(acc, kw) is None,
    ensures
        pam_lines(s, q, acc) == pam_lines(
            s,
            g + pam_line(kw, decimal(v as nat)).len() - 1,
            with_field(acc, kw, v),
        ),
{
    let kt = keyword_text(kw);
    let dv = decimal(v as nat);
    lemma_keyword(kw);
    lemma_decimal_digits(v as nat);
    lemma_split(s, g, kt + seq![32u8] + dv, seq![10u8]);
    lemma_split(s, g, kt + seq![32u8], dv);
    lemma_split(s, g, kt, seq![32u8]);
    lemma_bytes_of(s, g, kt);
    let k = g + kt.len();
    lemma_bytes_of(s, k, seq![32u8]);
    lemma_bytes_of(s, k + 1, dv);
    lemma_bytes_of(s, k + 1 + dv.len(), seq![10u8]);
    assert(seq![32u8][0] == 32 && seq![10u8][0] == 10);
    assert(s[k] == 32);
    lemma_word_end(s, g, k);
    assert(s[k + 1] == dv[0]);
    assert(skip_blanks(s, k + 1) == k + 1);
    assert(skip_blanks(s, k) == k + 1);
    assert(s[k + 1 + dv.len()] == 10);
    lemma_number_at(s, k + 1, v);
}

/// One `TUPLTYPE` line of a PAM header, after the gap that starts at `q`,
/// adds its tag.
proof fn lemma_tuple_type_line(s: Seq<u8>, q: int, g: int, t: Seq<char>, acc: PamFields)
    requires
        tag_fits(t),
        0 <= q <= g,
        skip_gap(s, q, false) == g,
        g + pam_line(PamKeyword::Tupltype, encode_utf8(t)).len() <= s.len(),
        s.subrange(g, g + pam_line(PamKeyword::Tupltype, encode_utf8(t)).len()) == pam_line(
            PamKeyword::Tupltype,
            encode_utf8(t),
        ),
    ensures
        pam_lines(s, q, acc) == pam_lines(
            s,
            g + pam_line(PamKeyword::Tupltype, encode_utf8(t)).len(),
            PamFields { tags: acc.tags.push(t), ..acc },
        ),
{
    broadcast use encode_utf8_valid_utf8, encode_utf8_decode_utf8;

    let kt = keyword_text(PamKeyword::Tupltype);
    let b = encode_utf8(t);
    lemma_keyword(PamKeyword::Tupltype);
    lemma_split(s, g, kt + seq![32u8] + b, seq![10u8]);
    lemma_split(s, g, kt + seq![32u8], b);
    lemma_split(s, g, kt, seq![32u8]);
    lemma_bytes_of(s, g, kt);
    lemma_bytes_of(s, g + kt.len() + 1, b);
    let k = g + kt.len();
    lemma_bytes_of(s, k, seq![32u8]);
    lemma_bytes_of(s, k + 1 + b.len(), seq![10u8]);
    assert(seq![32u8][0] == 32 && seq![10u8][0] == 10);
    assert(s[k] == 32);
    lemma_word_end(s, g, k);
    let p = k + 1;
    let e = p + b.len();
    assert(s[e] == 10);
    assert forall|i: int| p <= i < e implies #[trigger] s[i] != 10 by {
        assert(s[p + (i - p)] == b[i - p]);
    }
    assert(skip_blanks(s, p) == p);
    assert(skip_blanks(s, k) == p);
    lemma_line_end(s, p, e);
}

/// The `ENDHDR` line, after the gap that starts at `q`, ends the header.
proof fn lemma_end_line(s: Seq<u8>, q: int, g: int, acc: PamFields)
    requires
        0 <= q <= g,
        skip_gap(s, q, false) == g,
        g + 7 <= s.len(),
        s.subrange(g, g + 7) == keyword_text(PamKeyword::Endhdr) + seq![10u8],
    ensures
        pam_lines(s, q, acc) == Ok::<(PamFields, int), NetpbmError>((acc, g + 7)),
{
    let kt = keyword_text(PamKeyword::Endhdr);
    lemma_keyword(PamKeyword::Endhdr);
    lemma_split(s, g, kt, seq![10u8]);
    lemma_bytes_of(s, g, kt);
    lemma_bytes_of(s, g + 6, seq![10u8]);
    assert(seq![10u8][0] == 10);
    assert(s[g + 6] == 10);
    lemma_word_end(s, g, g + 6);
}

/// Two starts with the same gap end read the same header lines.
proof fn lemma_same_gap(s: Seq<u8>, q1: int, q2: int, acc: PamFields)
    requires
        0 <= q1 <= q2 <= skip_gap(s, q1, false),
        skip_gap(s, q1, false) == skip_gap(s, q2, false),
    ensures
        pam_lines(s, q1, acc) == pam_lines(s, q2, acc),
{
}

/// The `TUPLTYPE` lines of `tags`, after the gap that starts at `q`, add
/// the tags in order.
proof fn lemma_tuple_type_lines(s: Seq<u8>, q: int, base: int, tags: Seq<Seq<char>>, acc: PamFields)
    requires
        forall|k: int| 0 <= k < tags.len() ==> tag_fits(#[trigger] tags[k]),
        0 <= q <= base,
        skip_gap(s, q, false) == base,
        base + tuple_type_lines(tags).len() < s.len(),
        s.subrange(base, base + tuple_type_lines(tags).len()) == tuple_type_lines(tags),
        65 <= s[base + tuple_type_lines(tags).len()] <= 90,
    ensures
        pam_lines(s, q, acc) == pam_lines(
            s,
            base + tuple_type_lines(tags).len(),
            PamFields { tags: acc.tags + tags, ..acc },
        ),
    decreases tags.len(),
{
    if tags.len() == 0 {
        assert(acc.tags + tags =~= acc.tags);
        assert(skip_gap(s, base, false) == base);
        lemma_same_gap(s, q, base, acc);
    } else {
        let init = tags.drop_last();
        let line = pam_line(PamKeyword::Tupltype, encode_utf8(tags.last()));
        let m = base + tuple_type_lines(init).len();
        lemma_split(s, base, tuple_type_lines(init), line);
        lemma_bytes_of(s, m, line);
        lemma_keyword(PamKeyword::Tupltype);
        assert(line[0] == keyword_text(PamKeyword::Tupltype)[0]);
        lemma_tuple_type_lines(s, q, base, init, acc);
        let mid = PamFields { tags: acc.tags + init, ..acc };
        assert(skip_gap(s, m, false) == m);
        lemma_tuple_type_line(s, m, m, tags.last(), mid);
        assert(mid.tags.push(tags.last()) =~= acc.tags + tags);
    }
}

/// The `TUPLTYPE` lines of some tags start with the keyword's `T`.
proof fn lemma_tuple_type_lines_start(tags: Seq<Seq<char>>)
    requires
        tags.len() > 0,
    ensures
        tuple_type_lines(tags)[0] == 84,
    decreases tags.len(),
{
    let init = tags.drop_last();
    if init.len() > 0 {
        lemma_tuple_type_lines_start(init);
    } else {
        assert(tuple_type_lines(init).len() == 0);
    }
}

/// The line feed that ends a header line.
proof fn lemma_line_ends(s: Seq<u8>, g: int, line: Seq<u8>, kw: PamKeyword, v: Seq<u8>)
    requires
        line == pam_line(kw, v),
        0 <= g,
        g + line.len() <= s.len(),
        s.subrange(g, g + line.len()) == line,
    ensures
        s[g + line.len() - 1] == 10,
        s[g] == keyword_text(kw)[0],
{
    lemma_keyword(kw);
    lemma_bytes_of(s, g, line);
    assert(line[line.len() - 1] == 10);
    assert(line[0] == keyword_text(kw)[0]);
}

/// The lines of a PAM header, read one after another from the line feed
/// that ends the magic number at `i + 2`.
#[verifier::rlimit(60)]
proof fn lemma_pam_chain(s: Seq<u8>, i: int, w: u32, h: u32, d: u32, m: u32, tags: Seq<Seq<char>>)
    requires
        0 <= i,
        i + 3 <= s.len(),
        s[i + 2] == 10,
        forall|k: int| 0 <= k < tags.len() ==> tag_fits(#[trigger] tags[k]),
        ({
            let g1 = i + 3;
            let g2 = g1 + pam_line(PamKeyword::Width, decimal(w as nat)).len();
            let g3 = g2 + pam_line(PamKeyword::Height, decimal(h as nat)).len();
            let g4 = g3 + pam_line(PamKeyword::Depth, decimal(d as nat)).len();
            let base = g4 + pam_line(PamKeyword::Maxval, decimal(m as nat)).len();
            let fin = base + tuple_type_lines(tags).len();
            &&& fin + 7 <= s.len()
            &&& s.subrange(g1, g2) == pam_line(PamKeyword::Width, decimal(w as nat))
            &&& s.subrange(g2, g3) == pam_line(PamKeyword::Height, decimal(h as nat))
            &&& s.subrange(g3, g4) == pam_line(PamKeyword::Depth, decimal(d as nat))
            &&& s.subrange(g4, base) == pam_line(PamKeyword::Maxval, decimal(m as nat))
            &&& s.subrange(base, fin) == tuple_type_lines(tags)
            &&& s.subrange(fin, fin + 7) == keyword_text(PamKeyword::Endhdr) + seq![10u8]
        }),
    ensures
        pam_lines(s, i + 2, no_pam_fields()) == Ok::<(PamFields, int), NetpbmError>(
            (
                PamFields { width: Some(w), height: Some(h), depth: Some(d), maxval: Some(m), tags },
                i + 3 + pam_line(PamKeyword::Width, decimal(w as nat)).len() + pam_line(
                    PamKeyword::Height,
                    decimal(h as nat),
                ).len() + pam_line(PamKeyword::Depth, decimal(d as nat)).len() + pam_line(
                    PamKeyword::Maxval,
                    decimal(m as nat),
                ).len() + tuple_type_lines(tags).len() + 7,
            ),
        ),
{
    let l1 = pam_line(PamKeyword::Width, decimal(w as nat));
    let l2 = pam_line(PamKeyword::Height, decimal(h as nat));
    let l3 = pam_line(PamKeyword::Depth, decimal(d as nat));
    let l4 = pam_line(PamKeyword::Maxval, decimal(m as nat));
    let tl = tuple_type_lines(tags);
    let en = keyword_text(PamKeyword::Endhdr) + seq![10u8];
    let g1 = i + 3;
    let g2 = g1 + l1.len();
    let g3 = g2 + l2.len();
    let g4 = g3 + l3.len();
    let base = g4 + l4.len();
    let fin = base + tl.len();
    lemma_line_ends(s, g1, l1, PamKeyword::Width, decimal(w as nat));
    lemma_line_ends(s, g2, l2, PamKeyword::Height, decimal(h as nat));
    lemma_line_ends(s, g3, l3, PamKeyword::Depth, decimal(d as nat));
    lemma_line_ends(s, g4, l4, PamKeyword::Maxval, decimal(m as nat));
    lemma_keyword(PamKeyword::Width);
    lemma_keyword(PamKeyword::Height);
    lemma_keyword(PamKeyword::Depth);
    lemma_keyword(PamKeyword::Maxval);
    lemma_keyword(PamKeyword::Endhdr);
    assert(s[fin] == s.subrange(fin, fin + 7)[0]);
    assert(en[0] == keyword_text(PamKeyword::Endhdr)[0]);
    let f0 = no_pam_fields();
    lemma_gap_to_letter(s, i + 2, g1);
    lemma_number_line(s, i + 2, g1, PamKeyword::Width, w, f0);
    let f1 = with_field(f0, PamKeyword::Width, w);
    lemma_gap_to_letter(s, g2 - 1, g2);
    lemma_number_line(s, g2 - 1, g2, PamKeyword::Height, h, f1);
    let f2 = with_field(f1, PamKeyword::Height, h);
    lemma_gap_to_letter(s, g3 - 1, g3);
    lemma_number_line(s, g3 - 1, g3, PamKeyword::Depth, d, f2);
    let f3 = with_field(f2, PamKeyword::Depth, d);
    lemma_gap_to_letter(s, g4 - 1, g4);
    lemma_number_line(s, g4 - 1, g4, PamKeyword::Maxval, m, f3);
    let f4 = with_field(f3, PamKeyword::Maxval, m);
    if tags.len() > 0 {
        lemma_tuple_type_lines_start(tags);
        assert(s[base] == s.subrange(base, fin)[0]);
    } else {
        assert(base == fin);
    }
    lemma_gap_to_letter(s, base - 1, base);
    lemma_tuple_type_lines(s, base - 1, base, tags, f4);
    let f5 = PamFields { tags: f4.tags + tags, ..f4 };
    assert(f4.tags + tags =~= tags);
    assert(skip_gap(s, fin, false) == fin);
    lemma_end_line(s, fin, fin, f5);
}

/// A PAM header reads back as the fields and tags it was built from, and
/// the raster starts right after it.
proof fn lemma_pam_round_trip(pre: Seq<u8>, info: Info, tags: Seq<Seq<char>>, rest: Seq<u8>)
    requires
        info.wf(),
        info.format == NetpbmFormat::PAM,
        forall|k: int| 0 <= k < tags.len() ==> tag_fits(#[trigger] tags[k]),
    ensures
        pam_fields(pre + pam_header(info, tags) + rest, pre.len() + 2int) == Ok::<HeaderFields, NetpbmError>(
            HeaderFields {
                format: NetpbmFormat::PAM,
                width: info.width.spec_value(),
                height: info.height.spec_value(),
                maxval: info.bit_depth.spec_value() as u32,
                depth: info.channels.spec_value(),
                tags,
                end: (pre.len() + pam_header(info, tags).len()) as int,
            },
        ),
{
    let hd = pam_header(info, tags);
    let s = pre + hd + rest;
    let i = pre.len() as int;
    let w = info.width.spec_value();
    let h = info.height.spec_value();
    let d = info.channels.spec_value();
    let m = info.bit_depth.spec_value() as u32;
    let mb = magic_bytes(magic_of(info.format));
    let l1 = pam_line(PamKeyword::Width, decimal(w as nat));
    let l2 = pam_line(PamKeyword::Height, decimal(h as nat));
    let l3 = pam_line(PamKeyword::Depth, decimal(d as nat));
    let l4 = pam_line(PamKeyword::Maxval, decimal(m as nat));
    let tl = tuple_type_lines(tags);
    let en = keyword_text(PamKeyword::Endhdr) + seq![10u8];
    let a2 = mb + seq![10u8];
    let a3 = a2 + l1;
    let a4 = a3 + l2;
    let a5 = a4 + l3;
    let a6 = a5 + l4;
    let a7 = a6 + tl;
    assert(hd =~= a7 + en);
    lemma_middle(pre, hd, rest);
    lemma_split(s, i, a7, en);
    lemma_split(s, i, a6, tl);
    lemma_split(s, i, a5, l4);
    lemma_split(s, i, a4, l3);
    lemma_split(s, i, a3, l2);
    lemma_split(s, i, a2, l1);
    lemma_split(s, i, mb, seq![10u8]);
    assert(s[i + 2] == s.subrange(i + 2, i + 3)[0]);
    lemma_pam_chain(s, i, w, h, d, m, tags);
}

/// Parsing a built header gives back the record it was built from, with
/// its tags for PAM and none for the other formats, and the raster starts
/// right after the header. This holds wherever the header stands in the
/// input and whatever follows it, with or without a family asked for.
pub proof fn lemma_header_round_trip(
    pre: Seq<u8>,
    info: Info,
    tags: Seq<Seq<char>>,
    rest: Seq<u8>,
    family: Option<Family>,
)
    requires
        info.wf(),
        family is None || family == Some(family_of(info.format)),
        info.format == NetpbmFormat::PAM ==> forall|k: int| 0 <= k < tags.len() ==> tag_fits(#[trigger] tags[k]),
    ensures
        header_result(pre + header_bytes(info, tags) + rest, pre.len() as int, family) == Ok::<
            (Info, Seq<Seq<char>>, int),
            NetpbmError,
        >(
            (
                info,
                if info.format == NetpbmFormat::PAM {
                    tags
                } else {
                    Seq::empty()
                },
                (pre.len() + header_bytes(info, tags).len()) as int,
            ),
        ),
{
    let hd = header_bytes(info, tags);
    let s = pre + hd + rest;
    let i = pre.len() as int;
    let mb = magic_bytes(magic_of(info.format));
    lemma_middle(pre, hd, rest);
    if info.format == NetpbmFormat::PAM {
        assert(hd =~= mb + hd.subrange(2, hd.len() as int));
        lemma_pam_round_trip(pre, info, tags, rest);
    } else {
        assert(hd =~= mb + hd.subrange(2, hd.len() as int));
        lemma_pnm_round_trip(pre, info, rest);
    }
    lemma_split(s, i, mb, hd.subrange(2, hd.len() as int));
    lemma_magic_at(s, i, info.format);
    let w = info.width.spec_value();
    let h = info.height.spec_value();
    let m = info.bit_depth.spec_value() as u32;
    let c = info.channels.spec_value();
    assert(field_error(w, h, m, c) is None);
    assert(spec_info(info.format, w, h, m, c) == info);
}

} // verus!
