//! The sample region of a netpbm image: bit-packed PBM rows, ASCII
//! plain rasters, and raw rasters of one or two bytes per sample.
use vstd::prelude::*;

use crate::fields::BitDepth;
use crate::formats::{first_over, lemma_none_over, validation, Info, NetpbmFormat};
use crate::samples::SampleBuffer;
use crate::text::{
    capped, decimal, digits_end, digits_value, is_digit, is_space, lemma_decimal_digits,
    lemma_read_decimal, push_decimal, read_digits, skip_spaces, spaces_end,
};
use crate::NetpbmError;

verus! {

/// The number of samples on each line of a plain PBM raster. Each
/// sample takes one digit and one separator, so a line holds 70
/// characters with its line feed.
pub const PBM_PLAIN_LINE_SAMPLES: usize = 35;

/// The byte written after sample `k` of `total` in a plain raster of
/// `per_line` samples per line: a line feed ends each line and the
/// raster, a space separates samples within a line.
pub open spec fn separator(k: int, total: int, per_line: int) -> u8 {
    if (k + 1) % per_line == 0 || k + 1 == total {
        10
    } else {
        32
    }
}

/// The first `k` samples of a plain raster: each in decimal, followed by
/// its separator.
pub open spec fn plain_prefix(s: Seq<u16>, per_line: int, k: int) -> Seq<u8>
    decreases k,
{
    if k <= 0 {
        Seq::empty()
    } else {
        plain_prefix(s, per_line, k - 1) + decimal(s[k - 1] as nat) + seq![
            separator(k - 1, s.len() as int, per_line),
        ]
    }
}

/// A plain raster of `per_line` samples per line.
pub open spec fn plain_raster(s: Seq<u16>, per_line: int) -> Seq<u8> {
    plain_prefix(s, per_line, s.len() as int)
}

/// One sample of a raw raster: two bytes, most significant first, when
/// `wide`; otherwise its low byte.
pub open spec fn raw_sample(v: u16, wide: bool) -> Seq<u8> {
    if wide {
        seq![(v / 256) as u8, (v % 256) as u8]
    } else {
        seq![(v % 256) as u8]
    }
}

/// The first `k` samples of a raw raster.
pub open spec fn raw_prefix(s: Seq<u16>, wide: bool, k: int) -> Seq<u8>
    decreases k,
{
    if k <= 0 {
        Seq::empty()
    } else {
        raw_prefix(s, wide, k - 1) + raw_sample(s[k - 1], wide)
    }
}

/// A raw raster.
pub open spec fn raw_raster(s: Seq<u16>, wide: bool) -> Seq<u8> {
    raw_prefix(s, wide, s.len() as int)
}

/// Bit `k` of a PBM row, or a padding zero past its end.
pub open spec fn bit_or_zero(row: Seq<u16>, k: int) -> u8 {
    if 0 <= k < row.len() {
        row[k] as u8
    } else {
        0
    }
}

/// Byte `j` of a packed PBM row: bits `8j` to `8j + 7`, the first in
/// the most significant place.
pub open spec fn pack_byte(row: Seq<u16>, j: int) -> u8 {
    let b = 8 * j;
    (bit_or_zero(row, b) << 7u8) | (bit_or_zero(row, b + 1) << 6u8) | (bit_or_zero(row, b + 2)
        << 5u8) | (bit_or_zero(row, b + 3) << 4u8) | (bit_or_zero(row, b + 4) << 3u8) | (
    bit_or_zero(row, b + 5) << 2u8) | (bit_or_zero(row, b + 6) << 1u8) | bit_or_zero(row, b + 7)
}

/// The number of bytes of a packed row of `w` bits.
pub open spec fn row_bytes(w: int) -> int {
    (w + 7) / 8
}

/// A packed PBM row; its last byte is padded with zero bits.
pub open spec fn pack_row(row: Seq<u16>) -> Seq<u8> {
    Seq::new(row_bytes(row.len() as int) as nat, |j: int| pack_byte(row, j))
}

/// The first `r` rows of a raw PBM raster of rows of `w` bits, each
/// packed on its own.
pub open spec fn pack_rows(s: Seq<u16>, w: int, r: int) -> Seq<u8>
    decreases r,
{
    if r <= 0 {
        Seq::empty()
    } else {
        pack_rows(s, w, r - 1) + pack_row(s.subrange((r - 1) * w, r * w))
    }
}

/// The raster of an image in its format.
pub open spec fn raster_bytes(info: Info, s: Seq<u16>) -> Seq<u8> {
    match info.format {
        NetpbmFormat::PBMRaw => pack_rows(
            s,
            info.width.spec_value() as int,
            info.height.spec_value() as int,
        ),
        NetpbmFormat::PBMPlain => plain_raster(s, PBM_PLAIN_LINE_SAMPLES as int),
        NetpbmFormat::PGMPlain => plain_raster(s, 1),
        NetpbmFormat::PPMPlain => plain_raster(s, 3),
        _ => raw_raster(s, info.bit_depth.spec_value() > 255),
    }
}

/// Appends a plain raster of `per_line` samples per line.
fn push_plain(out: &mut Vec<u8>, s: &SampleBuffer, per_line: usize)
    requires
        per_line > 0,
    ensures
        final(out)@ == old(out)@ + plain_raster(s.values(), per_line as int),
{
    let n = s.len();
    let mut k: usize = 0;
    while k < n
        invariant
            n == s.values().len(),
            k <= n,
            per_line > 0,
            out@ == old(out)@ + plain_prefix(s.values(), per_line as int, k as int),
        decreases n - k,
    {
        push_decimal(out, s.get(k) as u64);
        let sep: u8 = if (k + 1) % per_line == 0 || k + 1 == n {
            10
        } else {
            32
        };
        out.push(sep);
        k += 1;
        assert(out@ =~= old(out)@ + plain_prefix(s.values(), per_line as int, k as int));
    }
}

/// Appends a raw raster.
fn push_raw(out: &mut Vec<u8>, s: &SampleBuffer, wide: bool)
    ensures
        final(out)@ == old(out)@ + raw_raster(s.values(), wide),
{
    let n = s.len();
    let mut k: usize = 0;
    while k < n
        invariant
            n == s.values().len(),
            k <= n,
            out@ == old(out)@ + raw_prefix(s.values(), wide, k as int),
        decreases n - k,
    {
        let v = s.get(k);
        if wide {
            out.push((v / 256) as u8);
        }
        out.push((v % 256) as u8);
        k += 1;
        assert(out@ =~= old(out)@ + raw_prefix(s.values(), wide, k as int));
    }
}

/// Bit `c` of the row that starts at offset `start`, or a padding zero.
fn row_bit(s: &SampleBuffer, start: usize, w: usize, c: usize) -> (r: u8)
    requires
        start + w <= s.values().len(),
    ensures
        r == bit_or_zero(s.values().subrange(start as int, start + w), c as int),
{
    let n = s.len();
    if c < w {
        #[verifier::truncate]
        (s.get(start + c) as u8)
    } else {
        0
    }
}

/// Appends a raw PBM raster of `h` rows of `w` bits.
fn push_packed(out: &mut Vec<u8>, s: &SampleBuffer, w: usize, h: usize)
    requires
        s.values().len() == w * h,
    ensures
        final(out)@ == old(out)@ + pack_rows(s.values(), w as int, h as int),
{
    let ghost v = s.values();
    let n = s.len();
    let nbytes: usize = w / 8 + if w % 8 != 0 {
        1usize
    } else {
        0
    };
    assert(nbytes == row_bytes(w as int));
    let mut r: usize = 0;
    while r < h
        invariant
            v == s.values(),
            v.len() == w * h,
            v.len() == n,
            nbytes == row_bytes(w as int),
            r <= h,
            out@ == old(out)@ + pack_rows(v, w as int, r as int),
        decreases h - r,
    {
        assert((r + 1) * w <= w * h) by (nonlinear_arith)
            requires r < h;
        assert((r + 1) * w == r * w + w) by (nonlinear_arith);
        let start = r * w;
        let ghost row = v.subrange(start as int, start + w);
        let ghost before = out@;
        let mut j: usize = 0;
        while j < nbytes
            invariant
                v == s.values(),
                start + w <= v.len(),
                row == v.subrange(start as int, start + w),
                nbytes == row_bytes(w as int),
                j <= nbytes,
                out@ == before + pack_row(row).take(j as int),
            decreases nbytes - j,
        {
            let b = 8 * j;
            let byte = (row_bit(s, start, w, b) << 7u8) | (row_bit(s, start, w, b + 1) << 6u8) | (
            row_bit(s, start, w, b + 2) << 5u8) | (row_bit(s, start, w, b + 3) << 4u8) | (row_bit(
                s,
                start,
                w,
                b + 4,
            ) << 3u8) | (row_bit(s, start, w, b + 5) << 2u8) | (row_bit(s, start, w, b + 6)
                << 1u8) | row_bit(s, start, w, b + 7);
            assert(byte == pack_byte(row, j as int));
            out.push(byte);
            j += 1;
            assert(out@ =~= before + pack_row(row).take(j as int));
        }
        assert(pack_row(row).take(j as int) =~= pack_row(row));
        r += 1;
        assert(out@ =~= old(out)@ + pack_rows(v, w as int, r as int));
    }
}

/// Appends the raster of an image in its format.
pub fn push_raster(out: &mut Vec<u8>, info: &Info, s: &SampleBuffer)
    requires
        s.values().len() == info.sample_count(),
        info.wf(),
    ensures
        final(out)@ == old(out)@ + raster_bytes(*info, s.values()),
{
    match info.format {
        NetpbmFormat::PBMRaw => {
            let w = info.width.value() as usize;
            let h = info.height.value() as usize;
            push_packed(out, s, w, h);
        },
        NetpbmFormat::PBMPlain => push_plain(out, s, PBM_PLAIN_LINE_SAMPLES),
        NetpbmFormat::PGMPlain => push_plain(out, s, 1),
        NetpbmFormat::PPMPlain => push_plain(out, s, 3),
        _ => push_raw(out, s, info.bit_depth.is_multi_byte()),
    }
}

/// Sample `k` of a raw raster that starts at `p`.
pub open spec fn raw_value(s: Seq<u8>, p: int, k: int, wide: bool) -> u16 {
    if wide {
        (s[p + 2 * k] * 256 + s[p + 2 * k + 1]) as u16
    } else {
        s[p + k] as u16
    }
}

/// The `n` samples of a raw raster that starts at `p`.
pub open spec fn raw_values(s: Seq<u8>, p: int, n: int, wide: bool) -> Seq<u16> {
    Seq::new(n as nat, |k: int| raw_value(s, p, k, wide))
}

/// The samples that `bd` admits, or the first that exceeds it.
pub open spec fn checked_samples(v: Seq<u16>, end: int, bd: BitDepth) -> Result<(Seq<u16>, int), NetpbmError> {
    if first_over(v, bd.spec_value(), 0) < v.len() {
        Err(NetpbmError::OversizedSample { offset: first_over(v, bd.spec_value(), 0) as usize, bit_depth: bd })
    } else {
        Ok((v, end))
    }
}

/// Reads a raw raster of `n` samples at `p`, with its end: one byte per
/// sample, or two, most significant first, for a bit depth above 255.
pub open spec fn raw_decode(s: Seq<u8>, p: int, n: int, bd: BitDepth) -> Result<(Seq<u16>, int), NetpbmError> {
    let wide = bd.spec_value() > 255;
    let size = if wide {
        2 * n
    } else {
        n
    };
    if p + size > s.len() {
        Err(NetpbmError::UnexpectedToken { offset: s.len() as usize })
    } else {
        checked_samples(raw_values(s, p, n, wide), p + size, bd)
    }
}

/// Bit `c` of byte `b`, counted from the most significant.
pub open spec fn bit_of(b: u8, c: int) -> u16 {
    ((b >> (7 - c) as u8) & 1u8) as u16
}

/// The `w * h` bits of a raw PBM raster at `p`; each row takes
/// `row_bytes(w)` bytes and its padding bits are dropped.
pub open spec fn unpacked(s: Seq<u8>, p: int, w: int, h: int) -> Seq<u16> {
    Seq::new(
        (w * h) as nat,
        |i: int| bit_of(s[p + (i / w) * row_bytes(w) + (i % w) / 8], (i % w) % 8),
    )
}

/// Reads a raw PBM raster of `h` rows of `w` bits at `p`, with its end.
pub open spec fn packed_decode(s: Seq<u8>, p: int, w: int, h: int) -> Result<(Seq<u16>, int), NetpbmError> {
    if p + h * row_bytes(w) > s.len() {
        Err(NetpbmError::UnexpectedToken { offset: s.len() as usize })
    } else {
        Ok((unpacked(s, p, w, h), p + h * row_bytes(w)))
    }
}

/// The next plain token after the whitespace at `p`, with its end: a
/// decimal number, or for PBM a single `0` or `1`.
pub open spec fn plain_token(s: Seq<u8>, p: int, pbm: bool) -> Result<(nat, int), NetpbmError> {
    let q = skip_spaces(s, p);
    if pbm {
        if 0 <= q < s.len() && (s[q] == 48 || s[q] == 49) {
            Ok(((s[q] - 48) as nat, q + 1))
        } else {
            Err(NetpbmError::UnexpectedToken { offset: q as usize })
        }
    } else {
        let e = digits_end(s, q);
        if e == q {
            Err(NetpbmError::UnexpectedToken { offset: q as usize })
        } else {
            Ok((digits_value(s, q, e), e))
        }
    }
}

/// Reads the first `k` samples of a plain raster at `p`, with the end of
/// the last; a sample above `bd` is reported by its offset.
pub open spec fn plain_decode(s: Seq<u8>, p: int, k: int, pbm: bool, bd: BitDepth) -> Result<(Seq<u16>, int), NetpbmError>
    decreases k,
{
    if k <= 0 {
        Ok((Seq::empty(), p))
    } else {
        match plain_decode(s, p, k - 1, pbm, bd) {
            Err(e) => Err(e),
            Ok((v, q)) => match plain_token(s, q, pbm) {
                Err(e) => Err(e),
                Ok((x, e)) => if x > bd.spec_value() {
                    Err(NetpbmError::OversizedSample { offset: (k - 1) as usize, bit_depth: bd })
                } else {
                    Ok((v.push(x as u16), e))
                },
            },
        }
    }
}

/// A plain raster read, with its end moved past the whitespace byte that
/// closes its last line, where there is one.
pub open spec fn closed_plain(s: Seq<u8>, d: Result<(Seq<u16>, int), NetpbmError>) -> Result<(Seq<u16>, int), NetpbmError> {
    match d {
        Ok((v, e)) => Ok((
            v,
            if 0 <= e < s.len() && is_space(s[e]) {
                e + 1
            } else {
                e
            },
        )),
        Err(x) => Err(x),
    }
}

/// Reads the raster of an image at `p`, with its end.
pub open spec fn raster_decode(s: Seq<u8>, p: int, info: Info) -> Result<(Seq<u16>, int), NetpbmError> {
    let n = info.sample_count();
    match info.format {
        NetpbmFormat::PBMRaw => packed_decode(
            s,
            p,
            info.width.spec_value() as int,
            info.height.spec_value() as int,
        ),
        NetpbmFormat::PBMPlain => closed_plain(s, plain_decode(s, p, n, true, info.bit_depth)),
        NetpbmFormat::PGMPlain | NetpbmFormat::PPMPlain => closed_plain(
            s,
            plain_decode(s, p, n, false, info.bit_depth),
        ),
        _ => raw_decode(s, p, n, info.bit_depth),
    }
}

/// Reads a raw raster of `n` samples at `p`.
fn read_raw(s: &[u8], p: usize, n: u128, bd: BitDepth) -> (r: Result<(Vec<u16>, usize), NetpbmError>)
    requires
        p <= s@.len(),
    ensures
        match r {
            Ok((v, e)) => raw_decode(s@, p as int, n as int, bd) == Ok::<(Seq<u16>, int), NetpbmError>((v@, e as int)),
            Err(x) => raw_decode(s@, p as int, n as int, bd) == Err::<(Seq<u16>, int), NetpbmError>(x),
        },
        r matches Ok((_, e)) ==> e <= s@.len(),
{
    let len = s.len();
    let wide = bd.is_multi_byte();
    let room = (len - p) as u128;
    if n > room || (wide && n > room / 2) {
        return Err(NetpbmError::UnexpectedToken { offset: len });
    }
    let count = n as usize;
    let size: usize = if wide {
        2 * count
    } else {
        count
    };
    let ghost all = raw_values(s@, p as int, count as int, wide);
    let mut v: Vec<u16> = Vec::new();
    let mut k: usize = 0;
    while k < count
        invariant
            p + size <= s@.len(),
            size == (if wide { 2 * (count as int) } else { count as int }),
            s@.len() == len,
            k <= count,
            all == raw_values(s@, p as int, count as int, wide),
            count as int == n as int,
            wide == (bd.spec_value() > 255),
            v@ == all.take(k as int),
            first_over(all, bd.spec_value(), k as int) == first_over(all, bd.spec_value(), 0),
        decreases count - k,
    {
        let x: u16 = if wide {
            (s[p + 2 * k] as u16) * 256 + s[p + 2 * k + 1] as u16
        } else {
            s[p + k] as u16
        };
        assert(x == all[k as int]);
        if x > bd.value() {
            assert(first_over(all, bd.spec_value(), k as int) == k);
            return Err(NetpbmError::OversizedSample { offset: k, bit_depth: bd });
        }
        v.push(x);
        k += 1;
        assert(v@ =~= all.take(k as int));
    }
    assert(v@ =~= all);
    Ok((v, p + size))
}

/// Reads a raw PBM raster of `h` rows of `w` bits at `p`.
fn read_packed(s: &[u8], p: usize, w: u32, h: u32) -> (r: Result<(Vec<u16>, usize), NetpbmError>)
    requires
        p <= s@.len(),
        w > 0,
    ensures
        match r {
            Ok((v, e)) => packed_decode(s@, p as int, w as int, h as int) == Ok::<(Seq<u16>, int), NetpbmError>((v@, e as int)),
            Err(x) => packed_decode(s@, p as int, w as int, h as int) == Err::<(Seq<u16>, int), NetpbmError>(x),
        },
        r matches Ok((_, e)) ==> e <= s@.len(),
{
    let len = s.len();
    let nbytes: u128 = (w / 8 + if w % 8 != 0 {
        1u32
    } else {
        0
    }) as u128;
    assert(nbytes == row_bytes(w as int));
    assert(h as u128 * nbytes <= 0xffff_ffff_ffff_ffffu128) by (nonlinear_arith)
        requires h <= 0xffff_ffff, nbytes <= 0x2000_0000;
    if (h as u128) * nbytes > (len - p) as u128 {
        return Err(NetpbmError::UnexpectedToken { offset: len });
    }
    let nbytes = nbytes as usize;
    let w = w as usize;
    let h = h as usize;
    let ghost all = unpacked(s@, p as int, w as int, h as int);
    let mut v: Vec<u16> = Vec::new();
    let mut r: usize = 0;
    while r < h
        invariant
            p + h * nbytes <= s@.len(),
            s@.len() == len,
            nbytes == row_bytes(w as int),
            w > 0,
            r <= h,
            all == unpacked(s@, p as int, w as int, h as int),
            v@ == all.take(r * w),
        decreases h - r,
    {
        assert(r * nbytes + nbytes <= h * nbytes) by (nonlinear_arith)
            requires r < h;
        assert(r * nbytes <= h * nbytes) by (nonlinear_arith)
            requires r < h;
        let base = p + r * nbytes;
        let mut c: usize = 0;
        while c < w
            invariant
                p + h * nbytes <= s@.len(),
                s@.len() == len,
                base == p + r * nbytes,
                r * nbytes + nbytes <= h * nbytes,
                nbytes == row_bytes(w as int),
                w > 0,
                r < h,
                c <= w,
                all == unpacked(s@, p as int, w as int, h as int),
                v@ == all.take(r * w + c),
            decreases w - c,
        {
            assert(c / 8 < nbytes);
            let byte = s[base + c / 8];
            let bit = ((byte >> (7 - (c % 8)) as u8) & 1u8) as u16;
            proof {
                let i = r * w + c;
                assert(i < w * h) by (nonlinear_arith)
                    requires i == r * w + c, c < w, r < h;
                assert(i / (w as int) == r && i % (w as int) == c) by (nonlinear_arith)
                    requires i == r * w + c, c < w, w > 0;
                assert(bit == all[i]);
            }
            v.push(bit);
            c += 1;
            assert(v@ =~= all.take(r * w + c));
        }
        assert(r * w + w == (r + 1) * w) by (nonlinear_arith);
        r += 1;
    }
    assert(h * w == w * h) by (nonlinear_arith);
    assert(v@ =~= all);
    Ok((v, p + h * nbytes))
}

/// Reads the next plain token after the whitespace at `p`.
fn read_token(s: &[u8], p: usize, pbm: bool) -> (r: Result<(u64, usize), NetpbmError>)
    requires
        p <= s@.len(),
    ensures
        match r {
            Ok((x, e)) => plain_token(s@, p as int, pbm) matches Ok((y, f)) && x == capped(y)
                && f == e && p < e <= s@.len(),
            Err(x) => plain_token(s@, p as int, pbm) == Err::<(nat, int), NetpbmError>(x),
        },
{
    let q = spaces_end(s, p);
    if pbm {
        if q < s.len() && (s[q] == 48 || s[q] == 49) {
            Ok(((s[q] - 48) as u64, q + 1))
        } else {
            Err(NetpbmError::UnexpectedToken { offset: q })
        }
    } else {
        let (e, x) = read_digits(s, q);
        if e == q {
            Err(NetpbmError::UnexpectedToken { offset: q })
        } else {
            Ok((x, e))
        }
    }
}

/// Once reading a plain raster fails, reading more samples fails alike.
proof fn lemma_plain_decode_err(s: Seq<u8>, p: int, m: int, m2: int, pbm: bool, bd: BitDepth)
    requires
        plain_decode(s, p, m, pbm, bd) is Err,
        m <= m2,
    ensures
        plain_decode(s, p, m2, pbm, bd) == plain_decode(s, p, m, pbm, bd),
    decreases m2 - m,
{
    if m < m2 {
        lemma_plain_decode_err(s, p, m, m2 - 1, pbm, bd);
    }
}

/// Reads a plain raster of `n` samples at `p`.
fn read_plain(s: &[u8], p: usize, n: u128, pbm: bool, bd: BitDepth) -> (r: Result<(Vec<u16>, usize), NetpbmError>)
    requires
        p <= s@.len(),
    ensures
        match r {
            Ok((v, e)) => plain_decode(s@, p as int, n as int, pbm, bd) == Ok::<(Seq<u16>, int), NetpbmError>((v@, e as int)),
            Err(x) => plain_decode(s@, p as int, n as int, pbm, bd) == Err::<(Seq<u16>, int), NetpbmError>(x),
        },
        r matches Ok((_, e)) ==> e <= s@.len(),
{
    let mut v: Vec<u16> = Vec::new();
    let mut pos = p;
    let mut k: u128 = 0;
    while k < n
        invariant
            p <= pos <= s@.len(),
            k <= n,
            k <= pos - p,
            plain_decode(s@, p as int, k as int, pbm, bd) == Ok::<(Seq<u16>, int), NetpbmError>((v@, pos as int)),
        decreases n - k,
    {
        let (x, e) = match read_token(s, pos, pbm) {
            Err(x) => {
                proof {
                    lemma_plain_decode_err(s@, p as int, k + 1, n as int, pbm, bd);
                }
                return Err(x);
            },
            Ok(t) => t,
        };
        if x > bd.value() as u64 {
            proof {
                lemma_plain_decode_err(s@, p as int, k + 1, n as int, pbm, bd);
            }
            return Err(NetpbmError::OversizedSample { offset: k as usize, bit_depth: bd });
        }
        v.push(x as u16);
        pos = e;
        k += 1;
    }
    Ok((v, pos))
}

/// Reads the raster of an image at `p`: its samples, and where it ends.
pub fn read_raster(s: &[u8], p: usize, info: &Info) -> (r: Result<(Vec<u16>, usize), NetpbmError>)
    requires
        p <= s@.len(),
        info.wf(),
    ensures
        match r {
            Ok((v, e)) => raster_decode(s@, p as int, *info) == Ok::<(Seq<u16>, int), NetpbmError>((v@, e as int)),
            Err(x) => raster_decode(s@, p as int, *info) == Err::<(Seq<u16>, int), NetpbmError>(x),
        },
        r matches Ok((_, e)) ==> e <= s@.len(),
{
    let w = info.width.value();
    let h = info.height.value();
    let c = info.channels.value();
    assert((w as u128) * (h as u128) <= 0xffff_ffff_ffff_ffff_ffff_ffffu128) by (nonlinear_arith)
        requires w <= 0xffff_ffff, h <= 0xffff_ffff;
    assert((w as u128) * (h as u128) * (c as u128) <= 0xffff_ffff_ffff_ffff_ffff_ffff_ffff_ffffu128) by (nonlinear_arith)
        requires w <= 0xffff_ffff, h <= 0xffff_ffff, c <= 0xffff_ffff;
    let n: u128 = (w as u128) * (h as u128) * (c as u128);
    let pbm = match info.format {
        NetpbmFormat::PBMPlain => true,
        NetpbmFormat::PGMPlain | NetpbmFormat::PPMPlain => false,
        NetpbmFormat::PBMRaw => return read_packed(s, p, w, h),
        _ => return read_raw(s, p, n, info.bit_depth),
    };
    let (v, e) = match read_plain(s, p, n, pbm, info.bit_depth) {
        Err(x) => return Err(x),
        Ok(t) => t,
    };
    if e < s.len() && (s[e] == 32 || s[e] == 9 || s[e] == 13 || s[e] == 10) {
        Ok((v, e + 1))
    } else {
        Ok((v, e))
    }
}

/// The bytes of a known stretch of `s`, one by one.
proof fn lemma_stretch(s: Seq<u8>, a: int, x: Seq<u8>)
    requires
        0 <= a,
        a + x.len() <= s.len(),
        s.subrange(a, a + x.len()) == x,
    ensures
        forall|k: int| 0 <= k < x.len() ==> s[a + k] == #[trigger] x[k],
{
    assert forall|k: int| 0 <= k < x.len() implies s[a + k] == #[trigger] x[k] by {
        assert(s.subrange(a, a + x.len())[k] == x[k]);
    }
}

/// The layout of a raw raster: sample `k` takes bytes `k * size` on, one
/// or two of them.
proof fn lemma_raw_layout(v: Seq<u16>, wide: bool, n: int)
    requires
        0 <= n <= v.len(),
    ensures
        raw_prefix(v, wide, n).len() == n * (if wide { 2int } else { 1int }),
        forall|k: int| #![trigger v[k]] 0 <= k < n ==> if wide {
            raw_prefix(v, wide, n)[2 * k] == (v[k] / 256) as u8 && raw_prefix(v, wide, n)[2 * k + 1] == (v[k] % 256) as u8
        } else {
            raw_prefix(v, wide, n)[k] == (v[k] % 256) as u8
        },
    decreases n,
{
    if n > 0 {
        lemma_raw_layout(v, wide, n - 1);
        let pre = raw_prefix(v, wide, n - 1);
        assert forall|k: int| #![trigger v[k]] 0 <= k < n implies if wide {
            raw_prefix(v, wide, n)[2 * k] == (v[k] / 256) as u8 && raw_prefix(v, wide, n)[2 * k + 1] == (v[k] % 256) as u8
        } else {
            raw_prefix(v, wide, n)[k] == (v[k] % 256) as u8
        } by {
            if k < n - 1 {
                assert(v[k] == v[k]);
            }
        }
    }
}

/// A raw raster reads back as its samples when none exceeds the bit
/// depth, and a bit depth below 256 keeps each sample in one byte.
pub proof fn lemma_raw_round_trip(s: Seq<u8>, p: int, v: Seq<u16>, bd: BitDepth)
    requires
        0 <= p,
        p + raw_raster(v, bd.spec_value() > 255).len() <= s.len(),
        s.subrange(p, p + raw_raster(v, bd.spec_value() > 255).len()) == raw_raster(v, bd.spec_value() > 255),
        first_over(v, bd.spec_value(), 0) >= v.len(),
    ensures
        raw_decode(s, p, v.len() as int, bd) == Ok::<(Seq<u16>, int), NetpbmError>(
            (v, p + raw_raster(v, bd.spec_value() > 255).len()),
        ),
{
    let wide = bd.spec_value() > 255;
    let r = raw_raster(v, wide);
    let n = v.len() as int;
    lemma_raw_layout(v, wide, n);
    lemma_stretch(s, p, r);
    lemma_none_over(v, bd.spec_value(), 0);
    assert(raw_values(s, p, n, wide) =~= v) by {
        assert forall|k: int| 0 <= k < n implies #[trigger] raw_values(s, p, n, wide)[k] == v[k] by {
            assert(v[k] <= bd.spec_value());
            if wide {
                assert(s[p + 2 * k] == r[2 * k]);
                assert(s[p + 2 * k + 1] == r[2 * k + 1]);
            } else {
                assert(s[p + k] == r[k]);
            }
        }
    }
}

/// The first `k` samples of a plain raster are a prefix of the first `n`.
proof fn lemma_plain_prefix_prefix(v: Seq<u16>, per: int, k: int, n: int)
    requires
        0 <= k <= n <= v.len(),
    ensures
        plain_prefix(v, per, k).len() <= plain_prefix(v, per, n).len(),
        plain_prefix(v, per, n).subrange(0, plain_prefix(v, per, k).len() as int) == plain_prefix(v, per, k),
    decreases n - k,
{
    if k < n {
        lemma_plain_prefix_prefix(v, per, k, n - 1);
        let a = plain_prefix(v, per, n - 1);
        let b = plain_prefix(v, per, n);
        assert(b.subrange(0, a.len() as int) =~= a);
        assert(b.subrange(0, plain_prefix(v, per, k).len() as int) =~= a.subrange(0, plain_prefix(v, per, k).len() as int));
    } else {
        assert(plain_prefix(v, per, n).subrange(0, plain_prefix(v, per, k).len() as int) =~= plain_prefix(v, per, k));
    }
}

/// The samples of a plain raster read back one by one: after `k` of them
/// the reader stands on the separator of the last.
proof fn lemma_plain_steps(s: Seq<u8>, p: int, v: Seq<u16>, per: int, k: int, pbm: bool, bd: BitDepth)
    requires
        0 <= p,
        per > 0,
        1 <= k <= v.len(),
        p + plain_raster(v, per).len() <= s.len(),
        s.subrange(p, p + plain_raster(v, per).len()) == plain_raster(v, per),
        forall|j: int| 0 <= j < v.len() ==> #[trigger] v[j] <= bd.spec_value(),
        pbm ==> forall|j: int| 0 <= j < v.len() ==> #[trigger] v[j] <= 1,
    ensures
        plain_decode(s, p, k, pbm, bd) == Ok::<(Seq<u16>, int), NetpbmError>(
            (v.take(k), p + plain_prefix(v, per, k).len() - 1),
        ),
    decreases k,
{
    let n = v.len() as int;
    let pk = plain_prefix(v, per, k);
    let d = decimal(v[k - 1] as nat);
    lemma_plain_prefix_prefix(v, per, k, n);
    lemma_stretch(s, p, plain_raster(v, per));
    let prev = plain_prefix(v, per, k - 1);
    let start = p + prev.len();
    lemma_decimal_digits(v[k - 1] as nat);
    assert forall|j: int| 0 <= j < d.len() implies s[start + j] == #[trigger] d[j] by {
        assert(pk[prev.len() + j] == d[j]);
        assert(plain_raster(v, per)[prev.len() + j] == pk[prev.len() + j]);
    }
    let sep = separator(k - 1, n, per);
    assert(pk[(prev.len() + d.len()) as int] == sep);
    assert(plain_raster(v, per)[(prev.len() + d.len()) as int] == pk[(prev.len() + d.len()) as int]);
    assert(s[start + d.len()] == sep);
    assert(s[start] == d[0]);
    assert(is_digit(d[0]));
    assert(skip_spaces(s, start) == start);
    let q = if k == 1 {
        p
    } else {
        start - 1
    };
    if k == 1 {
        assert(prev.len() == 0);
        assert(plain_decode(s, p, 0, pbm, bd) == Ok::<(Seq<u16>, int), NetpbmError>((Seq::<u16>::empty(), p)));
        assert(skip_spaces(s, q) == start);
    } else {
        lemma_plain_steps(s, p, v, per, k - 1, pbm, bd);
        lemma_plain_prefix_prefix(v, per, k - 1, n);
        assert(prev[prev.len() - 1] == separator(k - 2, n, per));
        assert(plain_raster(v, per).subrange(0, prev.len() as int)[prev.len() - 1] == prev[prev.len() - 1]);
        assert(plain_raster(v, per)[prev.len() - 1] == prev[prev.len() - 1]);
        assert(s[start - 1] == separator(k - 2, n, per));
        assert(skip_spaces(s, q) == start);
    }
    if k == 1 {
        assert(v.take(0) =~= Seq::<u16>::empty());
    }
    assert(plain_decode(s, p, k - 1, pbm, bd) == Ok::<(Seq<u16>, int), NetpbmError>((v.take(k - 1), q)));
    assert(pk.len() == prev.len() + d.len() + 1);
    if pbm {
        assert(v[k - 1] <= 1);
        assert(d[0] == 48 + v[k - 1]);
        assert(d.len() == 1);
        assert(plain_token(s, q, pbm) == Ok::<(nat, int), NetpbmError>((v[k - 1] as nat, start + 1)));
    } else {
        assert(s.subrange(start, start + d.len()) =~= d);
        lemma_read_decimal(s, start, v[k - 1] as nat);
        assert(plain_token(s, q, pbm) == Ok::<(nat, int), NetpbmError>((v[k - 1] as nat, start + d.len())));
    }
    assert(v[k - 1] <= bd.spec_value());
    assert(v.take(k - 1).push(v[k - 1]) =~= v.take(k));
}

/// A plain raster reads back as its samples; the reader stops on the
/// final line feed.
pub proof fn lemma_plain_round_trip(s: Seq<u8>, p: int, v: Seq<u16>, per: int, pbm: bool, bd: BitDepth)
    requires
        0 <= p,
        per > 0,
        v.len() >= 1,
        p + plain_raster(v, per).len() <= s.len(),
        s.subrange(p, p + plain_raster(v, per).len()) == plain_raster(v, per),
        first_over(v, bd.spec_value(), 0) >= v.len(),
        pbm ==> bd.spec_value() == 1,
    ensures
        plain_decode(s, p, v.len() as int, pbm, bd) == Ok::<(Seq<u16>, int), NetpbmError>(
            (v, p + plain_raster(v, per).len() - 1),
        ),
{
    lemma_none_over(v, bd.spec_value(), 0);
    lemma_plain_steps(s, p, v, per, v.len() as int, pbm, bd);
    assert(v.take(v.len() as int) =~= v);
}

/// Eight bits packed most significant first come back out one by one.
proof fn lemma_byte_bits(b0: u8, b1: u8, b2: u8, b3: u8, b4: u8, b5: u8, b6: u8, b7: u8)
    requires
        b0 <= 1 && b1 <= 1 && b2 <= 1 && b3 <= 1 && b4 <= 1 && b5 <= 1 && b6 <= 1 && b7 <= 1,
    ensures
        ({
            let x = (b0 << 7u8) | (b1 << 6u8) | (b2 << 5u8) | (b3 << 4u8) | (b4 << 3u8) | (b5 << 2u8) | (
            b6 << 1u8) | b7;
            &&& (x >> 7u8) & 1u8 == b0
            &&& (x >> 6u8) & 1u8 == b1
            &&& (x >> 5u8) & 1u8 == b2
            &&& (x >> 4u8) & 1u8 == b3
            &&& (x >> 3u8) & 1u8 == b4
            &&& (x >> 2u8) & 1u8 == b5
            &&& (x >> 1u8) & 1u8 == b6
            &&& (x >> 0u8) & 1u8 == b7
        }),
{
    assert(b0 <= 1 && b1 <= 1 && b2 <= 1 && b3 <= 1 && b4 <= 1 && b5 <= 1 && b6 <= 1 && b7 <= 1 ==> ({
        let x = (b0 << 7u8) | (b1 << 6u8) | (b2 << 5u8) | (b3 << 4u8) | (b4 << 3u8) | (b5 << 2u8) | (b6
            << 1u8) | b7;
        &&& (x >> 7u8) & 1u8 == b0
        &&& (x >> 6u8) & 1u8 == b1
        &&& (x >> 5u8) & 1u8 == b2
        &&& (x >> 4u8) & 1u8 == b3
        &&& (x >> 3u8) & 1u8 == b4
        &&& (x >> 2u8) & 1u8 == b5
        &&& (x >> 1u8) & 1u8 == b6
        &&& (x >> 0u8) & 1u8 == b7
    })) by (bit_vector);
}

/// Bit `c` of packed byte `j` is bit `8j + c` of the row.
proof fn lemma_pack_bit(row: Seq<u16>, j: int, c: int)
    requires
        0 <= c < 8,
        forall|k: int| 0 <= k < row.len() ==> #[trigger] row[k] <= 1,
    ensures
        bit_of(pack_byte(row, j), c) == bit_or_zero(row, 8 * j + c) as u16,
{
    let b = 8 * j;
    assert forall|t: int| 0 <= t < 8 implies #[trigger] bit_or_zero(row, b + t) <= 1 by {
        if 0 <= b + t < row.len() {
            assert(row[b + t] <= 1);
        }
    }
    assert(bit_or_zero(row, b + 0) <= 1);
    assert(bit_or_zero(row, b + 1) <= 1);
    assert(bit_or_zero(row, b + 2) <= 1);
    assert(bit_or_zero(row, b + 3) <= 1);
    assert(bit_or_zero(row, b + 4) <= 1);
    assert(bit_or_zero(row, b + 5) <= 1);
    assert(bit_or_zero(row, b + 6) <= 1);
    assert(bit_or_zero(row, b + 7) <= 1);
    lemma_byte_bits(
        bit_or_zero(row, b),
        bit_or_zero(row, b + 1),
        bit_or_zero(row, b + 2),
        bit_or_zero(row, b + 3),
        bit_or_zero(row, b + 4),
        bit_or_zero(row, b + 5),
        bit_or_zero(row, b + 6),
        bit_or_zero(row, b + 7),
    );
    assert(b + 0 == b);
}

/// The layout of packed rows: byte `j` of row `r` stands at
/// `r * row_bytes(w) + j`.
proof fn lemma_pack_rows_layout(v: Seq<u16>, w: int, r: int)
    requires
        w > 0,
        0 <= r,
        r * w <= v.len(),
    ensures
        pack_rows(v, w, r).len() == r * row_bytes(w),
        forall|q: int, j: int|
            0 <= q < r && 0 <= j < row_bytes(w) ==> #[trigger] pack_rows(v, w, r)[q * row_bytes(w) + j]
                == pack_byte(v.subrange(q * w, q * w + w), j),
    decreases r,
{
    let rb = row_bytes(w);
    if r > 0 {
        assert((r - 1) * w <= r * w) by (nonlinear_arith)
            requires w > 0, r > 0;
        lemma_pack_rows_layout(v, w, r - 1);
        let a = pack_rows(v, w, r - 1);
        let row = v.subrange((r - 1) * w, r * w);
        assert(row.len() == w) by (nonlinear_arith)
            requires row.len() == r * w - (r - 1) * w;
        assert(r * rb == (r - 1) * rb + rb) by (nonlinear_arith);
        assert forall|q: int, j: int|
            0 <= q < r && 0 <= j < rb implies #[trigger] pack_rows(v, w, r)[q * rb + j] == pack_byte(
            v.subrange(q * w, q * w + w),
            j,
        ) by {
            if q < r - 1 {
                assert(q * rb + j < (r - 1) * rb) by (nonlinear_arith)
                    requires q < r - 1, j < rb, 0 <= q, 0 <= j;
            } else {
                assert(q * rb + j - a.len() == j) by (nonlinear_arith)
                    requires q == r - 1, a.len() == (r - 1) * rb;
                assert(q * w + w == r * w) by (nonlinear_arith)
                    requires q == r - 1;
            }
        }
    }
}

/// A raw PBM raster reads back as its bits.
pub proof fn lemma_packed_round_trip(s: Seq<u8>, p: int, v: Seq<u16>, w: int, h: int)
    requires
        0 <= p,
        w > 0,
        h >= 0,
        v.len() == w * h,
        forall|k: int| 0 <= k < v.len() ==> #[trigger] v[k] <= 1,
        p + pack_rows(v, w, h).len() <= s.len(),
        s.subrange(p, p + pack_rows(v, w, h).len()) == pack_rows(v, w, h),
    ensures
        packed_decode(s, p, w, h) == Ok::<(Seq<u16>, int), NetpbmError>((v, p + pack_rows(v, w, h).len())),
{
    let rb = row_bytes(w);
    assert(h * w == w * h) by (nonlinear_arith);
    lemma_pack_rows_layout(v, w, h);
    let packed = pack_rows(v, w, h);
    lemma_stretch(s, p, packed);
    assert(unpacked(s, p, w, h) =~= v) by {
        assert forall|i: int| 0 <= i < w * h implies #[trigger] unpacked(s, p, w, h)[i] == v[i] by {
            let r = i / w;
            let c = i % w;
            assert(i == r * w + c && 0 <= c < w && 0 <= r) by (nonlinear_arith)
                requires r == i / w, c == i % w, w > 0, i >= 0;
            assert(r < h) by (nonlinear_arith)
                requires i == r * w + c, i < w * h, 0 <= c, w > 0;
            assert(c / 8 < rb);
            assert(r * rb + c / 8 < h * rb) by (nonlinear_arith)
                requires r < h, c / 8 < rb, 0 <= c / 8;
            let row = v.subrange(r * w, r * w + w);
            assert(r * w + w <= w * h) by (nonlinear_arith)
                requires r < h, w > 0, r >= 0;
            assert(packed[r * rb + c / 8] == pack_byte(row, c / 8));
            assert(s[p + (r * rb + c / 8)] == packed[r * rb + c / 8]);
            assert forall|k: int| 0 <= k < row.len() implies #[trigger] row[k] <= 1 by {
                assert(row[k] == v[r * w + k]);
            }
            lemma_pack_bit(row, c / 8, c % 8);
            assert(8 * (c / 8) + c % 8 == c);
            assert(row[c] == v[i]);
        }
    }
}

/// A plain raster ends with a line feed.
proof fn lemma_plain_ends_line(s: Seq<u8>, p: int, v: Seq<u16>, per: int)
    requires
        0 <= p,
        v.len() >= 1,
        p + plain_raster(v, per).len() <= s.len(),
        s.subrange(p, p + plain_raster(v, per).len()) == plain_raster(v, per),
    ensures
        s[p + plain_raster(v, per).len() - 1] == 10,
{
    let r = plain_raster(v, per);
    assert(r[r.len() - 1] == separator(v.len() - 1, v.len() as int, per));
    assert(s.subrange(p, p + r.len())[r.len() - 1] == r[r.len() - 1]);
}

/// A raster of valid samples reads back as those samples, and the read
/// ends right after it.
pub proof fn lemma_raster_round_trip(s: Seq<u8>, p: int, info: Info, v: Seq<u16>)
    requires
        info.wf(),
        validation(info, v) is Ok,
        0 <= p,
        p + raster_bytes(info, v).len() <= s.len(),
        s.subrange(p, p + raster_bytes(info, v).len()) == raster_bytes(info, v),
    ensures
        raster_decode(s, p, info) == Ok::<(Seq<u16>, int), NetpbmError>(
            (v, p + raster_bytes(info, v).len()),
        ),
{
    let w = info.width.spec_value() as int;
    let h = info.height.spec_value() as int;
    let c = info.channels.spec_value() as int;
    let bd = info.bit_depth;
    assert(w * h * c >= 1) by (nonlinear_arith)
        requires w >= 1, h >= 1, c >= 1;
    assert(v.len() == info.sample_count());
    match info.format {
        NetpbmFormat::PBMRaw => {
            assert(w * h * 1 == w * h);
            lemma_none_over(v, bd.spec_value(), 0);
            lemma_packed_round_trip(s, p, v, w, h);
        },
        NetpbmFormat::PBMPlain => {
            lemma_plain_round_trip(s, p, v, PBM_PLAIN_LINE_SAMPLES as int, true, bd);
            lemma_plain_ends_line(s, p, v, PBM_PLAIN_LINE_SAMPLES as int);
        },
        NetpbmFormat::PGMPlain => {
            lemma_plain_round_trip(s, p, v, 1, false, bd);
            lemma_plain_ends_line(s, p, v, 1);
        },
        NetpbmFormat::PPMPlain => {
            lemma_plain_round_trip(s, p, v, 3, false, bd);
            lemma_plain_ends_line(s, p, v, 3);
        },
        _ => {
            lemma_raw_round_trip(s, p, v, bd);
        },
    }
}

/// In a raw PGM, PPM or PAM raster each sample takes two bytes, most
/// significant first, when the bit depth exceeds 255; otherwise it takes
/// one byte, its low byte, whatever its high byte holds.
pub proof fn lemma_raw_sample_bytes(info: Info, v: Seq<u16>)
    requires
        info.format == NetpbmFormat::PGMRaw || info.format == NetpbmFormat::PPMRaw || info.format
            == NetpbmFormat::PAM,
    ensures
        info.bit_depth.spec_value() > 255 ==> {
            &&& raster_bytes(info, v).len() == 2 * v.len()
            &&& forall|k: int|
                #![trigger v[k]]
                0 <= k < v.len() ==> raster_bytes(info, v)[2 * k] == (v[k] / 256) as u8
                    && raster_bytes(info, v)[2 * k + 1] == (v[k] % 256) as u8
        },
        info.bit_depth.spec_value() <= 255 ==> {
            &&& raster_bytes(info, v).len() == v.len()
            &&& forall|k: int| #![trigger v[k]] 0 <= k < v.len() ==> raster_bytes(info, v)[k] == (v[k] % 256) as u8
        },
{
    lemma_raw_layout(v, info.bit_depth.spec_value() > 255, v.len() as int);
}

/// Bit `x` of row `r` in packed PBM bytes of rows `w` bits wide: bit
/// `7 - x % 8` of byte `r * row_bytes(w) + x / 8`.
pub open spec fn pbm_bit(packed: Seq<u8>, w: int, r: int, x: int) -> u16 {
    bit_of(packed[r * row_bytes(w) + x / 8], x % 8)
}

/// A raw PBM raster packs each row on its own into `row_bytes(width)`
/// bytes, eight bits to a byte with the first bit most significant; the
/// bits past the row's width are zero.
pub proof fn lemma_pbm_raw_bits(info: Info, v: Seq<u16>)
    requires
        info.wf(),
        info.format == NetpbmFormat::PBMRaw,
        validation(info, v) is Ok,
    ensures
        ({
            let w = info.width.spec_value() as int;
            let h = info.height.spec_value() as int;
            &&& raster_bytes(info, v).len() == h * row_bytes(w)
            &&& forall|r: int, x: int|
                0 <= r < h && 0 <= x < 8 * row_bytes(w) ==> #[trigger] pbm_bit(raster_bytes(info, v), w, r, x)
                    == if x < w {
                    v[r * w + x]
                } else {
                    0
                }
        }),
{
    let w = info.width.spec_value() as int;
    let h = info.height.spec_value() as int;
    let rb = row_bytes(w);
    assert(w * h * 1 == w * h);
    assert(v.len() == w * h);
    assert(h * w == w * h) by (nonlinear_arith);
    lemma_none_over(v, info.bit_depth.spec_value(), 0);
    lemma_pack_rows_layout(v, w, h);
    let packed = pack_rows(v, w, h);
    assert forall|r: int, x: int| 0 <= r < h && 0 <= x < 8 * rb implies #[trigger] pbm_bit(packed, w, r, x) == if x < w {
        v[r * w + x]
    } else {
        0
    } by {
        let row = v.subrange(r * w, r * w + w);
        assert(r * w + w <= w * h) by (nonlinear_arith)
            requires r < h, w > 0, r >= 0;
        assert(r * w >= 0) by (nonlinear_arith)
            requires r >= 0, w > 0;
        assert(x / 8 < rb);
        assert(packed[r * rb + x / 8] == pack_byte(row, x / 8));
        assert forall|k: int| 0 <= k < row.len() implies #[trigger] row[k] <= 1 by {
            assert(row[k] == v[r * w + k]);
        }
        lemma_pack_bit(row, x / 8, x % 8);
        assert(8 * (x / 8) + x % 8 == x);
        if x < w {
            assert(row[x] == v[r * w + x]);
            assert(v[r * w + x] <= 1);
        }
    }
}

} // verus!
