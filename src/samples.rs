//! Sample storage: 8-bit or 16-bit values, chosen by the caller.
use vstd::prelude::*;

use crate::formats::{validation, widen, Info};
use crate::NetpbmError;

verus! {

/// Borrowed samples of one image, 8-bit or 16-bit.
#[derive(Debug, Clone, PartialEq, Eq)]
pub enum SampleBuffer<'a> {
    EIGHT(&'a [u8]),
    SIXTEEN(&'a [u16]),
}

impl<'a> SampleBuffer<'a> {
    /// The samples as 16-bit values.
    pub open spec fn values(&self) -> Seq<u16> {
        match self {
            SampleBuffer::EIGHT(s) => widen(s@),
            SampleBuffer::SIXTEEN(s) => s@,
        }
    }

    /// The number of samples.
    pub fn len(&self) -> (r: usize)
        ensures
            r == self.values().len(),
    {
        match self {
            SampleBuffer::EIGHT(s) => s.len(),
            SampleBuffer::SIXTEEN(s) => s.len(),
        }
    }

    /// The sample at offset `k`, as a 16-bit value.
    pub fn get(&self, k: usize) -> (r: u16)
        requires
            k < self.values().len(),
        ensures
            r == self.values()[k as int],
    {
        match self {
            SampleBuffer::EIGHT(s) => s[k] as u16,
            SampleBuffer::SIXTEEN(s) => s[k],
        }
    }

    /// Checks the samples against a record, by the comparison of their
    /// own width.
    pub fn validate(&self, info: &Info) -> (r: Result<(), NetpbmError>)
        ensures
            r == validation(*info, self.values()),
    {
        match self {
            SampleBuffer::EIGHT(s) => info.validate_u8_samples(s),
            SampleBuffer::SIXTEEN(s) => info.validate_u16_samples(s),
        }
    }
}

/// The two sample widths that netpbm allows, 8 and 16 bits.
pub trait SampleType: Sized {
    /// The samples as 16-bit values.
    spec fn widened(s: Seq<Self>) -> Seq<u16>;

    /// Checks samples of this width against a record.
    fn validate_samples(info: &Info, samples: &[Self]) -> (r: Result<(), NetpbmError>)
        ensures
            r == validation(*info, Self::widened(samples@)),
    ;

    /// Wraps samples of this width in a buffer.
    fn to_sample_buffer(samples: &[Self]) -> (r: SampleBuffer<'_>)
        ensures
            r.values() == Self::widened(samples@),
    ;
}

impl SampleType for u8 {
    open spec fn widened(s: Seq<u8>) -> Seq<u16> {
        widen(s)
    }

    fn validate_samples(info: &Info, samples: &[u8]) -> (r: Result<(), NetpbmError>) {
        info.validate_u8_samples(samples)
    }

    fn to_sample_buffer(samples: &[u8]) -> (r: SampleBuffer<'_>) {
        SampleBuffer::EIGHT(samples)
    }
}

impl SampleType for u16 {
    open spec fn widened(s: Seq<u16>) -> Seq<u16> {
        s
    }

    fn validate_samples(info: &Info, samples: &[u16]) -> (r: Result<(), NetpbmError>) {
        info.validate_u16_samples(samples)
    }

    fn to_sample_buffer(samples: &[u16]) -> (r: SampleBuffer<'_>) {
        SampleBuffer::SIXTEEN(samples)
    }
}

} // verus!
