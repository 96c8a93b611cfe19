//! PNM (Portable Any Map): the formats PBM, PGM and PPM together.
use vstd::prelude::*;

use crate::formats::NetpbmFormat;

verus! {

/// One of the six PNM formats: PBM, PGM or PPM, plain or raw.
#[derive(Debug, Clone, Copy, PartialEq, Eq, Structural)]
pub enum PnmFormat {
    PbmPlain,
    PgmPlain,
    PpmPlain,
    PbmRaw,
    PgmRaw,
    PpmRaw,
}

/// The netpbm format of a PNM format.
pub open spec fn pnm_format(p: PnmFormat) -> NetpbmFormat {
    match p {
        PnmFormat::PbmPlain => NetpbmFormat::PBMPlain,
        PnmFormat::PgmPlain => NetpbmFormat::PGMPlain,
        PnmFormat::PpmPlain => NetpbmFormat::PPMPlain,
        PnmFormat::PbmRaw => NetpbmFormat::PBMRaw,
        PnmFormat::PgmRaw => NetpbmFormat::PGMRaw,
        PnmFormat::PpmRaw => NetpbmFormat::PPMRaw,
    }
}

impl PnmFormat {
    /// The netpbm format; never PAM.
    pub fn format(&self) -> (r: NetpbmFormat)
        ensures
            r == pnm_format(*self),
            r != NetpbmFormat::PAM,
    {
        match self {
            PnmFormat::PbmPlain => NetpbmFormat::PBMPlain,
            PnmFormat::PgmPlain => NetpbmFormat::PGMPlain,
            PnmFormat::PpmPlain => NetpbmFormat::PPMPlain,
            PnmFormat::PbmRaw => NetpbmFormat::PBMRaw,
            PnmFormat::PgmRaw => NetpbmFormat::PGMRaw,
            PnmFormat::PpmRaw => NetpbmFormat::PPMRaw,
        }
    }

    /// The PNM format of a netpbm format, or `None` for PAM.
    pub fn from_format(f: NetpbmFormat) -> (r: Option<PnmFormat>)
        ensures
            r is Some <==> f != NetpbmFormat::PAM,
            r matches Some(p) ==> pnm_format(p) == f,
    {
        match f {
            NetpbmFormat::PBMPlain => Some(PnmFormat::PbmPlain),
            NetpbmFormat::PGMPlain => Some(PnmFormat::PgmPlain),
            NetpbmFormat::PPMPlain => Some(PnmFormat::PpmPlain),
            NetpbmFormat::PBMRaw => Some(PnmFormat::PbmRaw),
            NetpbmFormat::PGMRaw => Some(PnmFormat::PgmRaw),
            NetpbmFormat::PPMRaw => Some(PnmFormat::PpmRaw),
            NetpbmFormat::PAM => None,
        }
    }
}

} // verus!
