//! The user-visible text for each error kind, kept in one table away from the
//! places that raise them.

use vstd::prelude::*;

use crate::bar::BarError;
use crate::ddt::DdtError;
use crate::tga::TgaError;

verus! {

impl BarError {
    /// The human-readable message for this error kind.
    pub fn message(&self) -> (r: &'static str)
        ensures
            r@ == match self {
                BarError::NotValidBarSignature => "File is not a valid BAR file. Bad signature."@,
                BarError::NotSupportedBarVersion => "This version of the BAR file is not supported."@,
                BarError::NotValidBarMagic => "File is not a valid BAR file. Bad magic number."@,
                BarError::NotMatchedEntryCount => "File count does not match root file count."@,
                BarError::NotValidDecodedWavSignature => "Decoded sound has a wrong WAV signature."@,
                BarError::MalformedName => "An entry name is not valid UTF-16."@,
                BarError::UnexpectedEnd => "The archive ends before a promised field."@,
            },
    {
        match self {
            BarError::NotValidBarSignature => "File is not a valid BAR file. Bad signature.",
            BarError::NotSupportedBarVersion => "This version of the BAR file is not supported.",
            BarError::NotValidBarMagic => "File is not a valid BAR file. Bad magic number.",
            BarError::NotMatchedEntryCount => "File count does not match root file count.",
            BarError::NotValidDecodedWavSignature => "Decoded sound has a wrong WAV signature.",
            BarError::MalformedName => "An entry name is not valid UTF-16.",
            BarError::UnexpectedEnd => "The archive ends before a promised field.",
        }
    }
}

impl DdtError {
    /// The human-readable message for this error kind.
    pub fn message(&self) -> (r: &'static str)
        ensures
            r@ == match self {
                DdtError::NotValidDdtSignature => "File is not a valid DDT file. Bad signature."@,
                DdtError::NotValidDdtFormat => "Unknown DDT format."@,
                DdtError::UnexpectedEnd => "The texture ends before a promised surface."@,
            },
    {
        match self {
            DdtError::NotValidDdtSignature => "File is not a valid DDT file. Bad signature.",
            DdtError::NotValidDdtFormat => "Unknown DDT format.",
            DdtError::UnexpectedEnd => "The texture ends before a promised surface.",
        }
    }
}

impl TgaError {
    /// The human-readable message for this error kind.
    pub fn message(&self) -> (r: &'static str)
        ensures
            r@ == match self {
                TgaError::MalformedName => "The TGA file name does not carry DDT metadata."@,
                TgaError::UnexpectedEnd => "The TGA file ends before its header is complete."@,
            },
    {
        match self {
            TgaError::MalformedName => "The TGA file name does not carry DDT metadata.",
            TgaError::UnexpectedEnd => "The TGA file ends before its header is complete.",
        }
    }
}

} // verus!
