//! Tools for the archive and asset formats of a real-time-strategy game
//! family: the BAR archive container (two dialects), the obfuscated sound
//! container, and the DDT texture container with its DXT block codec and
//! TGA interchange carrier.

use vstd::prelude::*;

pub mod bar;
pub mod bytes;
pub mod consts;
pub mod ddt;
pub mod dxt;
pub mod loc;
pub mod tga;

use crate::consts::{
    BINARY_SIGNATURE_ALZ4, BINARY_SIGNATURE_BAR, BINARY_SIGNATURE_DDT, BINARY_SIGNATURE_L33T,
    BINARY_SIGNATURE_WAV_ENCODED,
};

verus! {

/// What the tool does with an input file, judged by its leading four-byte
/// signature.
#[derive(Clone, Copy, Debug, PartialEq, Eq, Structural)]
pub enum InputKind {
    /// A BAR archive: open it and extract every entry.
    Bar,
    /// A DDT texture: decode it to a targa carrier.
    Ddt,
    /// An obfuscated sound: run the deobfuscator.
    EncodedSound,
    /// An ALZ4 or L33T compressed stream: recognised but left as it is.
    CompressedStream,
    /// Anything else: no action.
    Other,
}

/// Classifies an input file by its leading four-byte signature.
pub fn classify_signature(signature: u32) -> (k: InputKind)
    ensures
        k == (if signature == BINARY_SIGNATURE_BAR {
            InputKind::Bar
        } else if signature == BINARY_SIGNATURE_DDT {
            InputKind::Ddt
        } else if signature == BINARY_SIGNATURE_WAV_ENCODED {
            InputKind::EncodedSound
        } else if signature == BINARY_SIGNATURE_ALZ4 || signature == BINARY_SIGNATURE_L33T {
            InputKind::CompressedStream
        } else {
            InputKind::Other
        }),
{
    if signature == BINARY_SIGNATURE_BAR {
        InputKind::Bar
    } else if signature == BINARY_SIGNATURE_DDT {
        InputKind::Ddt
    } else if signature == BINARY_SIGNATURE_WAV_ENCODED {
        InputKind::EncodedSound
    } else if signature == BINARY_SIGNATURE_ALZ4 || signature == BINARY_SIGNATURE_L33T {
        InputKind::CompressedStream
    } else {
        InputKind::Other
    }
}

} // verus!
