//! Formatted output, piece by piece.
use vstd::prelude::*;
use vstd::utf8::encode_utf8;

verus! {

/// What a formatting routine hands out: the pieces of text in order, and whether it failed after
/// the last of them.
pub struct Arguments {
    pub pieces: Vec<String>,
    pub failed: bool,
}

/// The contents of [`Arguments`]: the bytes of the pieces.
#[verifier::ext_equal]
pub struct Formatted {
    pub pieces: Seq<Seq<u8>>,
    pub failed: bool,
}

impl View for Arguments {
    type V = Formatted;

    open spec fn view(&self) -> Formatted {
        Formatted {
            pieces: self.pieces@.map_values(|piece: String| encode_utf8(piece@)),
            failed: self.failed,
        }
    }
}

} // verus!
