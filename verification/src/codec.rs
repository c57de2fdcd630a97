//! The symmetric codec capability shared by every message shape: decode one
//! instance from a byte source, encode one instance to a byte sink. Each
//! shape implements both against its own spec-level parser and byte image,
//! so a transport layer can handle any message without knowing its shape.

use vstd::prelude::*;

use crate::CodecError;

verus! {

/// Decoding one instance from a byte slice. `spec_parse` is the shape's
/// mathematical parser; `deserialize` must agree with it exactly, on
/// success and on failure alike, so decoding consumes exactly the bytes of
/// one instance and never reads past them.
pub trait Deserialize: View + Sized {
    /// What decoding at `pos` yields: the decoded value's mathematical
    /// form and the position just past its encoding, or the error.
    spec fn spec_parse(s: Seq<u8>, pos: int) -> Result<(Self::V, int), CodecError>;

    /// Decodes one instance of `Self` from `s` at `pos`.
    fn deserialize(s: &[u8], pos: usize) -> (r: Result<(Self, usize), CodecError>)
        ensures
            (match (r, Self::spec_parse(s@, pos as int)) {
                (Ok((v, n)), Ok((pv, pn))) => v@ == pv && n == pn,
                (Err(e), Err(pe)) => e == pe,
                _ => false,
            });
}

/// Encoding one instance to a byte sink. `spec_bytes` is the shape's exact
/// byte image; `serialize` appends it and nothing else.
pub trait Serialize: View {
    /// The exact byte image of this value.
    spec fn spec_bytes(&self) -> Seq<u8>;

    /// Appends the byte image of `self` to `out`.
    fn serialize(&self, out: &mut Vec<u8>)
        ensures
            final(out)@ == old(out)@ + self.spec_bytes();
}

} // verus!
