//! The two capabilities that a payload needs to travel in a packet: it can be
//! turned into bytes, and it can be read back from bytes.

use vstd::prelude::*;

verus! {

/// A value that can be encoded.
pub trait TiPack {
    /// The bytes that stand for this value on the wire.
    spec fn wire(&self) -> Seq<u8>;

    /// Whether encoding this value is bound to succeed. Each implementation
    /// says for which of its values that is so; one that can make no such
    /// promise says `false`.
    spec fn encodable(&self) -> bool;

    /// Encodes the value. It succeeds wherever the value is `encodable`, and
    /// where it succeeds, the bytes are those of `wire`.
    fn pack(&self) -> (r: Result<Vec<u8>, String>)
        ensures
            self.encodable() ==> r is Ok,
            r matches Ok(bytes) ==> bytes@ == self.wire(),
    ;
}

/// A value that can be decoded.
pub trait TiUnPack: Sized + View {
    /// The value that `bytes` stand for, if they stand for one.
    spec fn parse(bytes: Seq<u8>) -> Option<Self::V>;

    /// Decodes a value. Where it succeeds, the value is the one that `parse`
    /// gives for the input.
    fn unpack(encoded: &[u8]) -> (r: Result<Self, String>)
        ensures
            r matches Ok(value) ==> Self::parse(encoded@) == Some(value@),
    ;
}

} // verus!
