//! Canonical byte encodings.
use vstd::prelude::*;

verus! {

/// A buffer was too short.
#[derive(Copy, Clone, Debug, PartialEq, Eq, Structural)]
pub struct SerializationError;

/// Values with a canonical encoding.
pub trait CanonicalSerialize: Sized {
    /// The encoding.
    spec fn encoding(&self) -> Seq<u8>;

    /// Length of the encoding.
    fn serialized_size(&self) -> (size: usize)
        ensures
            size == self.encoding().len(),
    ;

    /// Write the encoding to the front of `writer`, which is left unchanged if it is too short.
    fn serialize(&self, writer: &mut [u8]) -> (result: Result<(), SerializationError>)
        ensures
            result is Ok <==> old(writer)@.len() >= self.encoding().len(),
            result is Ok ==> final(writer)@ == self.encoding() + old(writer)@.skip(
                self.encoding().len() as int,
            ),
            result is Err ==> final(writer)@ == old(writer)@,
    ;

    /// The encoding as a vector.
    fn to_bytes(&self) -> (bytes: Vec<u8>)
        ensures
            bytes@ == self.encoding(),
    ;
}

/// Values that can be read back from their canonical encoding.
pub trait CanonicalDeserialize: CanonicalSerialize {
    /// The value encoded at the front of `bytes`, if there are enough of them.
    spec fn decoding(bytes: Seq<u8>) -> Option<Self>;

    /// Reading gives back what was written, whatever follows it.
    proof fn round_trip(value: Self, rest: Seq<u8>)
        ensures
            Self::decoding(value.encoding() + rest) == Some(value),
    ;

    /// Read a value from the front of `bytes`.
    fn deserialize(bytes: &[u8]) -> (result: Result<Self, SerializationError>)
        ensures
            match Self::decoding(bytes@) {
                Some(value) => result == Ok::<Self, SerializationError>(value),
                None => result == Err::<Self, SerializationError>(SerializationError),
            },
    ;
}

} // verus!
