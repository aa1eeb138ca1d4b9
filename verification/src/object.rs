//! What every kind of stored object can do: encode itself, be decoded, and
//! name itself by the digest of its encoding.

use vstd::prelude::*;
use crate::encoding::{frame, ObjectError};
use crate::hash::{sha1_digest, ObjectId};

verus! {

/// A kind of object that the store can hold.
pub trait Object: Sized {
    /// The kind tag that opens the header.
    spec fn tag() -> Seq<u8>;

    /// The bytes that follow the header.
    spec fn payload(&self) -> Seq<u8>;

    /// What decoding `bytes` gives: the payload of the decoded object, or the
    /// reason why there is none.
    spec fn decoded(bytes: Seq<u8>) -> Result<Seq<u8>, ObjectError>;

    /// The canonical encoding: header and payload.
    fn serialize(&self) -> (bytes: Vec<u8>)
        ensures
            bytes@ == frame(Self::tag(), self.payload()),
    ;

    /// Rebuilds an object from its canonical encoding.
    fn deserialize(bytes: Vec<u8>) -> (r: Result<Self, ObjectError>)
        ensures
            match r {
                Ok(object) => Self::decoded(bytes@) == Ok::<Seq<u8>, ObjectError>(object.payload()),
                Err(e) => Self::decoded(bytes@) == Err::<Seq<u8>, ObjectError>(e),
            },
    ;

    /// The identity of the object: the digest of its canonical encoding.
    fn object_id(&self) -> (id: ObjectId)
        ensures
            id@ == sha1_digest(frame(Self::tag(), self.payload())),
    {
        let serialized = self.serialize();
        ObjectId::compute(serialized.as_slice())
    }
}

} // verus!
