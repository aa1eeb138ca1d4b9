//! A blob: the raw bytes of one file.

use vstd::prelude::*;
use vstd::slice::slice_to_vec;
use crate::encoding::{frame, frame_bytes, lemma_unframe_frame, unframe, unframe_bytes, ObjectError};
use crate::hash::sha1_digest;
use crate::object::Object;

verus! {

/// The contents of one file, as they were when the snapshot was taken.
pub struct Blob {
    pub contents: Vec<u8>,
}

/// The tag `blob`.
pub open spec fn blob_tag() -> Seq<u8> {
    seq![98u8, 108u8, 111u8, 98u8]
}

impl Blob {
    /// A blob that holds a copy of `contents`.
    pub fn new(contents: &[u8]) -> (blob: Blob)
        ensures
            blob.contents@ == contents@,
    {
        Blob { contents: slice_to_vec(contents) }
    }
}

impl Object for Blob {
    open spec fn tag() -> Seq<u8> {
        blob_tag()
    }

    open spec fn payload(&self) -> Seq<u8> {
        self.contents@
    }

    open spec fn decoded(bytes: Seq<u8>) -> Result<Seq<u8>, ObjectError> {
        unframe(blob_tag(), bytes)
    }

    fn serialize(&self) -> (bytes: Vec<u8>) {
        let tag: [u8; 4] = [98u8, 108u8, 111u8, 98u8];
        assert(tag@ =~= blob_tag());
        frame_bytes(tag.as_slice(), self.contents.as_slice())
    }

    fn deserialize(bytes: Vec<u8>) -> (r: Result<Self, ObjectError>) {
        let tag: [u8; 4] = [98u8, 108u8, 111u8, 98u8];
        assert(tag@ =~= blob_tag());
        match unframe_bytes(tag.as_slice(), bytes.as_slice()) {
            Ok(contents) => Ok(Blob { contents }),
            Err(e) => Err(e),
        }
    }
}

/// Decoding the encoding of a blob gives back its contents, whatever bytes
/// they are.
pub proof fn lemma_blob_round_trip(blob: Blob)
    ensures
        Blob::decoded(frame(Blob::tag(), blob.payload())) == Ok::<Seq<u8>, ObjectError>(
            blob.contents@,
        ),
{
    lemma_unframe_frame(blob_tag(), blob.contents@);
}

/// Blobs with equal contents have equal encodings and equal identities.
pub proof fn lemma_blob_content_addressed(a: Blob, b: Blob)
    requires
        a.contents@ == b.contents@,
    ensures
        frame(Blob::tag(), a.payload()) == frame(Blob::tag(), b.payload()),
        sha1_digest(frame(Blob::tag(), a.payload())) == sha1_digest(
            frame(Blob::tag(), b.payload()),
        ),
{
}

} // verus!
