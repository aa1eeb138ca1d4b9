//! Where objects are kept: each under a directory named by the first two
//! hexadecimal characters of its identity, in a file named by the other
//! thirty-eight.

use vstd::prelude::*;
use crate::encoding::frame;
use crate::hash::{ascii_text, hex, sha1_digest, ObjectId};
use crate::object::Object;

verus! {

/// The name of the directory that holds the object `id`.
pub open spec fn directory_name(id: Seq<u8>) -> Seq<char> {
    ascii_text(hex(id)).take(2)
}

/// The name of the file that holds the object `id`.
pub open spec fn file_name(id: Seq<u8>) -> Seq<char> {
    ascii_text(hex(id)).skip(2)
}

/// The place of an object below the root of the database.
pub struct ObjectLocation {
    pub directory: String,
    pub file_name: String,
}

/// One file to be written: the place of an object and its encoding.
pub struct WriteRequest {
    pub location: ObjectLocation,
    pub contents: Vec<u8>,
}

/// An object database below one root directory.
pub struct ObjectDatabase {
    objects_path: String,
}

impl ObjectDatabase {
    /// The root directory of the database.
    pub closed spec fn root(&self) -> Seq<char> {
        self.objects_path@
    }

    /// The database rooted at `objects_path`.
    pub fn new(objects_path: &str) -> (database: ObjectDatabase)
        ensures
            database.root() == objects_path@,
    {
        ObjectDatabase { objects_path: objects_path.to_owned() }
    }

    /// The root directory of the database.
    pub fn objects_path(&self) -> (path: &str)
        ensures
            path@ == self.root(),
    {
        self.objects_path.as_str()
    }

    /// Where the object `id` is kept, for writing it and for reading it back.
    pub fn locate(&self, id: &ObjectId) -> (location: ObjectLocation)
        ensures
            location.directory@ == directory_name(id@),
            location.file_name@ == file_name(id@),
    {
        let text = id.as_hex();
        let directory = text.as_str().substring_char(0, 2).to_owned();
        let file_name = text.as_str().substring_char(2, 40).to_owned();
        assert(text@.len() == 40);
        assert(text@.subrange(0, 2) =~= text@.take(2));
        assert(text@.subrange(2, 40) =~= text@.skip(2));
        ObjectLocation { directory, file_name }
    }

    /// What writing `object` puts on disk: its encoding, at the place that
    /// the digest of that encoding gives.
    pub fn write_object<T: Object>(&self, object: &T) -> (request: WriteRequest)
        ensures
            request.contents@ == frame(T::tag(), object.payload()),
            request.location.directory@ == directory_name(sha1_digest(request.contents@)),
            request.location.file_name@ == file_name(sha1_digest(request.contents@)),
    {
        let contents = object.serialize();
        let id = ObjectId::compute(contents.as_slice());
        let location = self.locate(&id);
        WriteRequest { location, contents }
    }
}

/// Objects with the same encoding are written to the same place with the same
/// bytes: writing one of them again changes nothing.
pub proof fn lemma_write_is_content_addressed(a: WriteRequest, b: WriteRequest)
    requires
        a.contents@ == b.contents@,
        a.location.directory@ == directory_name(sha1_digest(a.contents@)),
        a.location.file_name@ == file_name(sha1_digest(a.contents@)),
        b.location.directory@ == directory_name(sha1_digest(b.contents@)),
        b.location.file_name@ == file_name(sha1_digest(b.contents@)),
    ensures
        a.location.directory@ == b.location.directory@,
        a.location.file_name@ == b.location.file_name@,
{
}

} // verus!
