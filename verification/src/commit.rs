//! A commit: one snapshot of the whole working set, with who made it and when.

use vstd::prelude::*;
use vstd::utf8::encode_utf8;
use crate::encoding::{append_bytes, frame_bytes, signed_decimal, two_digits, ObjectError};
use crate::hash::{hex, ObjectId};
use crate::object::Object;

verus! {

/// Who wrote or recorded a commit.
pub struct Contributor {
    pub name: String,
    pub email: String,
}

impl Contributor {
    /// A contributor of the given name and address.
    pub fn new(name: &str, email: &str) -> (contributor: Contributor)
        ensures
            contributor.name@ == name@,
            contributor.email@ == email@,
    {
        Contributor { name: name.to_owned(), email: email.to_owned() }
    }

    /// The contributor as it stands in a commit: the name, a space, and the
    /// address in angle brackets.
    pub open spec fn text(&self) -> Seq<u8> {
        encode_utf8(self.name@) + seq![32u8, 60u8] + encode_utf8(self.email@) + seq![62u8]
    }

    /// The contributor as text: `Name <email>`.
    pub fn to_text(&self) -> (text: String)
        ensures
            text@ == self.name@ + " <"@ + self.email@ + ">"@,
    {
        let mut text = self.name.clone();
        text.append(" <");
        text.append(self.email.as_str());
        text.append(">");
        text
    }

    /// The bytes of `Name <email>`.
    pub fn to_bytes(&self) -> (out: Vec<u8>)
        ensures
            out@ == self.text(),
    {
        let mut out: Vec<u8> = Vec::new();
        append_bytes(&mut out, self.name.as_str().as_bytes());
        out.push(32u8);
        out.push(60u8);
        append_bytes(&mut out, self.email.as_str().as_bytes());
        out.push(62u8);
        assert(out@ =~= self.text());
        out
    }
}

/// The earliest second that a timestamp can hold: the start of the year
/// 262144 BCE.
pub const MIN_SECONDS: i64 = -8_334_601_228_800;

/// The latest second that a timestamp can hold: the end of the year 262142.
pub const MAX_SECONDS: i64 = 8_210_266_876_799;

/// A timestamp can hold these seconds since the start of 1970 and this
/// offset in minutes east of UTC: the moment lies in the years that a
/// calendar date can name, and the offset is less than a day.
pub open spec fn valid_stamp(seconds: int, offset_minutes: int) -> bool {
    &&& MIN_SECONDS <= seconds <= MAX_SECONDS
    &&& -1440 < offset_minutes < 1440
}

/// A moment as it stands in a commit: the seconds since the start of 1970 in
/// decimal, a space, the sign of the offset, then its hours and its minutes,
/// two digits each, the offset rounded to the nearest minute.
pub open spec fn stamp_text(seconds: int, offset_seconds: int) -> Seq<u8> {
    let magnitude = if offset_seconds < 0 {
        -offset_seconds
    } else {
        offset_seconds
    };
    let minutes = (magnitude + 30) / 60;
    signed_decimal(seconds) + seq![32u8] + seq![
        if offset_seconds < 0 {
            45u8
        } else {
            43u8
        },
    ] + two_digits((minutes / 60) as nat) + two_digits((minutes % 60) as nat)
}

/// Builds a `chrono::DateTime` with `DateTime::from_timestamp`, moves it to
/// the zone that `FixedOffset::east_opt` gives with `with_timezone`, and
/// renders it with `format("%s %z")`. The contract claims what chrono's
/// formatting code does for these two items: `%s` writes the seconds since
/// the start of 1970 in plain decimal, `%z` writes the sign of the offset and
/// its hours and minutes, two digits each, after rounding the offset to the
/// nearest minute. The `requires` keeps to the inputs for which the two
/// constructors return a value.
#[verifier::external_body]
fn format_stamp(seconds: i64, offset_seconds: i32) -> (out: Vec<u8>)
    requires
        MIN_SECONDS <= seconds <= MAX_SECONDS,
        -86_400 < offset_seconds < 86_400,
    ensures
        out@ == stamp_text(seconds as int, offset_seconds as int),
{
    let zone = chrono::FixedOffset::east_opt(offset_seconds).unwrap();
    let moment = chrono::DateTime::from_timestamp(seconds, 0).unwrap().with_timezone(&zone);
    moment.format("%s %z").to_string().into_bytes()
}

/// A point in time as plain values.
pub struct TimestampModel {
    /// Seconds since the start of 1970, UTC.
    pub seconds: int,
    /// Minutes east of UTC.
    pub offset_minutes: int,
}

/// A point in time, with the offset from UTC of the clock that read it.
#[derive(Clone, Copy, Debug)]
pub struct Timestamp {
    seconds: i64,
    offset_minutes: i32,
}

impl View for Timestamp {
    type V = TimestampModel;

    closed spec fn view(&self) -> TimestampModel {
        TimestampModel { seconds: self.seconds as int, offset_minutes: self.offset_minutes as int }
    }
}

impl Timestamp {
    #[verifier::type_invariant]
    spec fn wf(self) -> bool {
        valid_stamp(self.seconds as int, self.offset_minutes as int)
    }

    /// The timestamp of the given second and offset, where there is one.
    pub fn new(seconds: i64, offset_minutes: i32) -> (stamp: Option<Timestamp>)
        ensures
            stamp.is_some() == valid_stamp(seconds as int, offset_minutes as int),
            stamp matches Some(t) ==> t@.seconds == seconds && t@.offset_minutes == offset_minutes,
    {
        if MIN_SECONDS <= seconds && seconds <= MAX_SECONDS && -1440 < offset_minutes
            && offset_minutes < 1440 {
            Some(Timestamp { seconds, offset_minutes })
        } else {
            None
        }
    }

    /// Seconds since the start of 1970, UTC.
    pub fn seconds(&self) -> (seconds: i64)
        ensures
            seconds == self@.seconds,
            valid_stamp(self@.seconds, self@.offset_minutes),
    {
        proof {
            use_type_invariant(self);
        }
        self.seconds
    }

    /// Minutes east of UTC.
    pub fn offset_minutes(&self) -> (minutes: i32)
        ensures
            minutes == self@.offset_minutes,
            valid_stamp(self@.seconds, self@.offset_minutes),
    {
        proof {
            use_type_invariant(self);
        }
        self.offset_minutes
    }

    /// The offset east of UTC in minutes, without its sign.
    pub open spec fn offset_magnitude(&self) -> nat {
        if self@.offset_minutes < 0 {
            (-self@.offset_minutes) as nat
        } else {
            self@.offset_minutes as nat
        }
    }

    /// The timestamp as it stands in a commit: the seconds in decimal, a
    /// space, the sign of the offset, its hours and its minutes, two digits
    /// each.
    pub open spec fn text(&self) -> Seq<u8> {
        signed_decimal(self@.seconds) + seq![32u8] + seq![
            if self@.offset_minutes < 0 {
                45u8
            } else {
                43u8
            },
        ] + two_digits(self.offset_magnitude() / 60) + two_digits(self.offset_magnitude() % 60)
    }

    /// The bytes of `<seconds> <sign><hours><minutes>`.
    pub fn to_bytes(&self) -> (out: Vec<u8>)
        ensures
            out@ == self.text(),
    {
        proof {
            use_type_invariant(self);
        }
        let offset_seconds: i32 = self.offset_minutes * 60;
        let out = format_stamp(self.seconds, offset_seconds);
        proof {
            let magnitude: int = self.offset_magnitude() as int;
            assert((magnitude * 60 + 30) / 60 == magnitude);
            assert(out@ =~= self.text());
        }
        out
    }
}

/// The tag `commit`.
pub open spec fn commit_tag() -> Seq<u8> {
    seq![99u8, 111u8, 109u8, 109u8, 105u8, 116u8]
}

/// The word `tree` and a space.
pub open spec fn tree_word() -> Seq<u8> {
    seq![116u8, 114u8, 101u8, 101u8, 32u8]
}

/// The word `author` and a space.
pub open spec fn author_word() -> Seq<u8> {
    seq![97u8, 117u8, 116u8, 104u8, 111u8, 114u8, 32u8]
}

/// The word `committer` and a space.
pub open spec fn committer_word() -> Seq<u8> {
    seq![99u8, 111u8, 109u8, 109u8, 105u8, 116u8, 116u8, 101u8, 114u8, 32u8]
}

/// `n` is where the summary of `message` ends: no newline comes before it, it
/// is at most forty, and it is the end of the message, the fortieth byte, or
/// the first newline.
pub open spec fn is_summary_cut(message: Seq<u8>, n: int) -> bool {
    &&& 0 <= n <= message.len()
    &&& n <= 40
    &&& forall|j: int| 0 <= j < n ==> message[j] != 10
    &&& (n == message.len() || n == 40 || message[n] == 10)
}

/// A message has one summary only.
pub proof fn lemma_summary_cut_unique(message: Seq<u8>, n: int, m: int)
    requires
        is_summary_cut(message, n),
        is_summary_cut(message, m),
    ensures
        n == m,
{
}

/// One snapshot of the working set: the tree that holds it, who made it,
/// when, and why.
pub struct Commit {
    pub author: Contributor,
    pub authored_at: Timestamp,
    pub committer: Contributor,
    pub committed_at: Timestamp,
    pub message: String,
    pub tree_object_id: ObjectId,
}

impl Commit {
    /// A commit of the given parts.
    pub fn new(
        author: Contributor,
        authored_at: Timestamp,
        committer: Contributor,
        committed_at: Timestamp,
        message: String,
        tree_object_id: ObjectId,
    ) -> (commit: Commit)
        ensures
            commit.author == author,
            commit.authored_at == authored_at,
            commit.committer == committer,
            commit.committed_at == committed_at,
            commit.message == message,
            commit.tree_object_id == tree_object_id,
    {
        Commit { author, authored_at, committer, committed_at, message, tree_object_id }
    }

    /// The first line of the message, cut after forty bytes.
    pub fn message_summary(&self) -> (summary: Vec<u8>)
        ensures
            is_summary_cut(encode_utf8(self.message@), summary@.len() as int),
            summary@ == encode_utf8(self.message@).take(summary@.len() as int),
    {
        let bytes = self.message.as_str().as_bytes();
        let mut summary: Vec<u8> = Vec::new();
        let mut i: usize = 0;
        while i < bytes.len() && i < 40 && bytes[i] != 10
            invariant
                i <= bytes.len(),
                i <= 40,
                summary@ == bytes@.take(i as int),
                forall|j: int| 0 <= j < i ==> bytes@[j] != 10,
            decreases bytes.len() - i,
        {
            summary.push(bytes[i]);
            assert(bytes@.take(i + 1) =~= bytes@.take(i as int).push(bytes@[i as int]));
            i += 1;
        }
        summary
    }
}

impl Object for Commit {
    open spec fn tag() -> Seq<u8> {
        commit_tag()
    }

    /// A line for the tree, one for the author, one for the committer, an
    /// empty line, then the message as it is.
    open spec fn payload(&self) -> Seq<u8> {
        tree_word() + hex(self.tree_object_id@) + seq![10u8]
            + author_word() + self.author.text() + seq![32u8] + self.authored_at.text() + seq![10u8]
            + committer_word() + self.committer.text() + seq![32u8] + self.committed_at.text() + seq![10u8]
            + seq![10u8] + encode_utf8(self.message@)
    }

    open spec fn decoded(bytes: Seq<u8>) -> Result<Seq<u8>, ObjectError> {
        Err(ObjectError::NotImplemented)
    }

    fn serialize(&self) -> (bytes: Vec<u8>) {
        let mut payload: Vec<u8> = Vec::new();
        let tree_word: [u8; 5] = [116u8, 114u8, 101u8, 101u8, 32u8];
        let author_word: [u8; 7] = [97u8, 117u8, 116u8, 104u8, 111u8, 114u8, 32u8];
        let committer_word: [u8; 10] = [
            99u8, 111u8, 109u8, 109u8, 105u8, 116u8, 116u8, 101u8, 114u8, 32u8,
        ];
        proof {
            assert(tree_word@ =~= self::tree_word());
            assert(author_word@ =~= self::author_word());
            assert(committer_word@ =~= self::committer_word());
        }
        append_bytes(&mut payload, tree_word.as_slice());
        let tree_hex = self.tree_object_id.hex_bytes();
        append_bytes(&mut payload, tree_hex.as_slice());
        payload.push(10u8);
        append_bytes(&mut payload, author_word.as_slice());
        let author = self.author.to_bytes();
        append_bytes(&mut payload, author.as_slice());
        payload.push(32u8);
        let authored_at = self.authored_at.to_bytes();
        append_bytes(&mut payload, authored_at.as_slice());
        payload.push(10u8);
        append_bytes(&mut payload, committer_word.as_slice());
        let committer = self.committer.to_bytes();
        append_bytes(&mut payload, committer.as_slice());
        payload.push(32u8);
        let committed_at = self.committed_at.to_bytes();
        append_bytes(&mut payload, committed_at.as_slice());
        payload.push(10u8);
        payload.push(10u8);
        append_bytes(&mut payload, self.message.as_str().as_bytes());
        assert(payload@ =~= self.payload());
        let tag: [u8; 6] = [99u8, 111u8, 109u8, 109u8, 105u8, 116u8];
        assert(tag@ =~= commit_tag());
        frame_bytes(tag.as_slice(), payload.as_slice())
    }

    fn deserialize(bytes: Vec<u8>) -> (r: Result<Self, ObjectError>) {
        Err(ObjectError::NotImplemented)
    }
}

} // verus!
