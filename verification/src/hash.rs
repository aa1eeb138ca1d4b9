//! Object identity: a 20-byte SHA-1 digest and its hexadecimal rendering.

use vstd::prelude::*;

verus! {

/// The SHA-1 digest of a byte sequence.
pub uninterp spec fn sha1_digest(data: Seq<u8>) -> Seq<u8>;

/// Calls `ring::digest::digest` with `SHA1_FOR_LEGACY_USE_ONLY` and copies the
/// twenty output bytes into an array. The contract only gives that output its
/// name: it is the SHA-1 digest of `data`, a function of the bytes alone.
#[verifier::external_body]
fn sha1(data: &[u8]) -> (out: [u8; 20])
    ensures
        out@ == sha1_digest(data@),
{
    let digest = ring::digest::digest(&ring::digest::SHA1_FOR_LEGACY_USE_ONLY, data);
    let mut out: [u8; 20] = [0u8; 20];
    out.copy_from_slice(digest.as_ref());
    out
}

/// The lowercase hexadecimal digit for a value below sixteen.
pub open spec fn hex_digit(nibble: u8) -> u8 {
    if nibble < 10 {
        (48 + nibble) as u8
    } else {
        (87 + nibble) as u8
    }
}

/// Lowercase hexadecimal text of `bytes`: two digits per byte, high nibble
/// first.
pub open spec fn hex(bytes: Seq<u8>) -> Seq<u8> {
    Seq::new(
        2 * bytes.len(),
        |i: int|
            if i % 2 == 0 {
                hex_digit(bytes[i / 2] / 16)
            } else {
                hex_digit(bytes[i / 2] % 16)
            },
    )
}

/// The text that the bytes of `ascii` spell.
pub open spec fn ascii_text(ascii: Seq<u8>) -> Seq<char> {
    Seq::new(ascii.len(), |i: int| ascii[i] as char)
}

/// The identity of an object: the digest of its canonical encoding.
#[derive(Clone, Copy, Debug, PartialEq, Eq, Hash)]
pub struct ObjectId(pub [u8; 20]);

impl View for ObjectId {
    type V = Seq<u8>;

    open spec fn view(&self) -> Seq<u8> {
        self.0@
    }
}

fn hex_digit_of(nibble: u8) -> (digit: u8)
    requires
        nibble < 16,
    ensures
        digit == hex_digit(nibble),
{
    if nibble < 10 {
        48 + nibble
    } else {
        87 + nibble
    }
}

fn hex_str_of(nibble: u8) -> (digit: &'static str)
    requires
        nibble < 16,
    ensures
        digit@ == seq![hex_digit(nibble) as char],
{
    proof {
        reveal_strlit("0");
        reveal_strlit("1");
        reveal_strlit("2");
        reveal_strlit("3");
        reveal_strlit("4");
        reveal_strlit("5");
        reveal_strlit("6");
        reveal_strlit("7");
        reveal_strlit("8");
        reveal_strlit("9");
        reveal_strlit("a");
        reveal_strlit("b");
        reveal_strlit("c");
        reveal_strlit("d");
        reveal_strlit("e");
        reveal_strlit("f");
    }
    let digit = if nibble == 0 {
        "0"
    } else if nibble == 1 {
        "1"
    } else if nibble == 2 {
        "2"
    } else if nibble == 3 {
        "3"
    } else if nibble == 4 {
        "4"
    } else if nibble == 5 {
        "5"
    } else if nibble == 6 {
        "6"
    } else if nibble == 7 {
        "7"
    } else if nibble == 8 {
        "8"
    } else if nibble == 9 {
        "9"
    } else if nibble == 10 {
        "a"
    } else if nibble == 11 {
        "b"
    } else if nibble == 12 {
        "c"
    } else if nibble == 13 {
        "d"
    } else if nibble == 14 {
        "e"
    } else {
        "f"
    };
    assert(digit@ =~= seq![hex_digit(nibble) as char]);
    digit
}

impl ObjectId {
    /// The identity of the object whose canonical encoding is `bytes`.
    pub fn compute(bytes: &[u8]) -> (id: ObjectId)
        ensures
            id@ == sha1_digest(bytes@),
    {
        ObjectId(sha1(bytes))
    }

    /// The twenty raw bytes of the digest.
    pub fn as_bytes(&self) -> (bytes: [u8; 20])
        ensures
            bytes@ == self@,
    {
        self.0
    }

    /// The digest as forty bytes of lowercase hexadecimal ASCII.
    pub fn hex_bytes(&self) -> (out: Vec<u8>)
        ensures
            out@ == hex(self@),
    {
        let mut out: Vec<u8> = Vec::new();
        let mut i: usize = 0;
        while i < 20
            invariant
                i <= 20,
                out@ == hex(self@.take(i as int)),
            decreases 20 - i,
        {
            let byte: u8 = self.0[i];
            out.push(hex_digit_of(byte / 16));
            out.push(hex_digit_of(byte % 16));
            assert(out@ =~= hex(self@.take(i + 1)));
            i += 1;
        }
        assert(self@.take(20) =~= self@);
        out
    }

    /// The digest as a string of forty lowercase hexadecimal characters.
    pub fn as_hex(&self) -> (text: String)
        ensures
            text@ == ascii_text(hex(self@)),
    {
        let mut text = String::new();
        let mut i: usize = 0;
        while i < 20
            invariant
                i <= 20,
                text@ == ascii_text(hex(self@.take(i as int))),
            decreases 20 - i,
        {
            let byte: u8 = self.0[i];
            text.append(hex_str_of(byte / 16));
            text.append(hex_str_of(byte % 16));
            assert(text@ =~= ascii_text(hex(self@.take(i + 1))));
            i += 1;
        }
        assert(self@.take(20) =~= self@);
        text
    }
}

} // verus!
