//! Byte-level building blocks of the canonical encodings: decimal numbers and
//! the `<kind> <length>\0<payload>` frame shared by every object kind.

use vstd::prelude::*;
use vstd::slice::{slice_subrange, slice_to_vec};

verus! {

/// Why a byte sequence could not be turned back into an object.
#[derive(Clone, Copy, Debug, PartialEq, Eq, Structural)]
pub enum ObjectError {
    /// The bytes are not a well-formed frame of the expected kind.
    ParseError,
    /// Decoding this kind of object is not supported.
    NotImplemented,
}

/// The decimal digits of `n` as ASCII bytes, without leading zeros.
pub open spec fn decimal(n: nat) -> Seq<u8>
    decreases n,
{
    if n < 10 {
        seq![(48 + n) as u8]
    } else {
        decimal(n / 10).push((48 + n % 10) as u8)
    }
}

/// Every byte of a decimal rendering is an ASCII digit.
pub proof fn lemma_decimal_digits(n: nat)
    ensures
        decimal(n).len() >= 1,
        forall|i: int| 0 <= i < decimal(n).len() ==> 48 <= #[trigger] decimal(n)[i] <= 57,
    decreases n,
{
    if n >= 10 {
        lemma_decimal_digits(n / 10);
    }
}

/// Renders `n` in decimal.
pub fn decimal_digits(n: u64) -> (out: Vec<u8>)
    ensures
        out@ == decimal(n as nat),
    decreases n,
{
    if n < 10 {
        let mut out: Vec<u8> = Vec::new();
        out.push(48 + n as u8);
        out
    } else {
        let mut out = decimal_digits(n / 10);
        out.push(48 + (n % 10) as u8);
        out
    }
}

/// The decimal rendering of an integer, with a minus sign where it is negative.
pub open spec fn signed_decimal(n: int) -> Seq<u8> {
    if n < 0 {
        seq![45u8] + decimal((-n) as nat)
    } else {
        decimal(n as nat)
    }
}

/// A number in decimal, with a leading zero where it is below ten.
pub open spec fn two_digits(n: nat) -> Seq<u8> {
    if n < 10 {
        seq![48u8] + decimal(n)
    } else {
        decimal(n)
    }
}

/// The canonical frame: the kind tag, a space, the payload length in decimal,
/// a NUL byte, then the payload itself.
pub open spec fn frame(kind: Seq<u8>, payload: Seq<u8>) -> Seq<u8> {
    kind + seq![32u8] + decimal(payload.len()) + seq![0u8] + payload
}

/// `i` is the position of the first NUL byte of `bytes`.
pub open spec fn is_first_nul(bytes: Seq<u8>, i: int) -> bool {
    &&& 0 <= i < bytes.len()
    &&& bytes[i] == 0
    &&& forall|j: int| 0 <= j < i ==> bytes[j] != 0
}

/// What a frame of the given kind decodes to: the bytes after the first NUL,
/// provided the bytes before it are exactly the header for that many bytes.
pub open spec fn unframe(kind: Seq<u8>, bytes: Seq<u8>) -> Result<Seq<u8>, ObjectError> {
    if exists|i: int| is_first_nul(bytes, i) {
        let i = choose|i: int| is_first_nul(bytes, i);
        let payload = bytes.skip(i + 1);
        if bytes.take(i) == kind + seq![32u8] + decimal(payload.len()) {
            Ok(payload)
        } else {
            Err(ObjectError::ParseError)
        }
    } else {
        Err(ObjectError::ParseError)
    }
}

/// A kind tag is usable when it holds no NUL byte.
pub open spec fn nul_free(bytes: Seq<u8>) -> bool {
    forall|i: int| 0 <= i < bytes.len() ==> bytes[i] != 0
}

/// Unframing a frame gives back its payload, whatever bytes the payload holds.
pub proof fn lemma_unframe_frame(kind: Seq<u8>, payload: Seq<u8>)
    requires
        nul_free(kind),
    ensures
        unframe(kind, frame(kind, payload)) == Ok::<Seq<u8>, ObjectError>(payload),
{
    let header = kind + seq![32u8] + decimal(payload.len());
    let bytes = frame(kind, payload);
    let at = header.len() as int;
    lemma_decimal_digits(payload.len());
    assert(bytes =~= header + seq![0u8] + payload);
    assert(is_first_nul(bytes, at));
    let i = choose|i: int| is_first_nul(bytes, i);
    assert(i == at) by {
        if i < at {
            assert(bytes[i] != 0);
        } else if at < i {
            assert(bytes[at] == 0);
        }
    }
    assert(bytes.skip(at + 1) =~= payload);
    assert(bytes.take(at) =~= header);
}

/// Appends `src` to the end of `out`.
pub fn append_bytes(out: &mut Vec<u8>, src: &[u8])
    ensures
        final(out)@ == old(out)@ + src@,
{
    let mut i: usize = 0;
    while i < src.len()
        invariant
            i <= src.len(),
            out@ == old(out)@ + src@.take(i as int),
        decreases src.len() - i,
    {
        out.push(src[i]);
        assert(src@.take(i + 1) =~= src@.take(i as int).push(src@[i as int]));
        i += 1;
    }
    assert(src@.take(i as int) =~= src@);
}

/// Builds the frame of `payload` under the tag `kind`.
pub fn frame_bytes(kind: &[u8], payload: &[u8]) -> (out: Vec<u8>)
    ensures
        out@ == frame(kind@, payload@),
{
    let mut out: Vec<u8> = Vec::new();
    append_bytes(&mut out, kind);
    out.push(32u8);
    let digits = decimal_digits(payload.len() as u64);
    append_bytes(&mut out, digits.as_slice());
    out.push(0u8);
    append_bytes(&mut out, payload);
    assert(out@ =~= frame(kind@, payload@));
    out
}

/// Position of the first NUL byte, if there is one.
pub fn find_nul(bytes: &[u8]) -> (at: Option<usize>)
    ensures
        match at {
            Some(i) => is_first_nul(bytes@, i as int),
            None => nul_free(bytes@),
        },
{
    let mut i: usize = 0;
    while i < bytes.len()
        invariant
            i <= bytes.len(),
            forall|j: int| 0 <= j < i ==> bytes@[j] != 0,
        decreases bytes.len() - i,
    {
        if bytes[i] == 0 {
            return Some(i);
        }
        i += 1;
    }
    None
}

/// Whether two byte strings are equal.
pub fn bytes_equal(a: &[u8], b: &[u8]) -> (same: bool)
    ensures
        same == (a@ == b@),
{
    if a.len() != b.len() {
        return false;
    }
    let mut i: usize = 0;
    while i < a.len()
        invariant
            a.len() == b.len(),
            i <= a.len(),
            forall|j: int| 0 <= j < i ==> a@[j] == b@[j],
        decreases a.len() - i,
    {
        if a[i] != b[i] {
            return false;
        }
        i += 1;
    }
    assert(a@ =~= b@);
    true
}

/// Splits a frame of the given kind into header and payload and checks the
/// header: the tag must be `kind` and the declared length must be the number
/// of bytes that follow the first NUL.
pub fn unframe_bytes(kind: &[u8], bytes: &[u8]) -> (r: Result<Vec<u8>, ObjectError>)
    ensures
        match r {
            Ok(payload) => unframe(kind@, bytes@) == Ok::<Seq<u8>, ObjectError>(payload@),
            Err(e) => unframe(kind@, bytes@) == Err::<Seq<u8>, ObjectError>(e),
        },
{
    match find_nul(bytes) {
        None => {
            assert(forall|i: int| !is_first_nul(bytes@, i));
            Err(ObjectError::ParseError)
        },
        Some(at) => {
            proof {
                let i = choose|i: int| is_first_nul(bytes@, i);
                assert(i == at) by {
                    if i < at {
                        assert(bytes@[i] != 0);
                    } else if at < i {
                        assert(bytes@[at as int] == 0);
                    }
                }
            }
            let rest_len: usize = bytes.len() - at - 1;
            let mut header: Vec<u8> = Vec::new();
            append_bytes(&mut header, kind);
            header.push(32u8);
            let digits = decimal_digits(rest_len as u64);
            append_bytes(&mut header, digits.as_slice());
            let head = slice_subrange(bytes, 0, at);
            assert(head@ =~= bytes@.take(at as int));
            assert(header@ =~= kind@ + seq![32u8] + decimal(rest_len as nat));
            assert(bytes@.skip(at + 1).len() == rest_len);
            if bytes_equal(head, header.as_slice()) {
                let payload = slice_to_vec(slice_subrange(bytes, at + 1, bytes.len()));
                assert(payload@ =~= bytes@.skip(at + 1));
                Ok(payload)
            } else {
                Err(ObjectError::ParseError)
            }
        },
    }
}

} // verus!
