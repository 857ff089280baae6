//! The library's model of a platform-native argument string.
//!
//! Operating systems allow command line arguments that are not valid Unicode,
//! so an argument fresh from the environment is a plain byte sequence. A
//! [`RawString`] holds such a sequence; the splitter in [`crate::unix`]
//! separates its longest valid UTF-8 prefix from the undecodable remainder.

use vstd::prelude::*;
use vstd::utf8::valid_utf8;
use vstd::utf8::decode_utf8;
use vstd::utf8::encode_scalar;
use vstd::utf8::is_scalar;

verus! {

/// A platform-native string: a byte sequence that may or may not be valid
/// UTF-8. Plain value data; nothing is lost or re-encoded when one is built.
#[derive(Debug, PartialEq, Eq)]
pub struct RawString {
    bytes: Vec<u8>,
}

impl Clone for RawString {
    fn clone(&self) -> (r: Self)
        ensures
            r@ == self@,
    {
        RawString { bytes: vstd::slice::slice_to_vec(self.bytes.as_slice()) }
    }
}

impl View for RawString {
    type V = Seq<u8>;

    closed spec fn view(&self) -> Seq<u8> {
        self.bytes@
    }
}

impl RawString {
    /// Wrap the given bytes without interpreting them.
    pub fn new(bytes: Vec<u8>) -> (r: RawString)
        ensures
            r@ == bytes@,
    {
        RawString { bytes }
    }

    /// The empty raw string.
    pub fn empty() -> (r: RawString)
        ensures
            r@ == Seq::<u8>::empty(),
    {
        RawString { bytes: Vec::new() }
    }

    /// Borrow the underlying bytes.
    pub fn as_bytes(&self) -> (r: &Vec<u8>)
        ensures
            r@ == self@,
    {
        &self.bytes
    }

    /// Give up the underlying bytes.
    pub fn into_bytes(self) -> (r: Vec<u8>)
        ensures
            r@ == self@,
    {
        self.bytes
    }

    /// Length in bytes.
    pub fn len(&self) -> (n: usize)
        ensures
            n == self@.len(),
    {
        self.bytes.len()
    }

    /// True when no bytes are held.
    pub fn is_empty(&self) -> (b: bool)
        ensures
            b == (self@.len() == 0),
    {
        self.bytes.len() == 0
    }
}

/// Duplicate a vector of raw strings, keeping every element's bytes.
pub(crate) fn clone_raw_vec(v: &Vec<RawString>) -> (r: Vec<RawString>)
    ensures
        r@.map_values(|x: RawString| x@) == v@.map_values(|x: RawString| x@),
{
    let n = v.len();
    let mut out: Vec<RawString> = Vec::new();
    let mut i: usize = 0;
    while i < n
        invariant
            i <= n,
            n == v@.len(),
            out@.len() == i,
            forall|j: int| 0 <= j < i ==> #[trigger] out@[j]@ == v@[j]@,
        decreases n - i,
    {
        out.push(v[i].clone());
        i = i + 1;
    }
    proof {
        assert(out@.map_values(|x: RawString| x@) =~= v@.map_values(|x: RawString| x@));
    }
    out
}

/// Append the bytes of `src` to `dst`.
pub(crate) fn push_bytes(dst: &mut Vec<u8>, src: &Vec<u8>)
    ensures
        final(dst)@ == old(dst)@ + src@,
{
    let n = src.len();
    let mut i: usize = 0;
    while i < n
        invariant
            i <= n,
            n == src@.len(),
            dst@ == old(dst)@ + src@.subrange(0, i as int),
        decreases n - i,
    {
        dst.push(src[i]);
        proof {
            assert(old(dst)@ + src@.subrange(0, (i as int) + 1) =~= (old(dst)@ + src@.subrange(
                0,
                i as int,
            )).push(src@[i as int]));
        }
        i = i + 1;
    }
    proof {
        assert(src@.subrange(0, n as int) =~= src@);
    }
}

/// Append the UTF-8 encoding of one Unicode scalar to `dst`. The pushed
/// bytes mirror the specification of `encode_scalar` case by case.
pub(crate) fn push_scalar_utf8(dst: &mut Vec<u8>, u: u32)
    requires
        is_scalar(u),
    ensures
        final(dst)@ == old(dst)@ + encode_scalar(u),
{
    if u <= 0x7f {
        dst.push((u & 0x7f) as u8);
        proof {
            assert(dst@ =~= old(dst)@ + encode_scalar(u));
        }
    } else if u <= 0x7ff {
        dst.push(0xc0u8 | ((u >> 6u32) & 0x1f) as u8);
        dst.push(0x80u8 | (u & 0x3f) as u8);
        proof {
            assert(dst@ =~= old(dst)@ + encode_scalar(u));
        }
    } else if u <= 0xffff {
        dst.push(0xe0u8 | ((u >> 12u32) & 0x0f) as u8);
        dst.push(0x80u8 | ((u >> 6u32) & 0x3f) as u8);
        dst.push(0x80u8 | (u & 0x3f) as u8);
        proof {
            assert(dst@ =~= old(dst)@ + encode_scalar(u));
        }
    } else {
        dst.push(0xf0u8 | ((u >> 18u32) & 0x7) as u8);
        dst.push(0x80u8 | ((u >> 12u32) & 0x3f) as u8);
        dst.push(0x80u8 | ((u >> 6u32) & 0x3f) as u8);
        dst.push(0x80u8 | (u & 0x3f) as u8);
        proof {
            assert(dst@ =~= old(dst)@ + encode_scalar(u));
        }
    }
}

/// Relies on `String::from_utf8`: for bytes that are valid UTF-8 it returns
/// the string holding exactly the characters those bytes decode to.
#[verifier::external_body]
pub(crate) fn string_from_utf8(bytes: Vec<u8>) -> (r: String)
    requires
        valid_utf8(bytes@),
    ensures
        r@ == decode_utf8(bytes@),
{
    match String::from_utf8(bytes) {
        Ok(s) => s,
        Err(_) => String::new(),
    }
}

} // verus!
