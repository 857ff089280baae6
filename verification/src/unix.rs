//! Byte-oriented raw-text splitting.
//!
//! This is the strategy for platforms whose native strings are byte
//! sequences interpreted as UTF-8: an argument is split into the longest
//! prefix that is valid UTF-8 and the remaining, possibly undecodable
//! suffix. Concatenating the encoded prefix and the suffix always gives the
//! original bytes back. The code-unit-oriented strategy for the other
//! platform family lives in [`crate::windows`].

use vstd::prelude::*;
use vstd::utf8::*;
use vstd::slice::slice_subrange;
use vstd::slice::slice_to_vec;
use crate::raw::RawString;
use crate::raw::string_from_utf8;

verus! {

broadcast use vstd::utf8::group_utf8_lib;

/// Where the longest valid UTF-8 prefix of `s` ends when scanning scalar by
/// scalar from position `i`.
pub open spec fn split_point_from(s: Seq<u8>, i: int) -> int
    decreases s.len() - i,
    when 0 <= i <= s.len()
{
    if i == s.len() {
        i
    } else {
        let rest = s.subrange(i, s.len() as int);
        let l = if valid_first_scalar(rest) {
            length_of_first_scalar(rest)
        } else {
            0
        };
        if 1 <= l && i + l <= s.len() {
            split_point_from(s, i + l)
        } else {
            i
        }
    }
}

/// Where the longest valid UTF-8 prefix of `s` ends.
pub open spec fn split_point(s: Seq<u8>) -> int {
    split_point_from(s, 0)
}

/// The characters of the longest valid UTF-8 prefix of `s`.
pub open spec fn head_of(s: Seq<u8>) -> Seq<char> {
    decode_utf8(s.subrange(0, split_point(s)))
}

/// The undecodable remainder of `s`: everything after the longest valid
/// UTF-8 prefix.
pub open spec fn tail_of(s: Seq<u8>) -> Seq<u8> {
    s.subrange(split_point(s), s.len() as int)
}

/// The split point really marks the longest valid prefix: everything before
/// it is valid UTF-8 and what follows it does not begin with a valid scalar
/// encoding.
pub proof fn lemma_split_point_from(s: Seq<u8>, i: int)
    requires
        0 <= i <= s.len(),
        partial_valid_utf8(s, i),
    ensures
        i <= split_point_from(s, i) <= s.len(),
        partial_valid_utf8(s, split_point_from(s, i)),
        split_point_from(s, i) < s.len() ==> !valid_first_scalar(
            s.subrange(split_point_from(s, i), s.len() as int),
        ),
    decreases s.len() - i,
{
    if i == s.len() {
    } else {
        let rest = s.subrange(i, s.len() as int);
        if valid_first_scalar(rest) {
            let l = length_of_first_scalar(rest);
            assert(1 <= l && l <= rest.len());
            partial_valid_utf8_extend(s, i);
            lemma_split_point_from(s, i + l);
        }
    }
}

/// A byte sequence beginning with a valid scalar encoding still does so
/// after extending it on the right.
proof fn lemma_valid_first_scalar_extend(a: Seq<u8>, b: Seq<u8>)
    requires
        valid_first_scalar(a),
        a.len() <= b.len(),
        forall|k: int| 0 <= k < a.len() ==> a[k] == b[k],
    ensures
        valid_first_scalar(b),
        length_of_first_scalar(b) == length_of_first_scalar(a),
{
    assert(b[0] == a[0]);
    if is_leading_byte_width_1(a[0]) {
    } else if is_leading_byte_width_2(a[0]) {
        assert(b[1] == a[1]);
    } else if is_leading_byte_width_3(a[0]) {
        assert(b[1] == a[1]);
        assert(b[2] == a[2]);
    } else {
        assert(b[1] == a[1]);
        assert(b[2] == a[2]);
        assert(b[3] == a[3]);
    }
}

/// The split point really is the longest valid prefix: every prefix of `s`
/// that is valid UTF-8 ends at or before it.
pub proof fn lemma_split_point_longest(s: Seq<u8>, j: int)
    requires
        0 <= j <= s.len(),
        valid_utf8(s.subrange(0, j)),
    ensures
        j <= split_point(s),
{
    assert(s.subrange(0, 0) =~= Seq::<u8>::empty());
    lemma_split_point_longest_from(s, 0, j);
}

proof fn lemma_split_point_longest_from(s: Seq<u8>, i: int, j: int)
    requires
        0 <= i <= j <= s.len(),
        partial_valid_utf8(s, i),
        valid_utf8(s.subrange(i, j)),
    ensures
        j <= split_point_from(s, i),
    decreases j - i,
{
    if i == j {
        lemma_split_point_from(s, i);
    } else {
        let mid = s.subrange(i, j);
        let suffix = s.subrange(i, s.len() as int);
        assert(valid_first_scalar(mid));
        assert(forall|k: int| 0 <= k < mid.len() ==> mid[k] == suffix[k]);
        lemma_valid_first_scalar_extend(mid, suffix);
        let l = length_of_first_scalar(suffix);
        assert(1 <= l && i + l <= j);
        assert(pop_first_scalar(mid) =~= s.subrange(i + l, j));
        partial_valid_utf8_extend(s, i);
        lemma_split_point_longest_from(s, i + l, j);
    }
}

/// Length in bytes of the valid UTF-8 scalar encoding beginning at index
/// `i`, or 0 when no valid encoding begins there. The checks mirror the
/// definition of `valid_first_scalar` condition by condition.
fn first_scalar_len(bytes: &Vec<u8>, i: usize) -> (l: usize)
    requires
        i < bytes@.len(),
    ensures
        ({
            let rest = bytes@.subrange(i as int, bytes@.len() as int);
            &&& valid_first_scalar(rest) ==> l == length_of_first_scalar(rest) && 1 <= l && i + l
                <= bytes@.len()
            &&& !valid_first_scalar(rest) ==> l == 0
        }),
{
    let ghost rest = bytes@.subrange(i as int, bytes@.len() as int);
    let n = bytes.len();
    let b0 = bytes[i];
    proof {
        assert(rest[0] == b0);
        assert(rest.len() == n - i);
    }
    if b0 <= 0x7f {
        let cp: u32 = (b0 & 0x7f) as u32;
        proof {
            assert(cp == decode_first_codepoint(rest));
            assert(length_of_first_codepoint(rest) == 1);
        }
        if 0xd800 <= cp && cp <= 0xdfff {
            0
        } else {
            1
        }
    } else if 0xc0 <= b0 && b0 <= 0xdf {
        if i + 1 < n && 0x80 <= bytes[i + 1] && bytes[i + 1] <= 0xbf {
            let b1 = bytes[i + 1];
            let cp: u32 = (((b0 & 0x1f) as u32) << 6u32) | ((b1 & 0x3f) as u32);
            proof {
                assert(rest[1] == b1);
                assert(cp == decode_first_codepoint(rest));
                assert(length_of_first_codepoint(rest) == 2);
            }
            if 0x80 <= cp && !(0xd800 <= cp && cp <= 0xdfff) {
                2
            } else {
                0
            }
        } else {
            0
        }
    } else if 0xe0 <= b0 && b0 <= 0xef {
        if n - i > 2 && 0x80 <= bytes[i + 1] && bytes[i + 1] <= 0xbf && 0x80 <= bytes[i + 2]
            && bytes[i + 2] <= 0xbf {
            let b1 = bytes[i + 1];
            let b2 = bytes[i + 2];
            let cp: u32 = (((b0 & 0x0f) as u32) << 12u32) | (((b1 & 0x3f) as u32) << 6u32) | ((b2
                & 0x3f) as u32);
            proof {
                assert(rest[1] == b1);
                assert(rest[2] == b2);
                assert(cp == decode_first_codepoint(rest));
                assert(length_of_first_codepoint(rest) == 3);
            }
            if 0x800 <= cp && !(0xd800 <= cp && cp <= 0xdfff) {
                3
            } else {
                0
            }
        } else {
            0
        }
    } else if 0xf0 <= b0 && b0 <= 0xf7 {
        if n - i > 3 && 0x80 <= bytes[i + 1] && bytes[i + 1] <= 0xbf && 0x80 <= bytes[i + 2]
            && bytes[i + 2] <= 0xbf && 0x80 <= bytes[i + 3] && bytes[i + 3] <= 0xbf {
            let b1 = bytes[i + 1];
            let b2 = bytes[i + 2];
            let b3 = bytes[i + 3];
            let cp: u32 = (((b0 & 0x07) as u32) << 18u32) | (((b1 & 0x3f) as u32) << 12u32) | (((
            b2 & 0x3f) as u32) << 6u32) | ((b3 & 0x3f) as u32);
            proof {
                assert(rest[1] == b1);
                assert(rest[2] == b2);
                assert(rest[3] == b3);
                assert(cp == decode_first_codepoint(rest));
                assert(length_of_first_codepoint(rest) == 4);
            }
            if 0x10000 <= cp && cp <= 0x10ffff && !(0xd800 <= cp && cp <= 0xdfff) {
                4
            } else {
                0
            }
        } else {
            0
        }
    } else {
        0
    }
}

/// Where the longest valid UTF-8 prefix of the given bytes ends.
fn split_point_len(bytes: &Vec<u8>) -> (p: usize)
    ensures
        p as int == split_point(bytes@),
{
    let n = bytes.len();
    let mut i: usize = 0;
    while i < n
        invariant
            0 <= i <= n,
            n == bytes@.len(),
            split_point_from(bytes@, i as int) == split_point(bytes@),
        decreases n - i,
    {
        let l = first_scalar_len(bytes, i);
        if l == 0 {
            proof {
                assert(split_point_from(bytes@, i as int) == i as int);
            }
            return i;
        }
        proof {
            assert(split_point_from(bytes@, i as int) == split_point_from(
                bytes@,
                i as int + l as int,
            ));
        }
        i = i + l;
    }
    i
}

/// Split a raw string into the longest prefix that decodes as valid UTF-8
/// and the remaining, possibly undecodable suffix. Concatenating the
/// encoded prefix and the suffix gives the original back exactly; when the
/// suffix is non-empty it does not begin with a valid scalar encoding.
pub fn split_valid(os: &RawString) -> (r: (String, RawString))
    ensures
        r.0@ == head_of(os@),
        r.1@ == tail_of(os@),
        encode_utf8(r.0@) + r.1@ == os@,
        r.1@.len() > 0 ==> !valid_first_scalar(r.1@),
{
    proof {
        assert(os@.subrange(0, 0) =~= Seq::<u8>::empty());
        assert(partial_valid_utf8(os@, 0));
        lemma_split_point_from(os@, 0);
    }
    let b = os.as_bytes();
    let p = split_point_len(b);
    let head_bytes = slice_to_vec(slice_subrange(b.as_slice(), 0, p));
    let tail_bytes = slice_to_vec(slice_subrange(b.as_slice(), p, b.len()));
    proof {
        assert(head_bytes@ == os@.subrange(0, split_point(os@)));
        assert(valid_utf8(head_bytes@));
    }
    let head = string_from_utf8(head_bytes);
    let tail = RawString::new(tail_bytes);
    proof {
        assert(encode_utf8(head@) == os@.subrange(0, split_point(os@)));
        assert(os@.subrange(0, split_point(os@)) + os@.subrange(split_point(os@), os@.len() as int)
            =~= os@);
    }
    (head, tail)
}

/// True when the whole raw string is valid UTF-8.
pub fn utf8_valid(os: &RawString) -> (b: bool)
    ensures
        b == valid_utf8(os@),
{
    proof {
        assert(os@.subrange(0, 0) =~= Seq::<u8>::empty());
        assert(partial_valid_utf8(os@, 0));
        lemma_split_point_from(os@, 0);
    }
    let p = split_point_len(os.as_bytes());
    let valid = p == os.len();
    proof {
        if valid {
            assert(os@.subrange(0, os@.len() as int) =~= os@);
        } else {
            let t = os@.subrange(split_point(os@), os@.len() as int);
            assert(!valid_utf8(t));
            partial_valid_partial_invalid_utf8(os@, split_point(os@));
        }
    }
    valid
}

/// An example of a badly encoded raw string: an isolated continuation byte
/// followed by the letters `BAD`.
pub fn badly_encoded() -> (r: RawString)
    ensures
        r@ == seq![0x80u8, 0x42u8, 0x41u8, 0x44u8],
{
    let mut v: Vec<u8> = Vec::new();
    v.push(0x80);
    v.push(0x42);
    v.push(0x41);
    v.push(0x44);
    proof {
        assert(v@ =~= seq![0x80u8, 0x42u8, 0x41u8, 0x44u8]);
    }
    RawString::new(v)
}

} // verus!
