//! Code-unit-oriented raw-text splitting.
//!
//! This is the strategy for platforms whose native strings are sequences of
//! 16-bit code units interpreted as UTF-16. A unit is valid standalone
//! unless it is a high surrogate not followed by a low surrogate, or a low
//! surrogate not preceded by a consumed high surrogate; a well-formed
//! surrogate pair is consumed as one step. The byte-oriented strategy lives
//! in [`crate::unix`].

use vstd::prelude::*;
use vstd::utf8::encode_utf8;
use vstd::utf8::is_scalar;
use crate::model::lemma_encode_utf8_concat;
use crate::model::lemma_encode_utf8_one;
use crate::raw::push_scalar_utf8;
use crate::raw::string_from_utf8;

verus! {

broadcast use vstd::utf8::group_utf8_lib;

/// Classification of one UTF-16 code unit.
#[derive(Debug, Clone, PartialEq, Eq, Structural)]
pub enum Kind {
    Normal,
    LowSurrogate,
    HighSurrogate,
}

/// The classification of a code unit, as a spec-level function.
pub open spec fn kind_of(unit: u16) -> Kind {
    if unit < 0xd800 {
        Kind::Normal
    } else if unit <= 0xdbff {
        Kind::HighSurrogate
    } else if unit <= 0xdfff {
        Kind::LowSurrogate
    } else {
        Kind::Normal
    }
}

impl Kind {
    /// Classify one code unit.
    pub fn of(unit: u16) -> (k: Kind)
        ensures
            k == kind_of(unit),
    {
        if unit < 0xd800 {
            Kind::Normal
        } else if unit <= 0xdbff {
            Kind::HighSurrogate
        } else if unit <= 0xdfff {
            Kind::LowSurrogate
        } else {
            Kind::Normal
        }
    }
}

/// The first index at or after `i` where the unit sequence stops being
/// well-formed UTF-16, or `None` when it is well-formed to the end.
pub open spec fn find_invalid_from(s: Seq<u16>, i: int) -> Option<int>
    decreases s.len() - i,
    when 0 <= i <= s.len()
{
    if i >= s.len() {
        None
    } else if kind_of(s[i]) == Kind::Normal {
        find_invalid_from(s, i + 1)
    } else if kind_of(s[i]) == Kind::HighSurrogate && i + 1 < s.len() && kind_of(s[i + 1])
        == Kind::LowSurrogate {
        find_invalid_from(s, i + 2)
    } else {
        Some(i)
    }
}

/// True when the unit sequence is well-formed UTF-16 from start to end.
pub open spec fn valid_wide(s: Seq<u16>) -> bool {
    find_invalid_from(s, 0) is None
}

/// The index where an invalid scan stops never lies before its start.
proof fn lemma_find_invalid_bounds(s: Seq<u16>, i: int)
    requires
        0 <= i <= s.len(),
    ensures
        match find_invalid_from(s, i) {
            Some(q) => i <= q < s.len(),
            None => true,
        },
    decreases s.len() - i,
{
    if i >= s.len() {
    } else if kind_of(s[i]) == Kind::Normal {
        lemma_find_invalid_bounds(s, i + 1);
    } else if kind_of(s[i]) == Kind::HighSurrogate && i + 1 < s.len() && kind_of(s[i + 1])
        == Kind::LowSurrogate {
        lemma_find_invalid_bounds(s, i + 2);
    }
}

/// A scan that runs clean until `p` also runs clean on the prefix of length
/// `p` taken on its own.
proof fn lemma_find_invalid_prefix(s: Seq<u16>, p: int, i: int)
    requires
        0 <= i <= p <= s.len(),
        find_invalid_from(s, i) == if p == s.len() {
            None::<int>
        } else {
            Some(p)
        },
    ensures
        find_invalid_from(s.subrange(0, p), i) is None,
    decreases p - i,
{
    let sub = s.subrange(0, p);
    if i >= p {
    } else {
        assert(sub[i] == s[i]);
        if kind_of(s[i]) == Kind::Normal {
            lemma_find_invalid_prefix(s, p, i + 1);
        } else if kind_of(s[i]) == Kind::HighSurrogate && i + 1 < s.len() && kind_of(s[i + 1])
            == Kind::LowSurrogate {
            lemma_find_invalid_bounds(s, i + 2);
            assert(i + 2 <= p);
            assert(sub[i + 1] == s[i + 1]);
            lemma_find_invalid_prefix(s, p, i + 2);
        } else {
            assert(find_invalid_from(s, i) == Some(i));
        }
    }
}

/// Find the first position where the units stop being well-formed UTF-16,
/// if there is one. A well-formed surrogate pair is stepped over as a
/// whole and never ends the scan.
pub fn find_invalid(wide: &Vec<u16>) -> (r: Option<usize>)
    ensures
        match r {
            Some(i) => find_invalid_from(wide@, 0) == Some(i as int),
            None => find_invalid_from(wide@, 0) is None,
        },
{
    let n = wide.len();
    let mut i: usize = 0;
    while i < n
        invariant
            0 <= i <= n,
            n == wide@.len(),
            find_invalid_from(wide@, i as int) == find_invalid_from(wide@, 0),
        decreases n - i,
    {
        let k = Kind::of(wide[i]);
        if k == Kind::Normal {
            i = i + 1;
        } else if k == Kind::HighSurrogate && n - i > 1 && Kind::of(wide[i + 1])
            == Kind::LowSurrogate {
            i = i + 2;
        } else {
            return Some(i);
        }
    }
    None
}

/// The Unicode scalar value of the character whose encoding begins at `i`:
/// the unit itself, or the value of the surrogate pair beginning there.
pub open spec fn wide_scalar_at(s: Seq<u16>, i: int) -> u32
    recommends
        0 <= i < s.len(),
{
    if kind_of(s[i]) == Kind::Normal {
        s[i] as u32
    } else {
        (0x10000 + (s[i] - 0xd800) * 0x400 + (s[i + 1] - 0xdc00)) as u32
    }
}

/// The characters encoded by the units from `i` on; decoding stops at the
/// first invalid unit.
pub open spec fn decode_wide_from(s: Seq<u16>, i: int) -> Seq<char>
    decreases s.len() - i,
    when 0 <= i <= s.len()
{
    if i >= s.len() {
        seq![]
    } else if kind_of(s[i]) == Kind::Normal {
        seq![(s[i] as u32) as char] + decode_wide_from(s, i + 1)
    } else if kind_of(s[i]) == Kind::HighSurrogate && i + 1 < s.len() && kind_of(s[i + 1])
        == Kind::LowSurrogate {
        seq![wide_scalar_at(s, i) as char] + decode_wide_from(s, i + 2)
    } else {
        seq![]
    }
}

/// The UTF-16 encoding of one character: a single unit for a scalar below
/// 0x10000, a surrogate pair for the rest.
pub open spec fn encode_wide_char(c: char) -> Seq<u16> {
    let u = c as u32;
    if u < 0x10000 {
        seq![u as u16]
    } else {
        seq![
            (0xd800 + (u - 0x10000) / 0x400) as u16,
            (0xdc00 + (u - 0x10000) % 0x400) as u16,
        ]
    }
}

/// The UTF-16 encoding of a character sequence.
pub open spec fn encode_wide(chars: Seq<char>) -> Seq<u16>
    decreases chars.len(),
{
    if chars.len() == 0 {
        seq![]
    } else {
        encode_wide_char(chars[0]) + encode_wide(chars.drop_first())
    }
}

/// Encoding characters as UTF-16 distributes over appending one character.
proof fn lemma_encode_wide_push(chars: Seq<char>, c: char)
    ensures
        encode_wide(chars.push(c)) == encode_wide(chars) + encode_wide_char(c),
    decreases chars.len(),
{
    if chars.len() == 0 {
        assert(chars.push(c).drop_first() =~= Seq::<char>::empty());
        assert(chars.push(c)[0] == c);
        assert(chars.push(c).len() == 1);
        assert(encode_wide(chars.push(c)) == encode_wide_char(chars.push(c)[0]) + encode_wide(
            chars.push(c).drop_first(),
        ));
        assert(encode_wide(Seq::<char>::empty()) == Seq::<u16>::empty());
        assert(encode_wide(chars.push(c)) =~= encode_wide(chars) + encode_wide_char(c));
    } else {
        assert(chars.push(c).drop_first() =~= chars.drop_first().push(c));
        assert(chars.push(c)[0] == chars[0]);
        lemma_encode_wide_push(chars.drop_first(), c);
        assert(encode_wide(chars.push(c)) =~= encode_wide(chars) + encode_wide_char(c));
    }
}

/// Split a unit sequence into the decoded characters of its longest
/// well-formed UTF-16 prefix and the remaining raw suffix, which begins at
/// the first invalid unit. Re-encoding the characters as UTF-16 and
/// appending the suffix gives the original sequence back exactly.
pub fn split_valid(wide: &Vec<u16>) -> (r: (String, Vec<u16>))
    ensures
        ({
            let p = match find_invalid_from(wide@, 0) {
                Some(q) => q,
                None => wide@.len() as int,
            };
            &&& r.0@ == decode_wide_from(wide@, 0)
            &&& encode_wide(r.0@) == wide@.subrange(0, p)
            &&& r.1@ == wide@.subrange(p, wide@.len() as int)
            &&& valid_wide(wide@.subrange(0, p))
        }),
{
    let ghost s = wide@;
    let ghost p = match find_invalid_from(s, 0) {
        Some(q) => q,
        None => s.len() as int,
    };
    let n = wide.len();
    let mut bytes: Vec<u8> = Vec::new();
    let ghost mut done: Seq<char> = Seq::empty();
    let mut i: usize = 0;
    let mut stop = false;
    while !stop && i < n
        invariant
            0 <= i <= n,
            n == s.len(),
            s == wide@,
            find_invalid_from(s, i as int) == find_invalid_from(s, 0),
            stop ==> find_invalid_from(s, i as int) == Some(i as int),
            stop ==> decode_wide_from(s, i as int) == Seq::<char>::empty(),
            bytes@ == encode_utf8(done),
            done + decode_wide_from(s, i as int) == decode_wide_from(s, 0),
            encode_wide(done) == s.subrange(0, i as int),
        decreases
                n as int - i as int + (if stop {
                    0int
                } else {
                    1int
                }),
    {
        let u0 = wide[i];
        let k = Kind::of(u0);
        if k == Kind::Normal {
            let cp: u32 = u0 as u32;
            let ghost c = (cp as char);
            proof {
                assert(is_scalar(cp));
                assert(c as u32 == cp);
                lemma_encode_utf8_concat(done, seq![c]);
                lemma_encode_utf8_one(c);
                assert(done.push(c) =~= done + seq![c]);
                lemma_encode_wide_push(done, c);
                assert(encode_wide_char(c) =~= seq![s[i as int]]);
                assert(encode_wide(done.push(c)) =~= s.subrange(0, i as int + 1));
                assert(done.push(c) + decode_wide_from(s, i as int + 1) =~= done
                    + decode_wide_from(s, i as int));
            }
            push_scalar_utf8(&mut bytes, cp);
            proof {
                done = done.push(c);
            }
            i = i + 1;
        } else if k == Kind::HighSurrogate && n - i > 1 && Kind::of(wide[i + 1])
            == Kind::LowSurrogate {
            let u1 = wide[i + 1];
            let q = u0 - 0xd800;
            let rr = u1 - 0xdc00;
            let cp: u32 = 0x10000u32 + (q as u32) * 0x400u32 + (rr as u32);
            let ghost c = (cp as char);
            proof {
                assert(q < 0x400 && rr < 0x400);
                assert(cp == wide_scalar_at(s, i as int));
                assert(is_scalar(cp));
                assert(c as u32 == cp);
                lemma_encode_utf8_concat(done, seq![c]);
                lemma_encode_utf8_one(c);
                assert(done.push(c) =~= done + seq![c]);
                lemma_encode_wide_push(done, c);
                assert((cp - 0x10000) / 0x400 == q && (cp - 0x10000) % 0x400 == rr) by (
                nonlinear_arith)
                    requires
                        cp == 0x10000 + (q as int) * 0x400 + (rr as int),
                        0 <= q < 0x400,
                        0 <= rr < 0x400,
                ;
                assert(encode_wide_char(c) =~= seq![s[i as int], s[i as int + 1]]);
                assert(encode_wide(done.push(c)) =~= s.subrange(0, i as int + 2));
                assert(done.push(c) + decode_wide_from(s, i as int + 2) =~= done
                    + decode_wide_from(s, i as int));
            }
            push_scalar_utf8(&mut bytes, cp);
            proof {
                done = done.push(c);
            }
            i = i + 2;
        } else {
            proof {
                assert(find_invalid_from(s, i as int) == Some(i as int));
                assert(decode_wide_from(s, i as int) =~= Seq::<char>::empty());
            }
            stop = true;
        }
    }
    proof {
        if stop {
            assert(decode_wide_from(s, i as int) =~= Seq::<char>::empty());
        } else {
            assert(i == n);
            assert(decode_wide_from(s, n as int) =~= Seq::<char>::empty());
        }
        assert(done + decode_wide_from(s, i as int) =~= done);
        assert(i as int == p);
        assert(done == decode_wide_from(s, 0));
        lemma_find_invalid_bounds(s, 0);
        lemma_find_invalid_prefix(s, p, 0);
    }
    let head = string_from_utf8(bytes);
    let tail = vstd::slice::slice_to_vec(
        vstd::slice::slice_subrange(wide.as_slice(), i, wide.len()),
    );
    (head, tail)
}

/// An example of a badly encoded unit sequence: two lone high surrogates
/// followed by the letters `BAD`.
pub fn badly_encoded() -> (r: Vec<u16>)
    ensures
        r@ == seq![0xd800u16, 0xd840u16, 0x42u16, 0x41u16, 0x44u16],
{
    let mut v: Vec<u16> = Vec::new();
    v.push(0xd800);
    v.push(0xd840);
    v.push(0x42);
    v.push(0x41);
    v.push(0x44);
    proof {
        assert(v@ =~= seq![0xd800u16, 0xd840u16, 0x42u16, 0x41u16, 0x44u16]);
    }
    v
}

} // verus!
