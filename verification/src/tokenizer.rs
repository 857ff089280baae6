//! The tokenizer state machine.
//!
//! [`Core`] consumes a vector of raw arguments one step at a time and emits
//! flags and words, holding exactly one [`ArgState`] between steps. Every
//! operation is specified against the model in [`crate::model`].

use vstd::prelude::*;
use vstd::string::StrSliceExecFns;
use vstd::utf8::encode_utf8;
use crate::argerror::ArgError;
use crate::argerror::ErrorModel;
use crate::item::ItemOsModel;
use crate::item::OwnedItem;
use crate::model::CoreModel;
use crate::model::StateModel;
use crate::model::advanced;
use crate::model::classify;
use crate::model::core_init;
use crate::model::find_char_from;
use crate::model::lemma_encode_utf8_concat;
use crate::model::lemma_encode_utf8_one;
use crate::model::lemma_find_char_from;
use crate::model::param_core;
use crate::model::param_result;
use crate::model::short_forced;
use crate::model::step_core;
use crate::model::step_forced;
use crate::model::step_result;
use crate::raw::RawString;
use crate::raw::push_bytes;
use crate::raw::string_from_utf8;
use crate::unix::split_valid;
use crate::unix::head_of;
use crate::unix::tail_of;

verus! {

broadcast use vstd::utf8::group_utf8_lib;

/// The argument currently under consideration.
#[derive(Debug, PartialEq, Eq)]
pub enum ArgState {
    /// The current argument is `-`, or it does not start with a dash at
    /// all.
    Word(RawString),
    /// A freshly split set of single-letter flags after one dash: first
    /// flag character, remaining flag characters, raw tail.
    ShortOptionsNew(char, String, RawString),
    /// The same set after at least one flag has been emitted.
    ShortOptionsUsed(char, String, RawString),
    /// A long option (`--flag[=value]`) with optional value; the name
    /// includes the dashes.
    LongOption(String, Option<RawString>),
    /// A long option `--flag=value` has been emitted but its value
    /// remains.
    RemainingParameter(String, RawString),
    /// There was an undecodable sequence directly after the `-` or `--`.
    CannotDecode(RawString),
    /// No more tokens remain.
    End,
}

impl Clone for ArgState {
    /// Duplicating a state is cheap and loses nothing: the copy carries the
    /// same model.
    fn clone(&self) -> (r: Self)
        ensures
            r@ == self@,
    {
        match self {
            ArgState::Word(w) => ArgState::Word(w.clone()),
            ArgState::ShortOptionsNew(f, m, t) => ArgState::ShortOptionsNew(
                *f,
                m.clone(),
                t.clone(),
            ),
            ArgState::ShortOptionsUsed(f, m, t) => ArgState::ShortOptionsUsed(
                *f,
                m.clone(),
                t.clone(),
            ),
            ArgState::LongOption(n, p) => ArgState::LongOption(
                n.clone(),
                match p {
                    Some(v) => Some(v.clone()),
                    None => None,
                },
            ),
            ArgState::RemainingParameter(n, v) => ArgState::RemainingParameter(
                n.clone(),
                v.clone(),
            ),
            ArgState::CannotDecode(s) => ArgState::CannotDecode(s.clone()),
            ArgState::End => ArgState::End,
        }
    }
}

impl View for ArgState {
    type V = StateModel;

    open spec fn view(&self) -> StateModel {
        match self {
            ArgState::Word(w) => StateModel::Word(w@),
            ArgState::ShortOptionsNew(f, m, t) => StateModel::ShortNew(*f, m@, t@),
            ArgState::ShortOptionsUsed(f, m, t) => StateModel::ShortUsed(*f, m@, t@),
            ArgState::LongOption(n, p) => StateModel::Long(
                n@,
                match p {
                    Some(v) => Some(v@),
                    None => None,
                },
            ),
            ArgState::RemainingParameter(n, v) => StateModel::Pending(n@, v@),
            ArgState::CannotDecode(s) => StateModel::Bad(s@),
            ArgState::End => StateModel::End,
        }
    }
}

/// The model of an exec `take_item` result.
pub open spec fn item_result_model(r: &Result<Option<OwnedItem>, ArgError>) -> Result<
    Option<ItemOsModel>,
    ErrorModel,
> {
    match r {
        Ok(Some(i)) => Ok(Some(i@)),
        Ok(None) => Ok(None),
        Err(e) => Err(e@),
    }
}

/// The model of an optional forced next state.
pub open spec fn option_state_model(o: &Option<ArgState>) -> Option<StateModel> {
    match o {
        Some(st) => Some(st@),
        None => None,
    }
}

/// The model of an optional raw parameter value.
pub open spec fn option_raw_model(o: &Option<RawString>) -> Option<Seq<u8>> {
    match o {
        Some(v) => Some(v@),
        None => None,
    }
}

/// First index at which `c` occurs in `s`, or the character length of `s`
/// when it does not occur.
fn find_char(s: &str, c: char) -> (i: usize)
    ensures
        i as int == find_char_from(s@, c, 0),
{
    let n = s.unicode_len();
    let mut i: usize = 0;
    while i < n
        invariant
            i <= n,
            n == s@.len(),
            find_char_from(s@, c, i as int) == find_char_from(s@, c, 0),
        decreases n - i,
    {
        if s.get_char(i) == c {
            return i;
        }
        i = i + 1;
    }
    i
}

/// Append the UTF-8 encoding of one character to `dst`.
fn push_char_utf8(dst: &mut Vec<u8>, c: char)
    ensures
        final(dst)@ == old(dst)@ + vstd::utf8::encode_scalar(c as u32),
{
    proof {
        vstd::utf8::char_is_scalar(c);
    }
    crate::raw::push_scalar_utf8(dst, c as u32);
}

/// Build the flag name `-c` for one bundled short option character.
fn flag_string(c: char) -> (r: String)
    ensures
        r@ == seq!['-', c],
{
    let mut bytes: Vec<u8> = Vec::new();
    bytes.push(0x2d);
    push_char_utf8(&mut bytes, c);
    proof {
        assert(0x2du32 & 0x7f == 0x2d) by (bit_vector);
        lemma_encode_utf8_one('-');
        assert(encode_utf8(seq!['-']) =~= seq![0x2du8]);
        lemma_encode_utf8_concat(seq!['-'], seq![c]);
        lemma_encode_utf8_one(c);
        assert(seq!['-'] + seq![c] =~= seq!['-', c]);
        assert(bytes@ =~= encode_utf8(seq!['-', c]));
    }
    string_from_utf8(bytes)
}

/// One `take_item` step on a bundle state: the emitted flag and the forced
/// next state, shared by the fresh and the in-flight variants.
fn short_step(first: char, more: String, tail: RawString) -> (r: (OwnedItem, Option<ArgState>))
    ensures
        r.0@ == ItemOsModel::Flag(seq!['-', first]),
        option_state_model(&r.1) == short_forced(first, more@, tail@),
{
    let flag = flag_string(first);
    let mlen = more.as_str().unicode_len();
    if mlen > 0 {
        let c = more.as_str().get_char(0);
        let rest_more = more.as_str().substring_char(1, mlen).to_owned();
        proof {
            assert(rest_more@ =~= more@.drop_first());
        }
        (OwnedItem::Flag(flag), Some(ArgState::ShortOptionsUsed(c, rest_more, tail)))
    } else if tail.len() > 0 {
        (OwnedItem::Flag(flag.clone()), Some(ArgState::RemainingParameter(flag, tail)))
    } else {
        (OwnedItem::Flag(flag), None)
    }
}

impl ArgState {
    /// Take a new argument into consideration, or `End` when the input is
    /// exhausted.
    pub fn from(raw_arg: Option<RawString>) -> (r: ArgState)
        ensures
            r@ == match raw_arg {
                Some(a) => classify(a@),
                None => StateModel::End,
            },
    {
        let s = match raw_arg {
            Some(a) => a,
            None => { return ArgState::End },
        };
        let ghost h = head_of(s@);
        let ghost t = tail_of(s@);
        let (head, tail) = split_valid(&s);
        let hlen = head.as_str().unicode_len();
        let has_tail = tail.len() > 0;
        if hlen == 1 && head.as_str().get_char(0) == '-' {
            if !has_tail {
                proof {
                    assert(h =~= seq!['-']);
                }
                return ArgState::Word(s);
            } else {
                proof {
                    assert(h =~= seq!['-']);
                }
                return ArgState::CannotDecode(s);
            }
        }
        if hlen == 2 && head.as_str().get_char(0) == '-' && head.as_str().get_char(1) == '-'
            && has_tail {
            proof {
                assert(h =~= seq!['-', '-']);
            }
            return ArgState::CannotDecode(s);
        }
        if hlen >= 2 && head.as_str().get_char(0) == '-' && head.as_str().get_char(1) == '-' {
            proof {
                assert(h != seq!['-']);
                if h == seq!['-', '-'] {
                    assert(!has_tail);
                }
            }
            let e = find_char(head.as_str(), '=');
            proof {
                lemma_find_char_from(h, '=', 0);
            }
            if e == hlen {
                if !has_tail {
                    return ArgState::LongOption(head, None);
                } else {
                    return ArgState::CannotDecode(s);
                }
            } else {
                let name = head.as_str().substring_char(0, e).to_owned();
                let value_str = head.as_str().substring_char(e + 1, hlen);
                let mut vbytes = value_str.as_bytes_vec();
                push_bytes(&mut vbytes, tail.as_bytes());
                let value = RawString::new(vbytes);
                proof {
                    assert(value@ == encode_utf8(h.subrange(e as int + 1, h.len() as int)) + t);
                }
                return ArgState::LongOption(name, Some(value));
            }
        }
        if hlen >= 2 && head.as_str().get_char(0) == '-' {
            proof {
                assert(h != seq!['-']);
                assert(h != seq!['-', '-'] || !has_tail);
                assert(!(h[1] == '-'));
            }
            let f = head.as_str().get_char(1);
            let more = head.as_str().substring_char(2, hlen).to_owned();
            return ArgState::ShortOptionsNew(f, more, tail);
        }
        proof {
            assert(h != seq!['-']);
            assert(!(h.len() >= 2 && h[0] == '-'));
        }
        ArgState::Word(s)
    }
}

/// The state machine inside the argument parser: the current state and the
/// raw arguments not yet looked at.
#[derive(Debug)]
pub struct Core {
    cur: ArgState,
    rest: Vec<RawString>,
}

impl Clone for Core {
    /// Duplicating an in-progress tokenizer, to probe it without
    /// committing, is cheap and loses nothing: the copy carries the same
    /// model.
    fn clone(&self) -> (r: Self)
        ensures
            r@ == self@,
    {
        let r = Core { cur: self.cur.clone(), rest: crate::raw::clone_raw_vec(&self.rest) };
        proof {
            assert(r@.rest =~= self@.rest);
        }
        r
    }
}

impl View for Core {
    type V = CoreModel;

    closed spec fn view(&self) -> CoreModel {
        CoreModel { cur: self.cur@, rest: self.rest@.map_values(|r: RawString| r@) }
    }
}

impl Core {
    /// Create a new state machine from a list of arguments.
    pub fn new(items: Vec<RawString>) -> (r: Core)
        ensures
            r@ == core_init(items@.map_values(|a: RawString| a@)),
    {
        let ghost args = items@.map_values(|a: RawString| a@);
        let mut rest = items;
        let first: Option<RawString> = if rest.len() > 0 {
            Some(rest.remove(0))
        } else {
            None
        };
        let cur = ArgState::from(first);
        let r = Core { cur, rest };
        proof {
            assert(r@.rest =~= core_init(args).rest);
            assert(r@.cur == core_init(args).cur);
        }
        r
    }

    /// Drop the current state and classify the next raw argument, moving
    /// the cursor forward.
    fn advance_cursor(&mut self)
        ensures
            final(self)@ == advanced(old(self)@),
    {
        let nxt: Option<RawString> = if self.rest.len() > 0 {
            Some(self.rest.remove(0))
        } else {
            None
        };
        self.cur = ArgState::from(nxt);
        proof {
            assert(self@.rest =~= advanced(old(self)@).rest);
            assert(self@.cur == advanced(old(self)@).cur);
        }
    }

    /// Take the next item out of the arguments: a flag or word token,
    /// `None` at the end of input, or the error the current state calls
    /// for. The machine always moves: an inline value left behind by the
    /// emitted flag (or the rest of a bundle) becomes the next state, and
    /// otherwise the next raw argument is classified.
    pub fn take_item(&mut self) -> (r: Result<Option<OwnedItem>, ArgError>)
        ensures
            item_result_model(&r) == step_result(old(self)@.cur),
            final(self)@ == step_core(old(self)@),
    {
        let mut cur = ArgState::End;
        std::mem::swap(&mut cur, &mut self.cur);
        let ghost cur0 = cur@;
        let mut override_next: Option<ArgState> = None;
        let result: Result<Option<OwnedItem>, ArgError> = match cur {
            ArgState::End => Ok(None),
            ArgState::Word(w) => Ok(Some(OwnedItem::Word(w))),
            ArgState::CannotDecode(s) => Err(ArgError::InvalidUnicode(s)),
            ArgState::LongOption(flag, param) => match param {
                Some(p) => {
                    override_next = Some(ArgState::RemainingParameter(flag.clone(), p));
                    Ok(Some(OwnedItem::Flag(flag)))
                },
                None => Ok(Some(OwnedItem::Flag(flag))),
            },
            ArgState::RemainingParameter(f, _) => Err(ArgError::UnexpectedParameter(f)),
            ArgState::ShortOptionsNew(first, more, tail) => {
                let (item, ov) = short_step(first, more, tail);
                override_next = ov;
                Ok(Some(item))
            },
            ArgState::ShortOptionsUsed(first, more, tail) => {
                let (item, ov) = short_step(first, more, tail);
                override_next = ov;
                Ok(Some(item))
            },
        };
        proof {
            assert(item_result_model(&result) == step_result(cur0));
            assert(option_state_model(&override_next) == step_forced(cur0));
        }
        match override_next {
            Some(st) => {
                self.cur = st;
                proof {
                    assert(self@ == step_core(old(self)@));
                }
            },
            None => {
                self.advance_cursor();
                proof {
                    assert(self@ == step_core(old(self)@));
                }
            },
        }
        result
    }

    /// If the most recent `take_item` left an inline value or the rest of a
    /// bundle behind, return it as the flag's parameter and move on;
    /// otherwise return `None` and leave the machine untouched.
    pub fn param(&mut self) -> (r: Option<RawString>)
        ensures
            option_raw_model(&r) == param_result(old(self)@.cur),
            final(self)@ == param_core(old(self)@),
    {
        let mut cur = ArgState::End;
        std::mem::swap(&mut cur, &mut self.cur);
        match cur {
            ArgState::RemainingParameter(_, p) => {
                self.advance_cursor();
                Some(p)
            },
            ArgState::ShortOptionsUsed(f, more, tail) => {
                let mut bytes: Vec<u8> = Vec::new();
                push_char_utf8(&mut bytes, f);
                let mb = more.as_str().as_bytes_vec();
                push_bytes(&mut bytes, &mb);
                push_bytes(&mut bytes, tail.as_bytes());
                proof {
                    lemma_encode_utf8_one(f);
                    lemma_encode_utf8_concat(seq![f], more@);
                    assert(bytes@ =~= encode_utf8(seq![f] + more@) + tail@);
                }
                self.advance_cursor();
                Some(RawString::new(bytes))
            },
            other => {
                self.cur = other;
                None
            },
        }
    }

    /// True when a parameter is attached to the most recently emitted flag:
    /// an unretrieved inline value, or a bundle in flight.
    pub fn param_ready(&self) -> (b: bool)
        ensures
            b == (self@.cur is Pending || self@.cur is ShortUsed),
    {
        matches!(self.cur, ArgState::RemainingParameter(_, _) | ArgState::ShortOptionsUsed(_, _, _))
    }

    /// True when the next call to `take_item` will emit a word.
    pub fn at_word(&self) -> (b: bool)
        ensures
            b == (self@.cur is Word),
    {
        matches!(self.cur, ArgState::Word(_))
    }
}

} // verus!
