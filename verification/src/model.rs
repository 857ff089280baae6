//! The mathematical model of the tokenizer.
//!
//! The executable state machine in [`crate::tokenizer`] is specified against the
//! functions here: [`classify`] says which state one fresh argument puts
//! the tokenizer in, [`step_result`] and [`step_core`] say what one call of
//! `take_item` emits and where it leaves the machine, and
//! [`param_result`] and [`param_core`] do the same for parameter
//! retrieval. The content lemmas at the end state the reconstruction law:
//! no byte of the input is ever silently dropped.

use vstd::prelude::*;
use vstd::utf8::encode_utf8;
use crate::argerror::ErrorModel;
use crate::item::ItemOsModel;
use crate::unix::head_of;
use crate::unix::tail_of;
use crate::unix::split_point;
use crate::unix::lemma_split_point_from;

verus! {

broadcast use vstd::utf8::group_utf8_lib;

/// The tokenizer's current state, at the specification level: the argument
/// under consideration, already classified. Exactly one such state is held
/// at any time.
pub enum StateModel {
    /// The current argument is `-`, or does not start with a dash at all.
    Word(Seq<u8>),
    /// A freshly split bundle of single-letter flags after one dash: first
    /// flag character, remaining flag characters, raw tail.
    ShortNew(char, Seq<char>, Seq<u8>),
    /// The same bundle after at least one flag has been emitted.
    ShortUsed(char, Seq<char>, Seq<u8>),
    /// A long option (`--flag[=value]`), dashes included, with its optional
    /// inline value.
    Long(Seq<char>, Option<Seq<u8>>),
    /// A flag has been emitted but its inline value remains unretrieved.
    Pending(Seq<char>, Seq<u8>),
    /// The argument has an undecodable sequence where the flag name should
    /// be.
    Bad(Seq<u8>),
    /// No more tokens remain.
    End,
}

/// First index at or after `i` where `c` occurs in `h`, or `h.len()` when
/// it does not occur.
pub open spec fn find_char_from(h: Seq<char>, c: char, i: int) -> int
    decreases h.len() - i,
    when 0 <= i <= h.len()
{
    if i >= h.len() {
        h.len() as int
    } else if h[i] == c {
        i
    } else {
        find_char_from(h, c, i + 1)
    }
}

/// What [`find_char_from`] returns really is the first occurrence.
pub proof fn lemma_find_char_from(h: Seq<char>, c: char, i: int)
    requires
        0 <= i <= h.len(),
    ensures
        i <= find_char_from(h, c, i) <= h.len(),
        find_char_from(h, c, i) < h.len() ==> h[find_char_from(h, c, i)] == c,
        forall|j: int| i <= j < find_char_from(h, c, i) ==> h[j] != c,
    decreases h.len() - i,
{
    if i >= h.len() {
    } else if h[i] == c {
    } else {
        lemma_find_char_from(h, c, i + 1);
    }
}

/// Classification of one fresh raw argument into the next state, exactly as
/// the design prescribes: `-` alone is a word; a dash head with an
/// undecodable remainder cannot be decoded; `--name[=value]` is a long
/// option whose name must be fully decodable and whose value, split at the
/// first `=`, keeps any undecodable tail; `-abc` is a bundle of short
/// flags; everything else is a word.
pub open spec fn classify(s: Seq<u8>) -> StateModel {
    let h = head_of(s);
    let t = tail_of(s);
    if h == seq!['-'] && t.len() == 0 {
        StateModel::Word(s)
    } else if (h == seq!['-'] || h == seq!['-', '-']) && t.len() > 0 {
        StateModel::Bad(s)
    } else if h.len() >= 2 && h[0] == '-' && h[1] == '-' {
        let e = find_char_from(h, '=', 0);
        if e == h.len() {
            if t.len() == 0 {
                StateModel::Long(h, None)
            } else {
                StateModel::Bad(s)
            }
        } else {
            StateModel::Long(
                h.subrange(0, e),
                Some(encode_utf8(h.subrange(e + 1, h.len() as int)) + t),
            )
        }
    } else if h.len() >= 2 && h[0] == '-' {
        StateModel::ShortNew(h[1], h.subrange(2, h.len() as int), t)
    } else {
        StateModel::Word(s)
    }
}

/// The state after taking one argument from the remaining input, `End` when
/// the input is exhausted.
pub open spec fn classify_next(rest: Seq<Seq<u8>>) -> StateModel {
    if rest.len() == 0 {
        StateModel::End
    } else {
        classify(rest[0])
    }
}

/// What one `take_item` step on state `st` hands out: a token, the end of
/// input, or an error.
pub open spec fn step_result(st: StateModel) -> Result<Option<ItemOsModel>, ErrorModel> {
    match st {
        StateModel::End => Ok(None),
        StateModel::Word(w) => Ok(Some(ItemOsModel::Word(w))),
        StateModel::Bad(s) => Err(ErrorModel::InvalidUnicode(s)),
        StateModel::Long(n, _) => Ok(Some(ItemOsModel::Flag(n))),
        StateModel::Pending(n, _) => Err(ErrorModel::UnexpectedParameter(n)),
        StateModel::ShortNew(f, _, _) => Ok(Some(ItemOsModel::Flag(seq!['-', f]))),
        StateModel::ShortUsed(f, _, _) => Ok(Some(ItemOsModel::Flag(seq!['-', f]))),
    }
}

/// Where a `take_item` step on a short-option bundle leaves the machine
/// without advancing the argument cursor, if anywhere.
pub open spec fn short_forced(f: char, m: Seq<char>, t: Seq<u8>) -> Option<StateModel> {
    if m.len() > 0 {
        Some(StateModel::ShortUsed(m[0], m.drop_first(), t))
    } else if t.len() > 0 {
        Some(StateModel::Pending(seq!['-', f], t))
    } else {
        None
    }
}

/// Where a `take_item` step leaves the machine without advancing the
/// argument cursor; `None` when the cursor advances instead.
pub open spec fn step_forced(st: StateModel) -> Option<StateModel> {
    match st {
        StateModel::Long(n, Some(v)) => Some(StateModel::Pending(n, v)),
        StateModel::ShortNew(f, m, t) => short_forced(f, m, t),
        StateModel::ShortUsed(f, m, t) => short_forced(f, m, t),
        _ => None,
    }
}

/// The whole tokenizer at the specification level: the current state and
/// the raw arguments not yet looked at.
pub struct CoreModel {
    pub cur: StateModel,
    pub rest: Seq<Seq<u8>>,
}

/// The machine freshly built from an argument list.
pub open spec fn core_init(args: Seq<Seq<u8>>) -> CoreModel {
    CoreModel {
        cur: classify_next(args),
        rest: if args.len() == 0 {
            args
        } else {
            args.drop_first()
        },
    }
}

/// The machine after the argument cursor advances by one.
pub open spec fn advanced(m: CoreModel) -> CoreModel {
    CoreModel {
        cur: classify_next(m.rest),
        rest: if m.rest.len() == 0 {
            m.rest
        } else {
            m.rest.drop_first()
        },
    }
}

/// The machine after one `take_item` step.
pub open spec fn step_core(m: CoreModel) -> CoreModel {
    match step_forced(m.cur) {
        Some(st) => CoreModel { cur: st, rest: m.rest },
        None => advanced(m),
    }
}

/// What parameter retrieval returns on state `st`: the pending inline
/// value, or the rest of a bundle in flight together with its raw tail, or
/// nothing.
pub open spec fn param_result(st: StateModel) -> Option<Seq<u8>> {
    match st {
        StateModel::Pending(_, v) => Some(v),
        StateModel::ShortUsed(f, m, t) => Some(encode_utf8(seq![f] + m) + t),
        _ => None,
    }
}

/// The machine after one parameter retrieval: it advances exactly when a
/// parameter was there to take, and is untouched otherwise.
pub open spec fn param_core(m: CoreModel) -> CoreModel {
    if param_result(m.cur) is Some {
        advanced(m)
    } else {
        m
    }
}

/// The bytes a state still holds: what reconstructs the unconsumed part of
/// the argument under consideration.
pub open spec fn state_content(st: StateModel) -> Seq<u8> {
    match st {
        StateModel::Word(w) => w,
        StateModel::ShortNew(f, m, t) => encode_utf8(seq!['-', f] + m) + t,
        StateModel::ShortUsed(f, m, t) => encode_utf8(seq![f] + m) + t,
        StateModel::Long(n, None) => encode_utf8(n),
        StateModel::Long(n, Some(v)) => encode_utf8(n.push('=')) + v,
        StateModel::Pending(_, v) => v,
        StateModel::Bad(s) => s,
        StateModel::End => Seq::empty(),
    }
}

/// The bytes one `take_item` step from `st` accounts for: carried by the
/// emitted token, carried by the error (an undecodable argument travels
/// inside `InvalidUnicode`), or — for an inline value that was never
/// retrieved — abandoned together with the `UnexpectedParameter` error that
/// reports it.
pub open spec fn step_content(st: StateModel) -> Seq<u8> {
    match st {
        StateModel::Word(w) => w,
        StateModel::ShortNew(f, _, _) => encode_utf8(seq!['-', f]),
        StateModel::ShortUsed(f, _, _) => encode_utf8(seq![f]),
        StateModel::Long(n, None) => encode_utf8(n),
        StateModel::Long(n, Some(_)) => encode_utf8(n.push('=')),
        StateModel::Pending(_, v) => v,
        StateModel::Bad(s) => s,
        StateModel::End => Seq::empty(),
    }
}

/// Every byte the whole machine still holds: the current state's content
/// followed by the untouched arguments.
pub open spec fn core_content(m: CoreModel) -> Seq<u8> {
    state_content(m.cur) + m.rest.flatten()
}

/// Encoding characters distributes over concatenation.
pub proof fn lemma_encode_utf8_concat(a: Seq<char>, b: Seq<char>)
    ensures
        encode_utf8(a + b) == encode_utf8(a) + encode_utf8(b),
    decreases a.len(),
{
    if a.len() == 0 {
        assert(a + b =~= b);
        assert(encode_utf8(a) + encode_utf8(b) =~= encode_utf8(b));
    } else {
        assert((a + b).drop_first() =~= a.drop_first() + b);
        assert((a + b)[0] == a[0]);
        lemma_encode_utf8_concat(a.drop_first(), b);
        assert(encode_utf8(a + b) =~= encode_utf8(a) + encode_utf8(b));
    }
}

/// A single character encodes to its scalar encoding.
pub proof fn lemma_encode_utf8_one(c: char)
    ensures
        encode_utf8(seq![c]) == vstd::utf8::encode_scalar(c as u32),
{
    assert(seq![c].len() == 1);
    assert(seq![c][0] == c);
    assert(seq![c].drop_first() =~= Seq::<char>::empty());
    assert(encode_utf8(seq![c].drop_first()) == Seq::<u8>::empty());
    assert(encode_utf8(seq![c]) == vstd::utf8::encode_scalar(c as u32) + encode_utf8(
        seq![c].drop_first(),
    ));
    assert(encode_utf8(seq![c]) =~= vstd::utf8::encode_scalar(c as u32));
}

/// Classification loses nothing: the state built from a fresh argument
/// still holds exactly that argument's bytes.
pub proof fn lemma_classify_content(s: Seq<u8>)
    ensures
        state_content(classify(s)) == s,
{
    let h = head_of(s);
    let t = tail_of(s);
    assert(s.subrange(0, 0) =~= Seq::<u8>::empty());
    lemma_split_point_from(s, 0);
    let p = split_point(s);
    let hb = s.subrange(0, p);
    assert(encode_utf8(h) == hb);
    assert(hb + t =~= s);
    if h == seq!['-'] && t.len() == 0 {
    } else if (h == seq!['-'] || h == seq!['-', '-']) && t.len() > 0 {
    } else if h.len() >= 2 && h[0] == '-' && h[1] == '-' {
        let e = find_char_from(h, '=', 0);
        lemma_find_char_from(h, '=', 0);
        if e == h.len() {
            if t.len() == 0 {
                assert(encode_utf8(h) + t =~= encode_utf8(h));
            }
        } else {
            let name = h.subrange(0, e);
            let after = h.subrange(e + 1, h.len() as int);
            assert(h[e] == '=');
            assert(name.push('=') =~= h.subrange(0, e + 1));
            assert(h =~= h.subrange(0, e + 1) + after);
            lemma_encode_utf8_concat(h.subrange(0, e + 1), after);
            assert(state_content(classify(s)) =~= s);
        }
    } else if h.len() >= 2 && h[0] == '-' {
        assert(seq!['-', h[1]] + h.subrange(2, h.len() as int) =~= h);
        assert(state_content(classify(s)) =~= s);
    }
}

/// One `take_item` step conserves content: what the step accounts for plus
/// what the machine still holds is exactly what it held before.
pub proof fn lemma_step_content(m: CoreModel)
    ensures
        step_content(m.cur) + core_content(step_core(m)) == core_content(m),
{
    lemma_advanced_content(m);
    match m.cur {
        StateModel::Word(_) => {
            assert(step_content(m.cur) + core_content(step_core(m)) =~= core_content(m));
        },
        StateModel::Bad(_) => {
            assert(step_content(m.cur) + core_content(step_core(m)) =~= core_content(m));
        },
        StateModel::Pending(_, _) => {
            assert(step_content(m.cur) + core_content(step_core(m)) =~= core_content(m));
        },
        StateModel::End => {
            assert(step_content(m.cur) + core_content(step_core(m)) =~= core_content(m));
        },
        StateModel::Long(n, p) => {
            match p {
                None => {
                    assert(step_content(m.cur) + core_content(step_core(m)) =~= core_content(m));
                },
                Some(v) => {
                    assert(step_core(m) == CoreModel {
                        cur: StateModel::Pending(n, v),
                        rest: m.rest,
                    });
                    assert(step_content(m.cur) + core_content(step_core(m)) =~= core_content(m));
                },
            }
        },
        StateModel::ShortNew(f, mm, t) => {
            lemma_short_step_content(m, f, mm, t, true);
        },
        StateModel::ShortUsed(f, mm, t) => {
            lemma_short_step_content(m, f, mm, t, false);
        },
    }
}

/// Content conservation for the two bundle states.
proof fn lemma_short_step_content(m: CoreModel, f: char, mm: Seq<char>, t: Seq<u8>, fresh: bool)
    requires
        m.cur == if fresh {
            StateModel::ShortNew(f, mm, t)
        } else {
            StateModel::ShortUsed(f, mm, t)
        },
    ensures
        step_content(m.cur) + core_content(step_core(m)) == core_content(m),
{
    lemma_advanced_content(m);
    let head: Seq<char> = if fresh {
        seq!['-', f]
    } else {
        seq![f]
    };
    assert(state_content(m.cur) == encode_utf8(head + mm) + t);
    lemma_encode_utf8_concat(head, mm);
    if mm.len() > 0 {
        assert(step_core(m) == CoreModel {
            cur: StateModel::ShortUsed(mm[0], mm.drop_first(), t),
            rest: m.rest,
        });
        assert(seq![mm[0]] + mm.drop_first() =~= mm);
        assert(step_content(m.cur) + core_content(step_core(m)) =~= core_content(m));
    } else if t.len() > 0 {
        assert(step_core(m) == CoreModel {
            cur: StateModel::Pending(seq!['-', f], t),
            rest: m.rest,
        });
        assert(encode_utf8(head + mm) =~= encode_utf8(head));
        assert(step_content(m.cur) + core_content(step_core(m)) =~= core_content(m));
    } else {
        assert(encode_utf8(head + mm) =~= encode_utf8(head));
        assert(t =~= Seq::<u8>::empty());
        assert(step_content(m.cur) + core_content(step_core(m)) =~= core_content(m));
    }
}

/// Advancing the cursor turns the next untouched argument into the current
/// state without losing bytes.
pub proof fn lemma_advanced_content(m: CoreModel)
    ensures
        core_content(advanced(m)) == m.rest.flatten(),
{
    if m.rest.len() == 0 {
        assert(m.rest.flatten() =~= Seq::<u8>::empty());
        assert(core_content(advanced(m)) =~= m.rest.flatten());
    } else {
        lemma_classify_content(m.rest[0]);
        assert(m.rest.flatten() == m.rest[0] + m.rest.drop_first().flatten()) by {
            lemma_flatten_first(m.rest);
        }
        assert(core_content(advanced(m)) =~= m.rest.flatten());
    }
}

/// Flattening a non-empty sequence of sequences starts with its first
/// element.
proof fn lemma_flatten_first(r: Seq<Seq<u8>>)
    requires
        r.len() > 0,
    ensures
        r.flatten() == r[0] + r.drop_first().flatten(),
{
    assert(r.flatten() == r.first() + r.drop_first().flatten());
}

/// Parameter retrieval conserves content: the returned value plus what the
/// machine still holds is exactly what it held before.
pub proof fn lemma_param_content(m: CoreModel)
    ensures
        (match param_result(m.cur) {
            Some(v) => v,
            None => Seq::<u8>::empty(),
        }) + core_content(param_core(m)) == core_content(m),
{
    lemma_advanced_content(m);
    match m.cur {
        StateModel::Pending(_, v) => {
            assert((match param_result(m.cur) {
                Some(v2) => v2,
                None => Seq::<u8>::empty(),
            }) + core_content(param_core(m)) =~= core_content(m));
        },
        StateModel::ShortUsed(_, _, _) => {
            assert((match param_result(m.cur) {
                Some(v2) => v2,
                None => Seq::<u8>::empty(),
            }) + core_content(param_core(m)) =~= core_content(m));
        },
        _ => {
            assert((match param_result(m.cur) {
                Some(v2) => v2,
                None => Seq::<u8>::empty(),
            }) + core_content(param_core(m)) =~= core_content(m));
        },
    }
}

/// A freshly built machine holds exactly the bytes of its argument list.
pub proof fn lemma_init_content(args: Seq<Seq<u8>>)
    ensures
        core_content(core_init(args)) == args.flatten(),
{
    if args.len() == 0 {
        assert(args.flatten() =~= Seq::<u8>::empty());
        assert(core_content(core_init(args)) =~= args.flatten());
    } else {
        lemma_classify_content(args[0]);
        lemma_flatten_first(args);
        assert(core_content(core_init(args)) =~= args.flatten());
    }
}

/// An undecodable argument is reported, carrying the original raw value
/// inside the error, and the machine still moves past it to the next
/// argument.
pub proof fn lemma_bad_argument_reported(m: CoreModel, s: Seq<u8>)
    requires
        m.cur == StateModel::Bad(s),
    ensures
        step_result(m.cur) == Err::<Option<ItemOsModel>, ErrorModel>(ErrorModel::InvalidUnicode(s)),
        step_core(m) == advanced(m),
{
}

} // verus!
