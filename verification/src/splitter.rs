//! The front end for parsing command line arguments.
//!
//! [`ArgSplitter`] drives the tokenizer in [`crate::tokenizer`], remembers
//! the most recently emitted flag so its parameter can be retrieved, and
//! keeps a FIFO stash of the words encountered while scanning for flags
//! only.

use vstd::prelude::*;
use vstd::utf8::valid_utf8;
use vstd::utf8::decode_utf8;
use crate::argerror::ArgError;
use crate::argerror::ErrorModel;
use crate::item::Item;
use crate::item::ItemModel;
use crate::item::ItemOs;
use crate::item::ItemOsModel;
use crate::item::OwnedItem;
use crate::model::CoreModel;
use crate::model::StateModel;
use crate::model::core_init;
use crate::model::param_core;
use crate::model::param_result;
use crate::model::step_core;
use crate::model::step_result;
use crate::raw::RawString;
use crate::raw::string_from_utf8;
use crate::tokenizer::Core;
use crate::unix::utf8_valid;

verus! {

/// The facade at the specification level: the program name, the tokenizer,
/// the most recently emitted flag, and the stash of set-aside words.
pub struct SplitterModel {
    pub argv0: Option<Seq<u8>>,
    pub core: CoreModel,
    pub last_flag: Option<Seq<char>>,
    pub stash: Seq<Seq<u8>>,
}

/// The facade after one `item_os` step: the tokenizer steps, and the last
/// emitted flag is remembered exactly when the step emitted one.
pub open spec fn after_item_os(m: SplitterModel) -> SplitterModel {
    SplitterModel {
        argv0: m.argv0,
        core: step_core(m.core),
        last_flag: match step_result(m.core.cur) {
            Ok(Some(ItemOsModel::Flag(f))) => Some(f),
            _ => None,
        },
        stash: m.stash,
    }
}

/// What `param_os` returns: an attached parameter if one is pending, else
/// the following word, else `ParameterMissing` naming the last flag.
pub open spec fn param_os_result(m: SplitterModel) -> Result<Seq<u8>, ErrorModel> {
    match param_result(m.core.cur) {
        Some(v) => Ok(v),
        None => match m.core.cur {
            StateModel::Word(w) => Ok(w),
            _ => match m.last_flag {
                Some(f) => Err(ErrorModel::ParameterMissing(f)),
                None => Err(ErrorModel::ParameterMissing(Seq::empty())),
            },
        },
    }
}

/// The facade after one `param_os` step.
pub open spec fn after_param_os(m: SplitterModel) -> SplitterModel {
    if param_result(m.core.cur) is Some {
        SplitterModel { core: param_core(m.core), ..m }
    } else if m.core.cur is Word {
        SplitterModel { core: step_core(m.core), ..m }
    } else {
        m
    }
}

/// Decoding a raw result: a valid payload becomes text, an invalid one
/// becomes `InvalidUnicode` carrying the raw bytes.
pub open spec fn force_str_result(r: Result<Seq<u8>, ErrorModel>) -> Result<Seq<char>, ErrorModel> {
    match r {
        Ok(v) => if valid_utf8(v) {
            Ok(decode_utf8(v))
        } else {
            Err(ErrorModel::InvalidUnicode(v))
        },
        Err(e) => Err(e),
    }
}

/// Decoding an `item_os` result into an `item` result: flags are already
/// text, a word must decode, errors pass through.
pub open spec fn force_item_result(r: Result<Option<ItemOsModel>, ErrorModel>) -> Result<
    Option<ItemModel>,
    ErrorModel,
> {
    match r {
        Ok(Some(ItemOsModel::Word(w))) => if valid_utf8(w) {
            Ok(Some(ItemModel::Word(decode_utf8(w))))
        } else {
            Err(ErrorModel::InvalidUnicode(w))
        },
        Ok(Some(ItemOsModel::Flag(f))) => Ok(Some(ItemModel::Flag(f))),
        Ok(None) => Ok(None),
        Err(e) => Err(e),
    }
}

/// Ordering measure for the flag-only scan: a word step keeps the cursor
/// still only long enough to stash the word.
pub open spec fn scan_rank(st: StateModel) -> int {
    if st is Word {
        1
    } else {
        0
    }
}

/// The flag-only scan, unrolled at the specification level: words are
/// stashed and the scan continues; a flag, the end of input, or an error
/// stops it. Returns the result, the tokenizer afterwards, and the stash
/// afterwards.
pub open spec fn scan(core: CoreModel, stash: Seq<Seq<u8>>) -> (Result<
    Option<Seq<char>>,
    ErrorModel,
>, CoreModel, Seq<Seq<u8>>)
    decreases core.rest.len(), scan_rank(core.cur),
{
    match core.cur {
        StateModel::Word(w) => scan(step_core(core), stash.push(w)),
        StateModel::End => (Ok(None), step_core(core), stash),
        StateModel::Bad(s) => (Err(ErrorModel::InvalidUnicode(s)), step_core(core), stash),
        StateModel::Pending(n, _) => (Err(ErrorModel::UnexpectedParameter(n)), step_core(core), stash),
        StateModel::Long(n, _) => (Ok(Some(n)), step_core(core), stash),
        StateModel::ShortNew(f, _, _) => (Ok(Some(seq!['-', f])), step_core(core), stash),
        StateModel::ShortUsed(f, _, _) => (Ok(Some(seq!['-', f])), step_core(core), stash),
    }
}

/// The bytes the stopping step of a flag-only scan accounts for: the words
/// passed over on the way are stashed, not emitted, so they do not appear
/// here.
pub open spec fn scan_emitted(core: CoreModel) -> Seq<u8>
    decreases core.rest.len(), scan_rank(core.cur),
{
    match core.cur {
        StateModel::Word(_) => scan_emitted(step_core(core)),
        _ => crate::model::step_content(core.cur),
    }
}

/// The flag-only scan conserves content: the stash afterwards, the bytes
/// its stopping step accounts for, and what the tokenizer still holds are
/// together exactly the stash and tokenizer content from before the scan.
/// No word set aside on the way is lost.
pub proof fn lemma_scan_content(core: CoreModel, stash: Seq<Seq<u8>>)
    ensures
        ({
            let (res, c2, st2) = scan(core, stash);
            st2.flatten() + scan_emitted(core) + crate::model::core_content(c2)
                == stash.flatten() + crate::model::core_content(core)
        }),
    decreases core.rest.len(), scan_rank(core.cur),
{
    let (res, c2, st2) = scan(core, stash);
    match core.cur {
        StateModel::Word(w) => {
            crate::model::lemma_step_content(core);
            stash.lemma_flatten_push(w);
            lemma_scan_content(step_core(core), stash.push(w));
            assert(st2.flatten() + scan_emitted(core) + crate::model::core_content(c2)
                =~= stash.flatten() + crate::model::core_content(core));
        },
        _ => {
            crate::model::lemma_step_content(core);
            assert(st2.flatten() + scan_emitted(core) + crate::model::core_content(c2)
                =~= stash.flatten() + crate::model::core_content(core));
        },
    }
}

/// The facade with the oldest stashed word removed.
pub open spec fn stash_popped(m: SplitterModel) -> SplitterModel {
    SplitterModel { stash: m.stash.drop_first(), ..m }
}

/// First index in the stash holding bytes that are not valid UTF-8, or the
/// stash length when every entry decodes.
pub open spec fn first_bad_from(s: Seq<Seq<u8>>, i: int) -> int
    decreases s.len() - i,
    when 0 <= i <= s.len()
{
    if i >= s.len() {
        i
    } else if !valid_utf8(s[i]) {
        i
    } else {
        first_bad_from(s, i + 1)
    }
}

/// The model of an exec `item_os` result.
pub open spec fn item_os_result_model(r: &Result<Option<ItemOs>, ArgError>) -> Result<
    Option<ItemOsModel>,
    ErrorModel,
> {
    match r {
        Ok(Some(i)) => Ok(Some(i@)),
        Ok(None) => Ok(None),
        Err(e) => Err(e@),
    }
}

/// The model of an exec `item` result.
pub open spec fn item_result_model(r: &Result<Option<Item>, ArgError>) -> Result<
    Option<ItemModel>,
    ErrorModel,
> {
    match r {
        Ok(Some(i)) => Ok(Some(i@)),
        Ok(None) => Ok(None),
        Err(e) => Err(e@),
    }
}

/// The model of an exec `flag` result.
pub open spec fn flag_result_model(r: &Result<Option<String>, ArgError>) -> Result<
    Option<Seq<char>>,
    ErrorModel,
> {
    match r {
        Ok(Some(f)) => Ok(Some(f@)),
        Ok(None) => Ok(None),
        Err(e) => Err(e@),
    }
}

/// The model of an exec raw-string result.
pub open spec fn raw_result_model(r: &Result<RawString, ArgError>) -> Result<Seq<u8>, ErrorModel> {
    match r {
        Ok(v) => Ok(v@),
        Err(e) => Err(e@),
    }
}

/// The model of an exec text result.
pub open spec fn string_result_model(r: &Result<String, ArgError>) -> Result<Seq<char>, ErrorModel> {
    match r {
        Ok(v) => Ok(v@),
        Err(e) => Err(e@),
    }
}

/// Use this type to parse your command line arguments.
#[derive(Debug)]
pub struct ArgSplitter {
    argv0: Option<RawString>,
    core: Core,
    last_flag: Option<String>,
    stashed_args: Vec<RawString>,
}

impl Clone for ArgSplitter {
    /// Duplicating the splitter, to try an operation non-destructively and
    /// discard the copy, is cheap and loses nothing: the copy carries the
    /// same model.
    fn clone(&self) -> (r: Self)
        ensures
            r@ == self@,
    {
        let r = ArgSplitter {
            argv0: match &self.argv0 {
                Some(a) => Some(a.clone()),
                None => None,
            },
            core: self.core.clone(),
            last_flag: match &self.last_flag {
                Some(f) => Some(f.clone()),
                None => None,
            },
            stashed_args: crate::raw::clone_raw_vec(&self.stashed_args),
        };
        proof {
            assert(r@.stash =~= self@.stash);
        }
        r
    }
}

impl View for ArgSplitter {
    type V = SplitterModel;

    closed spec fn view(&self) -> SplitterModel {
        SplitterModel {
            argv0: match self.argv0 {
                Some(ref a) => Some(a@),
                None => None,
            },
            core: self.core@,
            last_flag: match self.last_flag {
                Some(ref f) => Some(f@),
                None => None,
            },
            stash: self.stashed_args@.map_values(|r: RawString| r@),
        }
    }
}

impl ArgSplitter {
    /// Create an [`ArgSplitter`] from the given argument list. The first
    /// argument is taken as the program name, available through
    /// [`ArgSplitter::argv0`]; the rest are arguments.
    pub fn from(argv: Vec<RawString>) -> (r: ArgSplitter)
        ensures
            ({
                let a = argv@.map_values(|s: RawString| s@);
                &&& r@.argv0 == if a.len() > 0 {
                    Some(a[0])
                } else {
                    None::<Seq<u8>>
                }
                &&& r@.core == core_init(
                    if a.len() == 0 {
                        a
                    } else {
                        a.drop_first()
                    },
                )
                &&& r@.last_flag is None
                &&& r@.stash == Seq::<Seq<u8>>::empty()
            }),
    {
        let ghost a = argv@.map_values(|s: RawString| s@);
        let mut args = argv;
        let argv0: Option<RawString> = if args.len() > 0 {
            Some(args.remove(0))
        } else {
            None
        };
        proof {
            assert(args@.map_values(|s: RawString| s@) =~= if a.len() == 0 {
                a
            } else {
                a.drop_first()
            });
        }
        let core = Core::new(args);
        let r = ArgSplitter { argv0, core, last_flag: None, stashed_args: Vec::new() };
        proof {
            assert(r@.stash =~= Seq::<Seq<u8>>::empty());
        }
        r
    }

    /// The very first entry of the argument list, generally the program
    /// name. Set by the parent process; it can be absent or plain wrong.
    pub fn argv0(&self) -> (r: Option<&RawString>)
        ensures
            match r {
                Some(a) => self@.argv0 == Some(a@),
                None => self@.argv0 is None,
            },
    {
        self.argv0.as_ref()
    }

    /// Retrieve the next item on the command line as an [`ItemOs`].
    /// Bundles such as `-xvf` are split into separate items `-x`, `-v` and
    /// `-f`. Words keep their raw bytes, so every file name can be
    /// represented; use [`ArgSplitter::item`] to insist on valid text.
    pub fn item_os(&mut self) -> (r: Result<Option<ItemOs>, ArgError>)
        ensures
            item_os_result_model(&r) == step_result(old(self)@.core.cur),
            final(self)@ == after_item_os(old(self)@),
    {
        self.last_flag = None;
        let it = self.core.take_item();
        let owned = match it {
            Ok(Some(i)) => i,
            Ok(None) => {
                return Ok(None);
            },
            Err(e) => {
                return Err(e);
            },
        };
        match owned {
            OwnedItem::Flag(s) => {
                self.last_flag = Some(s.clone());
                Ok(Some(ItemOs::Flag(s)))
            },
            OwnedItem::Word(w) => Ok(Some(ItemOs::Word(w))),
        }
    }

    /// Retrieve the next item on the command line as an [`Item`]. Bundles
    /// such as `-xvf` are split into separate items. Words must decode as
    /// valid Unicode; an undecodable word gives
    /// [`ArgError::InvalidUnicode`]. Use [`ArgSplitter::item_os`] to also
    /// accept badly encoded arguments.
    pub fn item(&mut self) -> (r: Result<Option<Item>, ArgError>)
        ensures
            item_result_model(&r) == force_item_result(step_result(old(self)@.core.cur)),
            final(self)@ == after_item_os(old(self)@),
    {
        let it = self.item_os();
        match it {
            Ok(Some(ItemOs::Word(w))) => {
                if utf8_valid(&w) {
                    Ok(Some(Item::Word(string_from_utf8(w.into_bytes()))))
                } else {
                    Err(ArgError::InvalidUnicode(w))
                }
            },
            Ok(Some(ItemOs::Flag(f))) => Ok(Some(Item::Flag(f))),
            Ok(None) => Ok(None),
            Err(e) => Err(e),
        }
    }

    /// True if and only if the parser is currently positioned at a word:
    /// not in the middle of a bundle and not between a long option and its
    /// attached parameter.
    pub fn at_word(&self) -> (b: bool)
        ensures
            b == (self@.core.cur is Word),
    {
        self.core.at_word()
    }

    /// True if and only if the most recently returned item was a flag with
    /// a parameter attached: `--file=data.csv` but not `--file data.csv`,
    /// and `-fdata.csv` but not `-f data.csv`.
    pub fn has_param_attached(&self) -> (b: bool)
        ensures
            b == (self@.core.cur is Pending || self@.core.cur is ShortUsed),
    {
        self.core.param_ready()
    }

    /// If the most recently returned item was a flag, return its parameter
    /// as a [`RawString`]: the attached parameter if there is one,
    /// otherwise the following word, otherwise
    /// [`ArgError::ParameterMissing`]. Calling this when the last item was
    /// not a flag is a caller error, which the precondition excludes.
    pub fn param_os(&mut self) -> (r: Result<RawString, ArgError>)
        requires
            old(self)@.last_flag is Some,
        ensures
            raw_result_model(&r) == param_os_result(old(self)@),
            final(self)@ == after_param_os(old(self)@),
    {
        if self.core.param_ready() {
            let p = self.core.param();
            Ok(p.unwrap())
        } else if self.core.at_word() {
            let it = self.core.take_item();
            match it {
                Ok(Some(OwnedItem::Word(w))) => Ok(w),
                _ => {
                    proof {
                        assert(false);
                    }
                    Err(ArgError::ExitSuccessfully)
                },
            }
        } else {
            let f = self.last_flag.as_ref().unwrap().clone();
            Err(ArgError::ParameterMissing(f))
        }
    }

    /// If the most recently returned item was a flag, return its parameter
    /// as a `String`, like [`ArgSplitter::param_os`] but insisting that the
    /// parameter decodes as valid Unicode.
    pub fn param(&mut self) -> (r: Result<String, ArgError>)
        requires
            old(self)@.last_flag is Some,
        ensures
            string_result_model(&r) == force_str_result(param_os_result(old(self)@)),
            final(self)@ == after_param_os(old(self)@),
    {
        let p = self.param_os();
        match p {
            Ok(v) => {
                if utf8_valid(&v) {
                    Ok(string_from_utf8(v.into_bytes()))
                } else {
                    Err(ArgError::InvalidUnicode(v))
                }
            },
            Err(e) => Err(e),
        }
    }

    /// Like [`ArgSplitter::item_os`] but only returns flags: every word
    /// encountered is appended to the stash, from which it can be
    /// retrieved later, and the scan only stops at a flag, at the end of
    /// the input, or on an error.
    pub fn flag(&mut self) -> (r: Result<Option<String>, ArgError>)
        ensures
            ({
                let (res, c2, st2) = scan(old(self)@.core, old(self)@.stash);
                &&& flag_result_model(&r) == res
                &&& final(self)@.core == c2
                &&& final(self)@.stash == st2
                &&& final(self)@.argv0 == old(self)@.argv0
                &&& final(self)@.last_flag == match res {
                    Ok(Some(f)) => Some(f),
                    _ => None::<Seq<char>>,
                }
            }),
    {
        loop
            invariant
                scan(self@.core, self@.stash) == scan(old(self)@.core, old(self)@.stash),
                self@.argv0 == old(self)@.argv0,
            decreases self@.core.rest.len(), scan_rank(self@.core.cur),
        {
            let ghost pre = self@;
            let it = self.item_os();
            match it {
                Ok(None) => {
                    proof {
                        assert(pre.core.cur is End);
                    }
                    return Ok(None);
                },
                Ok(Some(ItemOs::Flag(f))) => {
                    proof {
                        assert(pre.core.cur is Long || pre.core.cur is ShortNew
                            || pre.core.cur is ShortUsed);
                    }
                    return Ok(Some(f));
                },
                Ok(Some(ItemOs::Word(w))) => {
                    proof {
                        assert(pre.core.cur == StateModel::Word(w@));
                    }
                    self.stashed_args.push(w);
                    proof {
                        assert(self@.stash =~= pre.stash.push(w@));
                        assert(scan(self@.core, self@.stash) == scan(pre.core, pre.stash));
                    }
                },
                Err(e) => {
                    proof {
                        assert(pre.core.cur is Bad || pre.core.cur is Pending);
                    }
                    return Err(e);
                },
            }
        }
    }

    /// Remove and return the oldest stashed word, if any.
    fn take_stashed(&mut self) -> (r: Option<RawString>)
        ensures
            old(self)@.stash.len() == 0 ==> r is None && final(self)@ == old(self)@,
            old(self)@.stash.len() > 0 ==> (match r {
                Some(v) => v@ == old(self)@.stash[0],
                None => false,
            }) && final(self)@ == stash_popped(old(self)@),
    {
        if self.stashed_args.len() == 0 {
            None
        } else {
            let w = self.stashed_args.remove(0);
            proof {
                assert(self@.stash =~= stash_popped(old(self)@).stash);
            }
            Some(w)
        }
    }

    /// Return the oldest word set aside by [`ArgSplitter::flag`], as a
    /// [`RawString`], or [`ArgError::ArgumentMissing`] carrying `desc`
    /// when none is stashed.
    pub fn stashed_os(&mut self, desc: &str) -> (r: Result<RawString, ArgError>)
        ensures
            old(self)@.stash.len() > 0 ==> (match r {
                Ok(v) => v@ == old(self)@.stash[0],
                Err(_) => false,
            }) && final(self)@ == stash_popped(old(self)@),
            old(self)@.stash.len() == 0 ==> (match r {
                Ok(_) => false,
                Err(e) => e@ == ErrorModel::ArgumentMissing(desc@),
            }) && final(self)@ == old(self)@,
    {
        let w = self.take_stashed();
        match w {
            Some(v) => Ok(v),
            None => Err(ArgError::ArgumentMissing(desc.to_owned())),
        }
    }

    /// Return the oldest word set aside by [`ArgSplitter::flag`], as a
    /// `String`: like [`ArgSplitter::stashed_os`], but an undecodable word
    /// is consumed and reported as [`ArgError::InvalidUnicode`].
    pub fn stashed(&mut self, desc: &str) -> (r: Result<String, ArgError>)
        ensures
            old(self)@.stash.len() > 0 ==> string_result_model(&r) == force_str_result(
                Ok(old(self)@.stash[0]),
            ) && final(self)@ == stash_popped(old(self)@),
            old(self)@.stash.len() == 0 ==> (match r {
                Ok(_) => false,
                Err(e) => e@ == ErrorModel::ArgumentMissing(desc@),
            }) && final(self)@ == old(self)@,
    {
        let w = self.stashed_os(desc);
        match w {
            Ok(v) => {
                if utf8_valid(&v) {
                    Ok(string_from_utf8(v.into_bytes()))
                } else {
                    Err(ArgError::InvalidUnicode(v))
                }
            },
            Err(e) => Err(e),
        }
    }

    /// Drain the words set aside by [`ArgSplitter::flag`] into a one-shot
    /// FIFO sequence of raw strings. Fails with
    /// [`ArgError::ArgumentMissing`], leaving the stash untouched, when
    /// fewer than `expect_at_least` words are stashed; on success the
    /// words leave the stash as the sequence is made.
    pub fn stashed_args_os(&mut self, expect_at_least: usize, desc: &str) -> (r: Result<
        StashedOs,
        ArgError,
    >)
        ensures
            old(self)@.stash.len() >= expect_at_least ==> (match r {
                Ok(it) => it@ == old(self)@.stash,
                Err(_) => false,
            }) && final(self)@ == (SplitterModel { stash: Seq::empty(), ..old(self)@ }),
            old(self)@.stash.len() < expect_at_least ==> (match r {
                Ok(_) => false,
                Err(e) => e@ == ErrorModel::ArgumentMissing(desc@),
            }) && final(self)@ == old(self)@,
    {
        if self.stashed_args.len() >= expect_at_least {
            let mut drained: Vec<RawString> = Vec::new();
            std::mem::swap(&mut drained, &mut self.stashed_args);
            proof {
                assert(self@.stash =~= Seq::<Seq<u8>>::empty());
            }
            Ok(StashedOs { words: drained })
        } else {
            Err(ArgError::ArgumentMissing(desc.to_owned()))
        }
    }

    /// Drain the words set aside by [`ArgSplitter::flag`] into a one-shot
    /// FIFO sequence of text values. When fewer than `expect_at_least`
    /// words are stashed the stash stays untouched and the sequence only
    /// ever yields [`ArgError::ArgumentMissing`]; otherwise the words
    /// leave the stash as the sequence is made, and each one is decoded as
    /// it is yielded.
    pub fn stashed_args(&mut self, expect_at_least: usize, desc: &str) -> (r: Stashed)
        ensures
            old(self)@.stash.len() >= expect_at_least ==> r@.err is None && r@.words == old(
                self,
            )@.stash && final(self)@ == (SplitterModel { stash: Seq::empty(), ..old(self)@ }),
            old(self)@.stash.len() < expect_at_least ==> r@.err == Some(
                ErrorModel::ArgumentMissing(desc@),
            ) && r@.words == Seq::<Seq<u8>>::empty() && final(self)@ == old(self)@,
    {
        if self.stashed_args.len() >= expect_at_least {
            let mut drained: Vec<RawString> = Vec::new();
            std::mem::swap(&mut drained, &mut self.stashed_args);
            proof {
                assert(self@.stash =~= Seq::<Seq<u8>>::empty());
            }
            Stashed { err: None, words: drained }
        } else {
            let st = Stashed {
                err: Some(ArgError::ArgumentMissing(desc.to_owned())),
                words: Vec::new(),
            };
            proof {
                assert(st@.words =~= Seq::<Seq<u8>>::empty());
            }
            st
        }
    }

    /// Return `Ok(())` when every stashed word has been consumed, and
    /// [`ArgError::UnexpectedArgument`] carrying the oldest remaining one
    /// otherwise.
    pub fn no_more_stashed(&self) -> (r: Result<(), ArgError>)
        ensures
            self@.stash.len() == 0 ==> r is Ok,
            self@.stash.len() > 0 ==> match r {
                Ok(_) => false,
                Err(e) => e@ == ErrorModel::UnexpectedArgument(self@.stash[0]),
            },
    {
        if self.stashed_args.len() == 0 {
            Ok(())
        } else {
            Err(ArgError::UnexpectedArgument(self.stashed_args[0].clone()))
        }
    }
}

/// One-shot FIFO sequence of raw words, returned by
/// [`ArgSplitter::stashed_args_os`]. Already-yielded entries are gone;
/// calling [`StashedOs::next`] after exhaustion yields nothing.
#[derive(Debug)]
pub struct StashedOs {
    words: Vec<RawString>,
}

impl View for StashedOs {
    type V = Seq<Seq<u8>>;

    closed spec fn view(&self) -> Seq<Seq<u8>> {
        self.words@.map_values(|r: RawString| r@)
    }
}

impl StashedOs {
    /// The oldest entry not yet yielded, or `None` after exhaustion.
    pub fn next(&mut self) -> (r: Option<RawString>)
        ensures
            old(self)@.len() == 0 ==> r is None && final(self)@ == old(self)@,
            old(self)@.len() > 0 ==> (match r {
                Some(v) => v@ == old(self)@[0],
                None => false,
            }) && final(self)@ == old(self)@.drop_first(),
    {
        if self.words.len() == 0 {
            None
        } else {
            let w = self.words.remove(0);
            proof {
                assert(self@ =~= old(self)@.drop_first());
            }
            Some(w)
        }
    }
}

/// The model of a [`Stashed`] sequence: the error it keeps yielding, if
/// any, and the words not yet yielded.
pub struct StashedModel {
    pub err: Option<ErrorModel>,
    pub words: Seq<Seq<u8>>,
}

/// One-shot FIFO sequence of text words, returned by
/// [`ArgSplitter::stashed_args`]. When it was made with too few words
/// stashed it yields [`ArgError::ArgumentMissing`] over and over;
/// otherwise each word is decoded as it is yielded, an undecodable one as
/// [`ArgError::InvalidUnicode`], and after exhaustion nothing comes.
#[derive(Debug)]
pub struct Stashed {
    err: Option<ArgError>,
    words: Vec<RawString>,
}

impl View for Stashed {
    type V = StashedModel;

    closed spec fn view(&self) -> StashedModel {
        StashedModel {
            err: match self.err {
                Some(ref e) => Some(e@),
                None => None,
            },
            words: self.words@.map_values(|r: RawString| r@),
        }
    }
}

impl Stashed {
    /// The oldest entry not yet yielded, decoded; or the sequence's
    /// standing error; or `None` after exhaustion.
    pub fn next(&mut self) -> (r: Option<Result<String, ArgError>>)
        ensures
            old(self)@.err is Some ==> final(self)@ == old(self)@ && (match r {
                Some(x) => match x {
                    Err(e) => Some(e@) == old(self)@.err,
                    Ok(_) => false,
                },
                None => false,
            }),
            old(self)@.err is None && old(self)@.words.len() == 0 ==> r is None && final(self)@
                == old(self)@,
            old(self)@.err is None && old(self)@.words.len() > 0 ==> final(self)@ == (StashedModel {
                words: old(self)@.words.drop_first(),
                ..old(self)@
            }) && (match r {
                Some(x) => string_result_model(&x) == force_str_result(Ok(old(self)@.words[0])),
                None => false,
            }),
    {
        if self.err.is_some() {
            let e = self.err.as_ref().unwrap().clone();
            Some(Err(e))
        } else if self.words.len() == 0 {
            None
        } else {
            let w = self.words.remove(0);
            proof {
                assert(self@.words =~= old(self)@.words.drop_first());
            }
            if utf8_valid(&w) {
                Some(Ok(string_from_utf8(w.into_bytes())))
            } else {
                Some(Err(ArgError::InvalidUnicode(w)))
            }
        }
    }
}

} // verus!
