//! Helper library for parsing command line arguments.
//!
//! The library splits bundled single-dash flags such as `-xvf` into separate
//! flags `-x`, `-v` and `-f`, handles flag parameters such as `-fbanana` or
//! `--fruit=banana`, and deals correctly with arguments whose bytes are not
//! valid Unicode, while still offering plain `String` values wherever the
//! data is known to decode.
//!
//! Arguments that may carry undecodable bytes are held in [`raw::RawString`];
//! validated text is held in `String`. The tokenizer state machine lives in
//! [`tokenizer`]; the convenient front end is [`splitter::ArgSplitter`].

use vstd::prelude::*;
use vstd::utf8::valid_utf8;
use vstd::utf8::decode_utf8;
use crate::argerror::ErrorModel;
use crate::item::ItemModel;

pub mod argerror;
pub mod tokenizer;
pub mod item;
pub mod model;
pub mod raw;
pub mod splitter;
pub mod unix;
pub mod windows;

pub use argerror::ArgError;
pub use splitter::ArgSplitter;
pub use tokenizer::Core;
pub use item::Item;
pub use item::ItemOs;
pub use item::OwnedItem;
pub use raw::RawString;

verus! {

/// Helper trait for converting a raw-based value into its text-based
/// counterpart: [`RawString`] into `String`, [`ItemOs`] into [`Item`],
/// `Option` and `Result` of those into the converted shape. The result is
/// wrapped in `Result<_, ArgError>` unless it already is one.
///
/// The conversion is lossless or it fails: a value whose raw parts all
/// decode comes back as exactly the characters they decode to, and a value
/// with an undecodable part is reported as [`ArgError::InvalidUnicode`]
/// carrying that part unchanged. [`ForceUnicode::converts_to`] and
/// [`ForceUnicode::fails_with`] say for each implementing type what those
/// two outcomes are, and `force_unicode` promises one of them.
pub trait ForceUnicode: Sized {
    /// The exact type the value is converted to.
    type Becomes;

    /// What a successful conversion of this value must return.
    spec fn converts_to(self, b: Self::Becomes) -> bool;

    /// Which error a failed conversion of this value must report.
    spec fn fails_with(self, e: ArgError) -> bool;

    /// Change the raw-based value to be text-based.
    fn force_unicode(self) -> (r: Result<Self::Becomes, ArgError>)
        ensures
            match r {
                Ok(b) => self.converts_to(b),
                Err(e) => self.fails_with(e),
            },
    ;
}

impl ForceUnicode for RawString {
    type Becomes = String;

    open spec fn converts_to(self, b: String) -> bool {
        valid_utf8(self@) && b@ == decode_utf8(self@)
    }

    open spec fn fails_with(self, e: ArgError) -> bool {
        !valid_utf8(self@) && e@ == ErrorModel::InvalidUnicode(self@)
    }

    fn force_unicode(self) -> Result<String, ArgError> {
        if crate::unix::utf8_valid(&self) {
            Ok(crate::raw::string_from_utf8(self.into_bytes()))
        } else {
            Err(ArgError::InvalidUnicode(self))
        }
    }
}

impl ForceUnicode for ItemOs {
    type Becomes = Item;

    open spec fn converts_to(self, b: Item) -> bool {
        match self {
            ItemOs::Flag(f) => b@ == ItemModel::Flag(f@),
            ItemOs::Word(w) => valid_utf8(w@) && b@ == ItemModel::Word(decode_utf8(w@)),
        }
    }

    open spec fn fails_with(self, e: ArgError) -> bool {
        match self {
            ItemOs::Flag(_) => false,
            ItemOs::Word(w) => !valid_utf8(w@) && e@ == ErrorModel::InvalidUnicode(w@),
        }
    }

    fn force_unicode(self) -> Result<Item, ArgError> {
        match self {
            ItemOs::Flag(f) => Ok(Item::Flag(f)),
            ItemOs::Word(w) => match w.force_unicode() {
                Ok(s) => Ok(Item::Word(s)),
                Err(e) => Err(e),
            },
        }
    }
}

impl<T: ForceUnicode> ForceUnicode for Option<T> {
    type Becomes = Option<<T as ForceUnicode>::Becomes>;

    open spec fn converts_to(self, b: Option<<T as ForceUnicode>::Becomes>) -> bool {
        match self {
            None => b is None,
            Some(v) => match b {
                Some(bb) => v.converts_to(bb),
                None => false,
            },
        }
    }

    open spec fn fails_with(self, e: ArgError) -> bool {
        match self {
            None => false,
            Some(v) => v.fails_with(e),
        }
    }

    fn force_unicode(self) -> Result<Self::Becomes, ArgError> {
        match self {
            None => Ok(None),
            Some(v) => match v.force_unicode() {
                Ok(b) => Ok(Some(b)),
                Err(e) => Err(e),
            },
        }
    }
}

impl<T: ForceUnicode> ForceUnicode for Result<T, ArgError> {
    /// As the value already is a `Result<T, ArgError>`, no further layer of
    /// `Result` is added.
    type Becomes = <T as ForceUnicode>::Becomes;

    open spec fn converts_to(self, b: <T as ForceUnicode>::Becomes) -> bool {
        match self {
            Ok(v) => v.converts_to(b),
            Err(_) => false,
        }
    }

    open spec fn fails_with(self, e: ArgError) -> bool {
        match self {
            Ok(v) => v.fails_with(e),
            Err(e0) => e == e0,
        }
    }

    fn force_unicode(self) -> Result<Self::Becomes, ArgError> {
        match self {
            Ok(v) => v.force_unicode(),
            Err(e) => Err(e),
        }
    }
}

} // verus!
