//! The token shapes handed to callers: a flag name or a positional word.

use vstd::prelude::*;
use vstd::string::StrSliceExecFns;
use vstd::utf8::encode_utf8;
use crate::argerror::ArgError;
use crate::argerror::ErrorModel;
use crate::raw::RawString;

verus! {

/// Specification-level mirror of [`OwnedItem`] and [`ItemOs`]: a word as raw
/// bytes or a flag name as characters.
pub enum ItemOsModel {
    Word(Seq<u8>),
    Flag(Seq<char>),
}

/// Specification-level mirror of [`Item`]: both payloads as characters.
pub enum ItemModel {
    Word(Seq<char>),
    Flag(Seq<char>),
}

/// Item returned from [`crate::tokenizer::Core::take_item`].
#[derive(Debug, Clone, PartialEq, Eq)]
pub enum OwnedItem {
    /// An argument that did not start with a dash, or the special case `-`.
    Word(RawString),
    /// A flag such as `-v` or `--file`, including the leading dashes.
    Flag(String),
}

/// Item returned from [`crate::splitter::ArgSplitter::item_os`]. Words keep
/// their raw, possibly undecodable bytes.
#[derive(Debug, Clone, PartialEq, Eq)]
pub enum ItemOs {
    /// An argument that does not start with a dash.
    Word(RawString),
    /// A short flag `-f` or a long flag `--file`, including the dashes.
    Flag(String),
}

/// Item returned from [`crate::splitter::ArgSplitter::item`]. Words are
/// validated text.
#[derive(Debug, Clone, PartialEq, Eq)]
pub enum Item {
    /// An argument that does not start with a dash.
    Word(String),
    /// A short flag `-f` or a long flag `--file`, including the dashes.
    Flag(String),
}

impl View for OwnedItem {
    type V = ItemOsModel;

    open spec fn view(&self) -> ItemOsModel {
        match self {
            OwnedItem::Word(w) => ItemOsModel::Word(w@),
            OwnedItem::Flag(f) => ItemOsModel::Flag(f@),
        }
    }
}

impl View for ItemOs {
    type V = ItemOsModel;

    open spec fn view(&self) -> ItemOsModel {
        match self {
            ItemOs::Word(w) => ItemOsModel::Word(w@),
            ItemOs::Flag(f) => ItemOsModel::Flag(f@),
        }
    }
}

impl View for Item {
    type V = ItemModel;

    open spec fn view(&self) -> ItemModel {
        match self {
            Item::Word(w) => ItemModel::Word(w@),
            Item::Flag(f) => ItemModel::Flag(f@),
        }
    }
}

impl ItemOs {
    /// The error a caller reports when it does not recognize this item:
    /// [`ArgError::UnexpectedFlag`] for a flag, otherwise
    /// [`ArgError::UnexpectedArgument`].
    pub fn unexpected(&self) -> (r: ArgError)
        ensures
            r@ == match self@ {
                ItemOsModel::Flag(f) => ErrorModel::UnexpectedFlag(f),
                ItemOsModel::Word(w) => ErrorModel::UnexpectedArgument(w),
            },
    {
        match self {
            ItemOs::Flag(f) => ArgError::unknown_flag(f.as_str()),
            ItemOs::Word(w) => ArgError::unexpected_argument(w.clone()),
        }
    }
}

impl Item {
    /// The error a caller reports when it does not recognize this item:
    /// [`ArgError::UnexpectedFlag`] for a flag, otherwise
    /// [`ArgError::UnexpectedArgument`].
    pub fn unexpected(&self) -> (r: ArgError)
        ensures
            r@ == match self@ {
                ItemModel::Flag(f) => ErrorModel::UnexpectedFlag(f),
                ItemModel::Word(w) => ErrorModel::UnexpectedArgument(encode_utf8(w)),
            },
    {
        match self {
            Item::Flag(f) => ArgError::unknown_flag(f.as_str()),
            Item::Word(w) => ArgError::unexpected_argument(RawString::new(
                w.as_str().as_bytes_vec(),
            )),
        }
    }
}

} // verus!
