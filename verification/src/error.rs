//! The decode error taxonomy. Every failure aborts the whole decode;
//! no partial output is ever returned.

use vstd::prelude::*;
use vstd::string::StringExecFns;

verus! {

/// Mathematical model of a decode error, over character sequences.
pub enum ErrorModel {
    /// The tag text read (in its original case) is not registered.
    BadTag(Seq<char>),
    /// The length field is missing, truncated, or encodes a length
    /// below one; carries a descriptive message.
    BadLength(Seq<char>),
    /// Text that ought to be hexadecimal is not, or a long-form length
    /// does not fit in `usize`; carries the offending text.
    InvalidHex(Seq<char>),
    /// Structural failure: the value region is shorter than declared,
    /// or the declared length exceeds the tag's maximum.
    Generic,
}

/// Why a decode failed.
#[derive(Debug)]
pub enum IccError {
    /// The tag bytes form an identifier not present in the registry;
    /// carries the tag text as read, in its original case.
    BadTag(String),
    /// The length field is missing, truncated, or encodes a length
    /// below one; carries a descriptive message.
    BadLength(String),
    /// A position expected to be hexadecimal holds other characters,
    /// or a long-form length overflows `usize`; carries the offending
    /// text.
    InvalidHex(String),
    /// The value region is shorter than declared, or the declared
    /// length exceeds the tag's configured maximum.
    GenericError,
}

impl View for IccError {
    type V = ErrorModel;

    open spec fn view(&self) -> ErrorModel {
        match self {
            IccError::BadTag(t) => ErrorModel::BadTag(t@),
            IccError::BadLength(m) => ErrorModel::BadLength(m@),
            IccError::InvalidHex(h) => ErrorModel::InvalidHex(h@),
            IccError::GenericError => ErrorModel::Generic,
        }
    }
}

/// Message carried by `BadLength` when the length field is missing or
/// truncated.
pub open spec fn msg_length_missing() -> Seq<char> {
    "length is missing for this tag!"@
}

/// Message carried by `BadLength` when the decoded length is below one.
pub open spec fn msg_length_too_short() -> Seq<char> {
    "too short"@
}

impl PartialEq for IccError {
    /// Two errors are equal when they are the same kind and carry the
    /// same text.
    fn eq(&self, other: &Self) -> (r: bool) {
        match self {
            IccError::BadTag(a) => match other {
                IccError::BadTag(b) => *a == *b,
                _ => false,
            },
            IccError::BadLength(a) => match other {
                IccError::BadLength(b) => *a == *b,
                _ => false,
            },
            IccError::InvalidHex(a) => match other {
                IccError::InvalidHex(b) => *a == *b,
                _ => false,
            },
            IccError::GenericError => match other {
                IccError::GenericError => true,
                _ => false,
            },
        }
    }
}

impl vstd::std_specs::cmp::PartialEqSpecImpl for IccError {
    open spec fn obeys_eq_spec() -> bool {
        true
    }

    open spec fn eq_spec(&self, other: &Self) -> bool {
        self@ == other@
    }
}

impl IccError {
    /// Rendering of the error as text, kind first.
    pub fn message(&self) -> (r: String)
        ensures
            r@ == (match self@ {
                ErrorModel::BadTag(t) => "BadTag: "@ + t,
                ErrorModel::BadLength(m) => "BadLength: "@ + m,
                ErrorModel::InvalidHex(h) => "InvalidHex: "@ + h,
                ErrorModel::Generic => "something was wrong"@,
            }),
    {
        match self {
            IccError::BadTag(t) => "BadTag: ".to_owned().concat(t.as_str()),
            IccError::BadLength(m) => "BadLength: ".to_owned().concat(m.as_str()),
            IccError::InvalidHex(h) => "InvalidHex: ".to_owned().concat(h.as_str()),
            IccError::GenericError => "something was wrong".to_owned(),
        }
    }
}

} // verus!
