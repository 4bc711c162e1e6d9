//! The generic header-extension mapping attribute: a one-byte extension
//! number and the extension's name, separated by one space.

use vstd::prelude::*;

use crate::errors::ParseError;
use crate::num::{is_uint_str, parse_u8, uint_str_val};
use crate::util::{split_first, tuple2_from_split};

verus! {

/// The mapping from an extension number used in packet headers to the
/// extension's registered name, as the `extmap` attribute carries it.
#[derive(Debug, PartialEq, Eq)]
pub struct ExtMap {
    pub key: u8,
    pub value: String,
}

/// The mathematical content of an extension mapping.
pub struct ExtMapView {
    pub key: u8,
    pub value: Seq<char>,
}

impl View for ExtMap {
    type V = ExtMapView;

    open spec fn view(&self) -> ExtMapView {
        ExtMapView { key: self.key, value: self.value@ }
    }
}

/// The mapping a value text parses to: a decimal byte and the name, split at
/// the first space; no space, or an id that is not a decimal byte, fails.
pub open spec fn spec_parse_ext_map(s: Seq<char>) -> Option<ExtMapView> {
    match split_first(s, ' ') {
        None => None,
        Some(p) => if is_uint_str(p.0) && uint_str_val(p.0) <= u8::MAX {
            Some(ExtMapView { key: uint_str_val(p.0) as u8, value: p.1 })
        } else {
            None
        },
    }
}

/// The failure an extension mapping's parse surfaces: an arity error
/// carrying the whole text when no space occurs, else a numeric-format
/// error carrying the id text.
pub open spec fn ext_map_err_matches(s: Seq<char>, e: ParseError) -> bool {
    match split_first(s, ' ') {
        None => {
            &&& e matches ParseError::Arity { expected, input }
            &&& expected == 2
            &&& input@ == s
        },
        Some(p) => {
            &&& e matches ParseError::Numeric { input }
            &&& input@ == p.0
        },
    }
}

impl ExtMap {
    /// Parse the value text of an `extmap` attribute.  Fails with an arity
    /// error when no space occurs, and with a numeric-format error carrying
    /// the id text when the id is not a decimal byte.
    pub fn try_from(value: &str) -> (r: Result<ExtMap, ParseError>)
        ensures
            match r {
                Ok(m) => spec_parse_ext_map(value@) == Some(m@),
                Err(e) => spec_parse_ext_map(value@) is None && ext_map_err_matches(value@, e),
            },
    {
        match tuple2_from_split(value, ' ') {
            Err(e) => Err(e),
            Ok((k, v)) => match parse_u8(k.as_str()) {
                Err(e) => Err(e),
                Ok(key) => Ok(ExtMap { key, value: v }),
            },
        }
    }
}

/// Law: an extension mapping parses exactly when the text splits at a first
/// space and the part before it is a decimal byte; the mapping then holds
/// exactly that id and exactly the text after the space, and any text
/// without a space, or with an id that is not a decimal byte, fails.
pub proof fn lemma_ext_map_exact(s: Seq<char>)
    ensures
        match split_first(s, ' ') {
            Some(p) => {
                &&& (is_uint_str(p.0) && uint_str_val(p.0) <= u8::MAX ==> spec_parse_ext_map(s)
                    == Some(ExtMapView { key: uint_str_val(p.0) as u8, value: p.1 }))
                &&& (!(is_uint_str(p.0) && uint_str_val(p.0) <= u8::MAX) ==> spec_parse_ext_map(s)
                    is None)
            },
            None => spec_parse_ext_map(s) is None,
        },
{
}

} // verus!
