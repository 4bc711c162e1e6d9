//! The synchronization-source attribute: a 32-bit source identifier and one
//! source-level attribute, itself a name with an optional value after the
//! first colon.

use vstd::prelude::*;

use crate::errors::ParseError;
use crate::num::{is_uint_str, parse_u32, uint_str_val};
use crate::util::{split_first, tuple2_from_split};

verus! {

/// One source-level attribute of a synchronization source, as the `ssrc`
/// attribute carries it.
#[derive(Debug, PartialEq, Eq)]
pub struct Ssrc {
    pub id: u32,
    pub attribute: String,
    pub value: Option<String>,
}

/// The mathematical content of a synchronization-source attribute.
pub struct SsrcView {
    pub id: u32,
    pub attribute: Seq<char>,
    pub value: Option<Seq<char>>,
}

impl View for Ssrc {
    type V = SsrcView;

    open spec fn view(&self) -> SsrcView {
        SsrcView {
            id: self.id,
            attribute: self.attribute@,
            value: match self.value {
                None => None,
                Some(v) => Some(v@),
            },
        }
    }
}

/// What a value text parses to: the decimal source identifier up to the
/// first space, then the attribute name, with its value after the first
/// colon when one occurs.
pub open spec fn spec_parse_ssrc(s: Seq<char>) -> Option<SsrcView> {
    match split_first(s, ' ') {
        None => None,
        Some(p) => if is_uint_str(p.0) && uint_str_val(p.0) <= u32::MAX {
            match split_first(p.1, ':') {
                None => Some(
                    SsrcView { id: uint_str_val(p.0) as u32, attribute: p.1, value: None },
                ),
                Some(q) => Some(
                    SsrcView { id: uint_str_val(p.0) as u32, attribute: q.0, value: Some(q.1) },
                ),
            }
        } else {
            None
        },
    }
}

/// The failure a synchronization-source parse surfaces: an arity error
/// carrying the whole text when no space occurs, else a numeric-format
/// error carrying the identifier text.
pub open spec fn ssrc_err_matches(s: Seq<char>, e: ParseError) -> bool {
    match split_first(s, ' ') {
        None => {
            &&& e matches ParseError::Arity { expected, input }
            &&& expected == 2
            &&& input@ == s
        },
        Some(p) => {
            &&& e matches ParseError::Numeric { input }
            &&& input@ == p.0
        },
    }
}

impl Ssrc {
    /// Parse the value text of an `ssrc` attribute.  Fails with an arity
    /// error when no space occurs, and with a numeric-format error carrying
    /// the identifier text when it is not a decimal 32-bit value.
    pub fn try_from(value: &str) -> (r: Result<Ssrc, ParseError>)
        ensures
            match r {
                Ok(m) => spec_parse_ssrc(value@) == Some(m@),
                Err(e) => spec_parse_ssrc(value@) is None && ssrc_err_matches(value@, e),
            },
    {
        match tuple2_from_split(value, ' ') {
            Err(e) => Err(e),
            Ok((idtext, rest)) => match parse_u32(idtext.as_str()) {
                Err(e) => Err(e),
                Ok(id) => match tuple2_from_split(rest.as_str(), ':') {
                    Err(_) => Ok(Ssrc { id, attribute: rest, value: None }),
                    Ok((name, v)) => Ok(Ssrc { id, attribute: name, value: Some(v) }),
                },
            },
        }
    }
}

} // verus!
