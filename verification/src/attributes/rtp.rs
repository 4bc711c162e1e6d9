//! The RTP payload mapping attribute: a payload type, then the encoding name,
//! the clock rate and an optional channel count, slash-delimited.

use vstd::prelude::*;

use crate::errors::ParseError;
use crate::num::{is_uint_str, parse_u32, parse_u8, uint_str_val};
use crate::util::{split_all, split_all_vec, split_first, tuple2_from_split, views_of};

verus! {

/// The mapping from an RTP payload type to its encoding, as the `rtpmap`
/// attribute carries it.
#[derive(Debug, PartialEq, Eq)]
pub struct RtpMap {
    pub payload: u8,
    pub name: String,
    pub clock_rate: u32,
    pub channels: Option<u32>,
}

/// The mathematical content of an RTP payload mapping.
pub struct RtpMapView {
    pub payload: u8,
    pub name: Seq<char>,
    pub clock_rate: u32,
    pub channels: Option<u32>,
}

impl View for RtpMap {
    type V = RtpMapView;

    open spec fn view(&self) -> RtpMapView {
        RtpMapView {
            payload: self.payload,
            name: self.name@,
            clock_rate: self.clock_rate,
            channels: self.channels,
        }
    }
}

/// What a value text parses to: the decimal payload type up to the first
/// space, then two or three slash-delimited fields: the encoding name, the
/// decimal clock rate, and optionally the decimal channel count.
pub open spec fn spec_parse_rtp_map(s: Seq<char>) -> Option<RtpMapView> {
    match split_first(s, ' ') {
        None => None,
        Some(p) => if is_uint_str(p.0) && uint_str_val(p.0) <= u8::MAX {
            let parts = split_all(p.1, '/');
            if parts.len() < 2 || parts.len() > 3 {
                None
            } else if !(is_uint_str(parts[1]) && uint_str_val(parts[1]) <= u32::MAX) {
                None
            } else if parts.len() == 2 {
                Some(
                    RtpMapView {
                        payload: uint_str_val(p.0) as u8,
                        name: parts[0],
                        clock_rate: uint_str_val(parts[1]) as u32,
                        channels: None,
                    },
                )
            } else if is_uint_str(parts[2]) && uint_str_val(parts[2]) <= u32::MAX {
                Some(
                    RtpMapView {
                        payload: uint_str_val(p.0) as u8,
                        name: parts[0],
                        clock_rate: uint_str_val(parts[1]) as u32,
                        channels: Some(uint_str_val(parts[2]) as u32),
                    },
                )
            } else {
                None
            }
        } else {
            None
        },
    }
}

/// The failure an RTP-mapping parse surfaces: an arity error when no space
/// occurs or the slash-delimited field count is not two or three, else a
/// numeric-format error carrying the first bad numeric field.
pub open spec fn rtp_map_err_matches(s: Seq<char>, e: ParseError) -> bool {
    match split_first(s, ' ') {
        None => {
            &&& e matches ParseError::Arity { expected, input }
            &&& expected == 2
            &&& input@ == s
        },
        Some(p) => if !(is_uint_str(p.0) && uint_str_val(p.0) <= u8::MAX) {
            &&& e matches ParseError::Numeric { input }
            &&& input@ == p.0
        } else {
            let parts = split_all(p.1, '/');
            if parts.len() < 2 {
                &&& e matches ParseError::Arity { expected, input }
                &&& expected == 2
                &&& input@ == p.1
            } else if parts.len() > 3 {
                &&& e matches ParseError::Arity { expected, input }
                &&& expected == 3
                &&& input@ == p.1
            } else if !(is_uint_str(parts[1]) && uint_str_val(parts[1]) <= u32::MAX) {
                &&& e matches ParseError::Numeric { input }
                &&& input@ == parts[1]
            } else {
                &&& e matches ParseError::Numeric { input }
                &&& input@ == parts[2]
            }
        },
    }
}

impl RtpMap {
    /// Parse the value text of an `rtpmap` attribute.  Fails with an arity
    /// error when no space occurs or the slash-delimited field count is not
    /// two or three, and with a numeric-format error on a bad payload type,
    /// clock rate or channel count.
    pub fn try_from(value: &str) -> (r: Result<RtpMap, ParseError>)
        ensures
            match r {
                Ok(m) => spec_parse_rtp_map(value@) == Some(m@),
                Err(e) => spec_parse_rtp_map(value@) is None && rtp_map_err_matches(value@, e),
            },
    {
        match tuple2_from_split(value, ' ') {
            Err(e) => Err(e),
            Ok((pt, rest)) => match parse_u8(pt.as_str()) {
                Err(e) => Err(e),
                Ok(payload) => {
                    let parts = split_all_vec(rest.as_str(), '/');
                    proof {
                        assert(views_of(parts@).len() == parts@.len());
                    }
                    if parts.len() < 2 {
                        return Err(ParseError::Arity { expected: 2, input: rest });
                    }
                    if parts.len() > 3 {
                        return Err(ParseError::Arity { expected: 3, input: rest });
                    }
                    proof {
                        assert(views_of(parts@)[0] == parts@[0]@);
                        assert(views_of(parts@)[1] == parts@[1]@);
                    }
                    let clock_rate = match parse_u32(parts[1].as_str()) {
                        Err(e) => {
                            return Err(e);
                        },
                        Ok(cr) => cr,
                    };
                    let channels = if parts.len() == 3 {
                        proof {
                            assert(views_of(parts@)[2] == parts@[2]@);
                        }
                        match parse_u32(parts[2].as_str()) {
                            Err(e) => {
                                return Err(e);
                            },
                            Ok(ch) => Some(ch),
                        }
                    } else {
                        None
                    };
                    let name = parts[0].clone();
                    Ok(RtpMap { payload, name, clock_rate, channels })
                },
            },
        }
    }
}

} // verus!
