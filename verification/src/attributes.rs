//! The attribute model: the closed tagged union over all recognized
//! attribute kinds plus a passthrough, and the dispatcher that routes an
//! attribute line's body to the matching typed sub-parser.

pub mod extension;
pub mod fmtp;
pub mod kind;
pub mod mid;
pub mod orient;
pub mod rtp;
pub mod ssrc;

pub use extension::{ExtMap, ExtMapView};
pub use fmtp::{Fmtp, FmtpView};
pub use kind::Kind;
pub use mid::Mid;
pub use orient::Orient;
pub use rtp::{RtpMap, RtpMapView};
pub use ssrc::{Ssrc, SsrcView};

use vstd::prelude::*;

use crate::errors::ParseError;
use crate::num::{is_uint_str, parse_u16, parse_u64, parse_u8, uint_str_val};
use crate::util::{find_char, lemma_split_first_none, sep_free, split_first, str_eq};
use extension::{ext_map_err_matches, spec_parse_ext_map};
use fmtp::{fmtp_err_matches, spec_parse_fmtp};
use kind::spec_parse_kind;
use orient::spec_parse_orient;
use rtp::{rtp_map_err_matches, spec_parse_rtp_map};
use ssrc::{spec_parse_ssrc, ssrc_err_matches};

verus! {

/// One attribute line's body, decoded.  Each variant owns either a primitive
/// or a nested typed value; anything outside the recognized key table passes
/// through as `Other`, the key with the value text when one occurred.
///
/// The direction flags (`Recvonly`, `Sendrecv`, `Sendonly`, `Inactive`) and
/// `Mid` exist in the model but have no entry in the dispatch table, so the
/// dispatcher never produces them; their lines pass through as `Other`.
#[derive(Debug, PartialEq, Eq)]
pub enum Attributes {
    /// `ptime:<int>`: the length of media per packet, in milliseconds.
    Ptime(u64),
    /// `maxptime:<int>`: the most media one packet may hold, in milliseconds.
    MaxPtime(u64),
    /// `rtpmap:<payload-type> <name>/<rate>[/<channels>]`.
    Rtpmap(RtpMap),
    /// `fmtp:<payload-type> <k>=<v>[;<k>=<v>...]`.
    Fmtp(Fmtp),
    /// `orient:portrait|landscape|seascape`.
    Orient(Orient),
    /// `charset:<token>`: the character set of the session texts.
    Charset(String),
    /// `sdplang:<tag>`: the language of the session description.
    SdpLang(String),
    /// `lang:<tag>`: a language capability of the session or media.
    Lang(String),
    /// `framerate:<int>`: the greatest video frame rate, in frames per second.
    Framerate(u16),
    /// `quality:<int>`: an encoding-quality suggestion, zero to ten by
    /// convention, not enforced here.
    Quality(u8),
    /// `type:broadcast|meeting|moderated|test|H332`.
    Kind(Kind),
    /// `recvonly`: a presence flag, not dispatched.
    Recvonly(bool),
    /// `sendrecv`: a presence flag, not dispatched.
    Sendrecv(bool),
    /// `sendonly`: a presence flag, not dispatched.
    Sendonly(bool),
    /// `inactive`: a presence flag, not dispatched.
    Inactive(bool),
    /// `extmap:<id> <uri>`.
    Extmap(ExtMap),
    /// `mid:<token>`, not dispatched.
    Mid(Mid),
    /// `ssrc:<id> <attr>[:<value>]`.
    Ssrc(Ssrc),
    /// Any unrecognized key, with its value text when one occurred.
    Other(String, Option<String>),
}

/// The mathematical content of a decoded attribute.
pub enum AttrView {
    Ptime(u64),
    MaxPtime(u64),
    Rtpmap(RtpMapView),
    Fmtp(FmtpView),
    Orient(Orient),
    Charset(Seq<char>),
    SdpLang(Seq<char>),
    Lang(Seq<char>),
    Framerate(u16),
    Quality(u8),
    Kind(Kind),
    Recvonly(bool),
    Sendrecv(bool),
    Sendonly(bool),
    Inactive(bool),
    Extmap(ExtMapView),
    Mid(Seq<char>),
    Ssrc(SsrcView),
    Other(Seq<char>, Option<Seq<char>>),
}

impl View for Attributes {
    type V = AttrView;

    open spec fn view(&self) -> AttrView {
        match self {
            Attributes::Ptime(v) => AttrView::Ptime(*v),
            Attributes::MaxPtime(v) => AttrView::MaxPtime(*v),
            Attributes::Rtpmap(v) => AttrView::Rtpmap(v@),
            Attributes::Fmtp(v) => AttrView::Fmtp(v@),
            Attributes::Orient(v) => AttrView::Orient(*v),
            Attributes::Charset(v) => AttrView::Charset(v@),
            Attributes::SdpLang(v) => AttrView::SdpLang(v@),
            Attributes::Lang(v) => AttrView::Lang(v@),
            Attributes::Framerate(v) => AttrView::Framerate(*v),
            Attributes::Quality(v) => AttrView::Quality(*v),
            Attributes::Kind(v) => AttrView::Kind(*v),
            Attributes::Recvonly(v) => AttrView::Recvonly(*v),
            Attributes::Sendrecv(v) => AttrView::Sendrecv(*v),
            Attributes::Sendonly(v) => AttrView::Sendonly(*v),
            Attributes::Inactive(v) => AttrView::Inactive(*v),
            Attributes::Extmap(v) => AttrView::Extmap(v@),
            Attributes::Mid(v) => AttrView::Mid(v@),
            Attributes::Ssrc(v) => AttrView::Ssrc(v@),
            Attributes::Other(k, v) => AttrView::Other(
                k@,
                match v {
                    None => None,
                    Some(t) => Some(t@),
                },
            ),
        }
    }
}

/// The keys the dispatch table recognizes.
pub open spec fn is_recognized_key(k: Seq<char>) -> bool {
    ||| k == "fmtp"@
    ||| k == "rtpmap"@
    ||| k == "extmap"@
    ||| k == "lang"@
    ||| k == "charset"@
    ||| k == "sdplang"@
    ||| k == "ptime"@
    ||| k == "maxptime"@
    ||| k == "orient"@
    ||| k == "type"@
    ||| k == "framerate"@
    ||| k == "quality"@
    ||| k == "ssrc"@
}

/// What an attribute line's body parses to.  With no colon the whole text is
/// a bare key, passed through.  Otherwise the text splits at the first colon
/// into key and value text; a recognized key hands the value text to its
/// sub-parser, whose failure fails the whole parse, and any other key passes
/// through with its value text.
pub open spec fn spec_parse_attribute(s: Seq<char>) -> Option<AttrView> {
    match split_first(s, ':') {
        None => Some(AttrView::Other(s, None)),
        Some(p) => if p.0 == "fmtp"@ {
            match spec_parse_fmtp(p.1) {
                None => None,
                Some(m) => Some(AttrView::Fmtp(m)),
            }
        } else if p.0 == "rtpmap"@ {
            match spec_parse_rtp_map(p.1) {
                None => None,
                Some(m) => Some(AttrView::Rtpmap(m)),
            }
        } else if p.0 == "extmap"@ {
            match spec_parse_ext_map(p.1) {
                None => None,
                Some(m) => Some(AttrView::Extmap(m)),
            }
        } else if p.0 == "lang"@ {
            Some(AttrView::Lang(p.1))
        } else if p.0 == "charset"@ {
            Some(AttrView::Charset(p.1))
        } else if p.0 == "sdplang"@ {
            Some(AttrView::SdpLang(p.1))
        } else if p.0 == "ptime"@ {
            if is_uint_str(p.1) && uint_str_val(p.1) <= u64::MAX {
                Some(AttrView::Ptime(uint_str_val(p.1) as u64))
            } else {
                None
            }
        } else if p.0 == "maxptime"@ {
            if is_uint_str(p.1) && uint_str_val(p.1) <= u64::MAX {
                Some(AttrView::MaxPtime(uint_str_val(p.1) as u64))
            } else {
                None
            }
        } else if p.0 == "orient"@ {
            match spec_parse_orient(p.1) {
                None => None,
                Some(o) => Some(AttrView::Orient(o)),
            }
        } else if p.0 == "type"@ {
            match spec_parse_kind(p.1) {
                None => None,
                Some(t) => Some(AttrView::Kind(t)),
            }
        } else if p.0 == "framerate"@ {
            if is_uint_str(p.1) && uint_str_val(p.1) <= u16::MAX {
                Some(AttrView::Framerate(uint_str_val(p.1) as u16))
            } else {
                None
            }
        } else if p.0 == "quality"@ {
            if is_uint_str(p.1) && uint_str_val(p.1) <= u8::MAX {
                Some(AttrView::Quality(uint_str_val(p.1) as u8))
            } else {
                None
            }
        } else if p.0 == "ssrc"@ {
            match spec_parse_ssrc(p.1) {
                None => None,
                Some(m) => Some(AttrView::Ssrc(m)),
            }
        } else {
            Some(AttrView::Other(p.0, Some(p.1)))
        },
    }
}

impl Attributes {
    /// Parse one attribute line's body, the text after the `a=` marker.
    /// Success and the decoded value follow the dispatch description
    /// exactly; failure occurs precisely when a recognized key's sub-parser
    /// fails, and surfaces that sub-parser's error unchanged.
    pub fn try_from(value: &str) -> (r: Result<Attributes, ParseError>)
        ensures
            match r {
                Ok(a) => spec_parse_attribute(value@) == Some(a@),
                Err(e) => {
                    &&& spec_parse_attribute(value@) is None
                    &&& match split_first(value@, ':') {
                        None => false,
                        Some(p) => if p.0 == "fmtp"@ {
                            fmtp_err_matches(p.1, e)
                        } else if p.0 == "rtpmap"@ {
                            rtp_map_err_matches(p.1, e)
                        } else if p.0 == "extmap"@ {
                            ext_map_err_matches(p.1, e)
                        } else if p.0 == "lang"@ || p.0 == "charset"@ || p.0 == "sdplang"@ {
                            false
                        } else if p.0 == "ptime"@ || p.0 == "maxptime"@ {
                            e matches ParseError::Numeric { input } && input@ == p.1
                        } else if p.0 == "orient"@ {
                            e matches ParseError::Vocabulary { input } && input@ == p.1
                        } else if p.0 == "type"@ {
                            e matches ParseError::Vocabulary { input } && input@ == p.1
                        } else if p.0 == "framerate"@ || p.0 == "quality"@ {
                            e matches ParseError::Numeric { input } && input@ == p.1
                        } else if p.0 == "ssrc"@ {
                            ssrc_err_matches(p.1, e)
                        } else {
                            false
                        },
                    }
                },
            },
    {
        match find_char(value, ':') {
            None => Ok(Attributes::Other(value.to_owned(), None)),
            Some(i) => {
                let n = value.unicode_len();
                let key = value.substring_char(0, i);
                let v = value.substring_char(i + 1, n);
                proof {
                    assert(value@.subrange(0, i as int) =~= value@.take(i as int));
                    assert(value@.subrange(i as int + 1, n as int) =~= value@.skip(i as int + 1));
                }
                if str_eq(key, "fmtp") {
                    match Fmtp::try_from(v) {
                        Ok(m) => Ok(Attributes::Fmtp(m)),
                        Err(e) => Err(e),
                    }
                } else if str_eq(key, "rtpmap") {
                    match RtpMap::try_from(v) {
                        Ok(m) => Ok(Attributes::Rtpmap(m)),
                        Err(e) => Err(e),
                    }
                } else if str_eq(key, "extmap") {
                    match ExtMap::try_from(v) {
                        Ok(m) => Ok(Attributes::Extmap(m)),
                        Err(e) => Err(e),
                    }
                } else if str_eq(key, "lang") {
                    Ok(Attributes::Lang(v.to_owned()))
                } else if str_eq(key, "charset") {
                    Ok(Attributes::Charset(v.to_owned()))
                } else if str_eq(key, "sdplang") {
                    Ok(Attributes::SdpLang(v.to_owned()))
                } else if str_eq(key, "ptime") {
                    match parse_u64(v) {
                        Ok(t) => Ok(Attributes::Ptime(t)),
                        Err(e) => Err(e),
                    }
                } else if str_eq(key, "maxptime") {
                    match parse_u64(v) {
                        Ok(t) => Ok(Attributes::MaxPtime(t)),
                        Err(e) => Err(e),
                    }
                } else if str_eq(key, "orient") {
                    match Orient::try_from(v) {
                        Ok(o) => Ok(Attributes::Orient(o)),
                        Err(e) => Err(e),
                    }
                } else if str_eq(key, "type") {
                    match Kind::try_from(v) {
                        Ok(t) => Ok(Attributes::Kind(t)),
                        Err(e) => Err(e),
                    }
                } else if str_eq(key, "framerate") {
                    match parse_u16(v) {
                        Ok(t) => Ok(Attributes::Framerate(t)),
                        Err(e) => Err(e),
                    }
                } else if str_eq(key, "quality") {
                    match parse_u8(v) {
                        Ok(t) => Ok(Attributes::Quality(t)),
                        Err(e) => Err(e),
                    }
                } else if str_eq(key, "ssrc") {
                    match Ssrc::try_from(v) {
                        Ok(m) => Ok(Attributes::Ssrc(m)),
                        Err(e) => Err(e),
                    }
                } else {
                    Ok(Attributes::Other(key.to_owned(), Some(v.to_owned())))
                }
            },
        }
    }
}

/// Law: dispatch is total outside the recognized table.  A body without a
/// colon passes through whole as a bare key, and a body whose key is not
/// recognized passes through as the key with exactly the text after the
/// first colon.
pub proof fn lemma_dispatch_other(s: Seq<char>)
    ensures
        sep_free(s, ':') ==> spec_parse_attribute(s) == Some(AttrView::Other(s, None)),
        match split_first(s, ':') {
            Some(p) => !is_recognized_key(p.0) ==> spec_parse_attribute(s) == Some(
                AttrView::Other(p.0, Some(p.1)),
            ),
            None => true,
        },
{
    if sep_free(s, ':') {
        lemma_split_first_none(s, ':');
    }
}

} // verus!
