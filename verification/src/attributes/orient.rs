//! The orientation attribute: a closed, case-sensitive vocabulary of three
//! literals.

use vstd::prelude::*;

use crate::errors::ParseError;
use crate::util::str_eq;

verus! {

/// The orientation of the media, as the `orient` attribute carries it.
#[derive(Debug, Clone, Copy, PartialEq, Eq, Structural)]
pub enum Orient {
    Portrait,
    Landscape,
    Seascape,
}

/// The literal each orientation spells as.
pub open spec fn spec_orient_str(o: Orient) -> Seq<char> {
    match o {
        Orient::Portrait => "portrait"@,
        Orient::Landscape => "landscape"@,
        Orient::Seascape => "seascape"@,
    }
}

/// The orientation a literal parses to.
pub open spec fn spec_parse_orient(s: Seq<char>) -> Option<Orient> {
    if s == "portrait"@ {
        Some(Orient::Portrait)
    } else if s == "landscape"@ {
        Some(Orient::Landscape)
    } else if s == "seascape"@ {
        Some(Orient::Seascape)
    } else {
        None
    }
}

impl Orient {
    /// Parse the vocabulary, case-sensitively; any other text is a
    /// vocabulary error carrying the input.
    pub fn try_from(value: &str) -> (r: Result<Orient, ParseError>)
        ensures
            match r {
                Ok(o) => spec_parse_orient(value@) == Some(o),
                Err(e) => {
                    &&& spec_parse_orient(value@) is None
                    &&& e matches ParseError::Vocabulary { input }
                    &&& input@ == value@
                },
            },
    {
        if str_eq(value, "portrait") {
            Ok(Orient::Portrait)
        } else if str_eq(value, "landscape") {
            Ok(Orient::Landscape)
        } else if str_eq(value, "seascape") {
            Ok(Orient::Seascape)
        } else {
            Err(ParseError::Vocabulary { input: value.to_owned() })
        }
    }

    /// The literal this orientation spells as.
    pub fn to_string(&self) -> (r: String)
        ensures
            r@ == spec_orient_str(*self),
    {
        match self {
            Orient::Portrait => "portrait".to_owned(),
            Orient::Landscape => "landscape".to_owned(),
            Orient::Seascape => "seascape".to_owned(),
        }
    }
}

/// Law: each orientation's spelling parses back to the same orientation.
pub proof fn lemma_orient_round_trip(o: Orient)
    ensures
        spec_parse_orient(spec_orient_str(o)) == Some(o),
{
    reveal_strlit("portrait");
    reveal_strlit("landscape");
    reveal_strlit("seascape");
    match o {
        Orient::Portrait => {
            assert(spec_parse_orient("portrait"@) == Some(Orient::Portrait));
        },
        Orient::Landscape => {
            assert(("landscape"@).len() != ("portrait"@).len());
            assert(spec_parse_orient("landscape"@) == Some(Orient::Landscape));
        },
        Orient::Seascape => {
            assert(("seascape"@)[0] != ("portrait"@)[0]);
            assert(("seascape"@).len() != ("landscape"@).len());
            assert(spec_parse_orient("seascape"@) == Some(Orient::Seascape));
        },
    }
}

} // verus!
