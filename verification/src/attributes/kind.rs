//! The conference-kind attribute: a closed, case-sensitive vocabulary of five
//! literals, bijective with the five enum constants.

use vstd::prelude::*;

use crate::errors::ParseError;
use crate::util::str_eq;

verus! {

/// The type of the multimedia conference, as the `type` attribute carries it.
#[derive(Debug, Clone, Copy, PartialEq, Eq, Structural)]
pub enum Kind {
    Broadcast,
    Meeting,
    Moderated,
    Test,
    H332,
}

/// The literal each kind spells as.
pub open spec fn spec_kind_str(k: Kind) -> Seq<char> {
    match k {
        Kind::Broadcast => "broadcast"@,
        Kind::Meeting => "meeting"@,
        Kind::Moderated => "moderated"@,
        Kind::Test => "test"@,
        Kind::H332 => "H332"@,
    }
}

/// The kind a literal parses to: exactly one of the five spellings, anything
/// else failing.
pub open spec fn spec_parse_kind(s: Seq<char>) -> Option<Kind> {
    if s == "broadcast"@ {
        Some(Kind::Broadcast)
    } else if s == "meeting"@ {
        Some(Kind::Meeting)
    } else if s == "moderated"@ {
        Some(Kind::Moderated)
    } else if s == "test"@ {
        Some(Kind::Test)
    } else if s == "H332"@ {
        Some(Kind::H332)
    } else {
        None
    }
}

impl Kind {
    /// Parse the vocabulary, case-sensitively; any other text is a
    /// vocabulary error carrying the input.
    pub fn try_from(value: &str) -> (r: Result<Kind, ParseError>)
        ensures
            match r {
                Ok(k) => spec_parse_kind(value@) == Some(k),
                Err(e) => {
                    &&& spec_parse_kind(value@) is None
                    &&& e matches ParseError::Vocabulary { input }
                    &&& input@ == value@
                },
            },
    {
        if str_eq(value, "broadcast") {
            Ok(Kind::Broadcast)
        } else if str_eq(value, "meeting") {
            Ok(Kind::Meeting)
        } else if str_eq(value, "moderated") {
            Ok(Kind::Moderated)
        } else if str_eq(value, "test") {
            Ok(Kind::Test)
        } else if str_eq(value, "H332") {
            Ok(Kind::H332)
        } else {
            Err(ParseError::Vocabulary { input: value.to_owned() })
        }
    }

    /// The literal this kind spells as.
    pub fn to_string(&self) -> (r: String)
        ensures
            r@ == spec_kind_str(*self),
    {
        match self {
            Kind::Broadcast => "broadcast".to_owned(),
            Kind::Meeting => "meeting".to_owned(),
            Kind::Moderated => "moderated".to_owned(),
            Kind::Test => "test".to_owned(),
            Kind::H332 => "H332".to_owned(),
        }
    }
}

/// Law: each kind's spelling parses back to the same kind, so formatting
/// then parsing is the identity on kinds.
pub proof fn lemma_kind_round_trip(k: Kind)
    ensures
        spec_parse_kind(spec_kind_str(k)) == Some(k),
{
    reveal_strlit("broadcast");
    reveal_strlit("meeting");
    reveal_strlit("moderated");
    reveal_strlit("test");
    reveal_strlit("H332");
    match k {
        Kind::Broadcast => {
            assert(spec_parse_kind("broadcast"@) == Some(Kind::Broadcast));
        },
        Kind::Meeting => {
            assert(("meeting"@).len() != ("broadcast"@).len());
            assert(spec_parse_kind("meeting"@) == Some(Kind::Meeting));
        },
        Kind::Moderated => {
            assert(("moderated"@)[0] != ("broadcast"@)[0]);
            assert(("moderated"@).len() != ("meeting"@).len());
            assert(spec_parse_kind("moderated"@) == Some(Kind::Moderated));
        },
        Kind::Test => {
            assert(("test"@).len() != ("broadcast"@).len());
            assert(("test"@).len() != ("meeting"@).len());
            assert(("test"@).len() != ("moderated"@).len());
            assert(spec_parse_kind("test"@) == Some(Kind::Test));
        },
        Kind::H332 => {
            assert(("H332"@).len() != ("broadcast"@).len());
            assert(("H332"@).len() != ("meeting"@).len());
            assert(("H332"@).len() != ("moderated"@).len());
            assert(("H332"@)[0] != ("test"@)[0]);
            assert(spec_parse_kind("H332"@) == Some(Kind::H332));
        },
    }
}

} // verus!
