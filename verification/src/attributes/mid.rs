//! The media-identification attribute: a single token naming a media
//! description, kept as it stands.

use vstd::prelude::*;

use crate::errors::ParseError;

verus! {

/// The identification tag of a media description, as the `mid` attribute
/// carries it.
#[derive(Debug, PartialEq, Eq)]
pub struct Mid {
    pub token: String,
}

impl View for Mid {
    type V = Seq<char>;

    open spec fn view(&self) -> Seq<char> {
        self.token@
    }
}

impl Mid {
    /// Take the whole value text as the tag.  The grammar has no arity and
    /// no numeric field, so this never fails.
    pub fn try_from(value: &str) -> (r: Result<Mid, ParseError>)
        ensures
            r matches Ok(m) && m@ == value@,
    {
        Ok(Mid { token: value.to_owned() })
    }
}

} // verus!
