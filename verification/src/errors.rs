use vstd::prelude::*;

verus! {

/// The failures a parse can end in.  Every parsing function of this crate
/// states in its contract exactly which inputs produce which variant.
#[derive(Debug, PartialEq, Eq)]
pub enum ParseError {
    /// A fixed-arity split did not find enough separator-delimited parts.
    /// Carries the arity that was expected and the text that was split.
    Arity { expected: usize, input: String },
    /// A field that had to be a small unsigned integer did not parse as one.
    Numeric { input: String },
    /// A field that had to match a fixed closed set of literals matched none.
    Vocabulary { input: String },
    /// The connection address field is not a valid IPv4 or IPv6 literal.
    Address { input: String },
}

} // verus!
