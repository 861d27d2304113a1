//! The ways in which a declaration or a lookup can fail to parse.

use vstd::prelude::*;

verus! {

/// Why a token sequence was rejected. Every failure is final for the
/// declaration or lookup at hand: nothing is recovered and no partial result
/// is produced.
#[derive(Clone, Copy, Debug, PartialEq, Eq, Structural)]
pub enum ParseError {
    /// The declaration does not begin with the `fn` keyword.
    MissingKeyword,
    /// The keyword, or the start of a lookup, is not followed by an identifier.
    MissingName,
    /// No parenthesis group follows the name and the generic clause.
    MissingParameterList,
    /// A parameter does not have the form name, colon, non-empty type.
    MalformedParameter,
    /// An angle-bracket run never returns to depth zero.
    UnbalancedGenerics,
    /// No brace group follows the parameter list.
    MissingBody,
}

impl ParseError {
    /// A message for the person who wrote the declaration, naming the
    /// construct that is missing or malformed.
    pub fn message(&self) -> (text: &'static str)
        ensures
            text@ == match *self {
                ParseError::MissingKeyword => "expected `fn` keyword"@,
                ParseError::MissingName => "expected function name"@,
                ParseError::MissingParameterList => "expected parameter list"@,
                ParseError::MalformedParameter => "expected `name: type` parameter"@,
                ParseError::UnbalancedGenerics => "expected `>` to close generics"@,
                ParseError::MissingBody => "expected function body"@,
            },
    {
        match self {
            ParseError::MissingKeyword => "expected `fn` keyword",
            ParseError::MissingName => "expected function name",
            ParseError::MissingParameterList => "expected parameter list",
            ParseError::MalformedParameter => "expected `name: type` parameter",
            ParseError::UnbalancedGenerics => "expected `>` to close generics",
            ParseError::MissingBody => "expected function body",
        }
    }
}

} // verus!
