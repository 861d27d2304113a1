//! The lookup resolver: a bare name, optionally followed by a generic
//! argument clause, names the metadata of the function so called.

use crate::angle::{angle_run, scan_angle};
use crate::error::ParseError;
use crate::token::{copy_tokens, view_tokens, SpecToken, Token};
use vstd::prelude::*;

verus! {

/// A reference to a function's metadata.
#[derive(Debug, PartialEq, Eq)]
pub struct LookupRequest {
    /// The function's name.
    pub name: String,
    /// The generic arguments, without the angle tokens around them, where
    /// the name is followed by a clause.
    pub generic_args: Option<Vec<Token>>,
}

/// The mathematical value of a lookup.
pub struct SpecLookup {
    pub name: Seq<char>,
    pub generic_args: Option<Seq<SpecToken>>,
}

impl View for LookupRequest {
    type V = SpecLookup;

    open spec fn view(&self) -> SpecLookup {
        SpecLookup {
            name: self.name@,
            generic_args: match self.generic_args {
                Some(args) => Some(view_tokens(args@)),
                None => None,
            },
        }
    }
}

impl Clone for LookupRequest {
    fn clone(&self) -> (copy: LookupRequest)
        ensures
            copy@ == self@,
    {
        LookupRequest {
            name: self.name.clone(),
            generic_args: match &self.generic_args {
                Some(args) => Some(copy_tokens(args)),
                None => None,
            },
        }
    }
}

/// What a lookup resolves to, or why it does not: the name, and the interior
/// of the balanced run where a `<` follows the name. Tokens after the name,
/// or after the run, are not read.
pub open spec fn lookup_of(tokens: Seq<SpecToken>) -> Result<SpecLookup, ParseError> {
    if tokens.len() < 1 || !(tokens[0] is Ident) {
        Err(ParseError::MissingName)
    } else if tokens.len() > 1 && tokens[1].is_punct('<') {
        match angle_run(tokens, 1) {
            None => Err(ParseError::UnbalancedGenerics),
            Some(n) => Ok(
                SpecLookup {
                    name: tokens[0]->Ident_0,
                    generic_args: Some(tokens.subrange(2, n)),
                },
            ),
        }
    } else {
        Ok(SpecLookup { name: tokens[0]->Ident_0, generic_args: None })
    }
}

/// Resolves a lookup: a name, then an optional generic argument clause.
pub fn resolve(tokens: &Vec<Token>) -> (r: Result<LookupRequest, ParseError>)
    ensures
        match r {
            Ok(lookup) => lookup_of(view_tokens(tokens@)) == Ok::<SpecLookup, ParseError>(lookup@),
            Err(e) => lookup_of(view_tokens(tokens@)) == Err::<SpecLookup, ParseError>(e),
        },
{
    if tokens.len() < 1 {
        return Err(ParseError::MissingName);
    }
    let name = match &tokens[0] {
        Token::Ident(text) => text.clone(),
        _ => {
            return Err(ParseError::MissingName);
        },
    };
    if tokens.len() > 1 && tokens[1].is_punct('<') {
        match scan_angle(tokens, 1) {
            Ok((interior, _)) => Ok(LookupRequest { name, generic_args: Some(interior) }),
            Err(e) => Err(e),
        }
    } else {
        Ok(LookupRequest { name, generic_args: None })
    }
}

} // verus!
