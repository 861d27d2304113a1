//! How punctuation is written out. A punctuation token holds one character
//! and nothing of the space around it, so whoever writes tokens out as text
//! has to decide where two of them touch. They touch where together they
//! begin an operator, and a quote touches the name of its lifetime.

use crate::token::{SpecToken, Token};
use vstd::prelude::*;

verus! {

/// The two characters, written without a space, are an operator or the
/// start of one.
pub open spec fn operator_pair(first: char, second: char) -> bool {
    match (first, second) {
        ('-', '>') | ('=', '>') => true,
        ('=', '=') | ('!', '=') | ('<', '=') | ('>', '=') => true,
        ('&', '&') | ('|', '|') => true,
        ('+', '=') | ('-', '=') | ('*', '=') | ('/', '=') | ('%', '=') => true,
        ('^', '=') | ('&', '=') | ('|', '=') => true,
        ('<', '<') | ('>', '>') => true,
        ('.', '.') | ('.', '=') | (':', ':') => true,
        _ => false,
    }
}

/// The punctuation character `ch` is written without a space before the
/// token `next`.
pub open spec fn joined_to(ch: char, next: SpecToken) -> bool {
    match next {
        SpecToken::Ident(_) => ch == '\'',
        SpecToken::Punct(after) => operator_pair(ch, after),
        _ => false,
    }
}

/// Whether the punctuation character `ch` is written without a space before
/// the token that follows it.
pub fn is_joined(ch: char, next: &Token) -> (yes: bool)
    ensures
        yes == joined_to(ch, next@),
{
    match next {
        Token::Ident(_) => ch == '\'',
        Token::Punct(after) => match (ch, *after) {
            ('-', '>') | ('=', '>') => true,
            ('=', '=') | ('!', '=') | ('<', '=') | ('>', '=') => true,
            ('&', '&') | ('|', '|') => true,
            ('+', '=') | ('-', '=') | ('*', '=') | ('/', '=') | ('%', '=') => true,
            ('^', '=') | ('&', '=') | ('|', '=') => true,
            ('<', '<') | ('>', '>') => true,
            ('.', '.') | ('.', '=') | (':', ':') => true,
            _ => false,
        },
        _ => false,
    }
}

} // verus!
