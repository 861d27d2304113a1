//! The parameter-list splitter. The interior of a parenthesis group is cut
//! into `name : type` segments at its top-level commas. A comma inside a
//! group is invisible here, the group being one token; a comma inside an
//! angle run that the type itself opened does not separate. Depth is counted
//! anew for each type, and a `>` that closes no run, as in the arrow of a
//! function type, leaves it at zero.

use crate::angle::angle_depth;
use crate::error::ParseError;
use crate::token::{copy_span, copy_tokens, view_tokens, SpecToken, Token};
use vstd::prelude::*;

verus! {

/// One parameter of a declaration.
#[derive(Debug, PartialEq, Eq)]
pub struct Parameter {
    /// The parameter's name.
    pub name: String,
    /// The tokens of its type, verbatim.
    pub type_span: Vec<Token>,
}

/// The mathematical value of a parameter.
pub struct SpecParameter {
    pub name: Seq<char>,
    pub type_span: Seq<SpecToken>,
}

impl View for Parameter {
    type V = SpecParameter;

    open spec fn view(&self) -> SpecParameter {
        SpecParameter { name: self.name@, type_span: view_tokens(self.type_span@) }
    }
}

impl Clone for Parameter {
    fn clone(&self) -> (copy: Parameter)
        ensures
            copy@ == self@,
    {
        Parameter { name: self.name.clone(), type_span: copy_tokens(&self.type_span) }
    }
}

/// The mathematical value of a parameter list.
pub open spec fn view_parameters(parameters: Seq<Parameter>) -> Seq<SpecParameter> {
    parameters.map_values(|p: Parameter| p@)
}

/// The token at `at` is a comma, and no angle run opened since `from` is
/// still open there.
pub open spec fn is_separator(tokens: Seq<SpecToken>, from: int, at: int) -> bool {
    &&& from <= at < tokens.len()
    &&& tokens[at].is_punct(',')
    &&& angle_depth(tokens, from, at) == 0
}

/// `at` is the first separator at or after `from`.
pub open spec fn is_first_separator(tokens: Seq<SpecToken>, from: int, at: int) -> bool {
    &&& is_separator(tokens, from, at)
    &&& forall|before: int| from <= before < at ==> !is_separator(tokens, from, before)
}

/// Where the type that begins at `from` ends: at its first separator, or at
/// the end of the input where there is none.
pub open spec fn type_end(tokens: Seq<SpecToken>, from: int) -> int {
    if exists|at: int| is_first_separator(tokens, from, at) {
        choose|at: int| is_first_separator(tokens, from, at)
    } else {
        tokens.len() as int
    }
}

/// The parameters that the tokens from `pos` on spell, or none where they do
/// not follow the pattern: a name, a colon, a non-empty type, then a comma or
/// the end. A comma may close the list.
pub open spec fn split_from(tokens: Seq<SpecToken>, pos: int) -> Option<Seq<SpecParameter>>
    decreases tokens.len() - pos,
{
    if pos < 0 {
        None
    } else if pos >= tokens.len() {
        Some(Seq::empty())
    } else if !(tokens[pos] is Ident) {
        None
    } else if pos + 1 >= tokens.len() || !tokens[pos + 1].is_punct(':') {
        None
    } else {
        let end = type_end(tokens, pos + 2);
        if end <= pos + 2 || end > tokens.len() {
            None
        } else {
            let next = if end < tokens.len() {
                end + 1
            } else {
                end
            };
            let first = SpecParameter {
                name: tokens[pos]->Ident_0,
                type_span: tokens.subrange(pos + 2, end),
            };
            match split_from(tokens, next) {
                Some(rest) => Some(seq![first] + rest),
                None => None,
            }
        }
    }
}

/// The parameters that the interior of a parameter list spells.
pub open spec fn parameters_of(tokens: Seq<SpecToken>) -> Option<Seq<SpecParameter>> {
    split_from(tokens, 0)
}

/// A first separator is the end of the type.
pub proof fn lemma_type_end_at(tokens: Seq<SpecToken>, from: int, at: int)
    requires
        is_first_separator(tokens, from, at),
    ensures
        type_end(tokens, from) == at,
{
    let other = choose|other: int| is_first_separator(tokens, from, other);
    if other < at {
        assert(!is_separator(tokens, from, other));
    } else if at < other {
        assert(!is_separator(tokens, from, at));
    }
}

/// Where no position holds a separator, the type runs to the end.
pub proof fn lemma_type_end_none(tokens: Seq<SpecToken>, from: int)
    requires
        forall|at: int| from <= at < tokens.len() ==> !is_separator(tokens, from, at),
    ensures
        type_end(tokens, from) == tokens.len(),
{
}

/// Finds the end of the type that begins at `from`.
fn find_type_end(tokens: &Vec<Token>, from: usize) -> (end: usize)
    requires
        from <= tokens.len(),
    ensures
        from <= end <= tokens.len(),
        end == type_end(view_tokens(tokens@), from as int),
{
    let ghost s = view_tokens(tokens@);
    let mut depth: usize = 0;
    let mut i: usize = from;
    while i < tokens.len()
        invariant
            s == view_tokens(tokens@),
            from <= i <= tokens.len(),
            depth == angle_depth(s, from as int, i as int),
            depth <= i - from,
            forall|at: int| from <= at < i ==> !is_separator(s, from as int, at),
        decreases tokens.len() - i,
    {
        assert(angle_depth(s, from as int, i as int) == angle_depth(s, from as int, i + 1 - 1));
        if tokens[i].is_punct(',') && depth == 0 {
            proof {
                lemma_type_end_at(s, from as int, i as int);
            }
            return i;
        }
        if tokens[i].is_punct('<') {
            depth += 1;
        } else if tokens[i].is_punct('>') && depth > 0 {
            depth -= 1;
        }
        i += 1;
    }
    proof {
        lemma_type_end_none(s, from as int);
    }
    i
}

/// Splits the interior of a parameter list into its parameters, in the order
/// in which they are declared. Fails where a segment is not a name, a colon
/// and a non-empty type.
pub fn split_parameters(inner: &Vec<Token>) -> (r: Result<Vec<Parameter>, ParseError>)
    ensures
        match r {
            Ok(parameters) => parameters_of(view_tokens(inner@)) == Some(
                view_parameters(parameters@),
            ),
            Err(e) => e == ParseError::MalformedParameter && parameters_of(view_tokens(inner@))
                is None,
        },
{
    let ghost s = view_tokens(inner@);
    let mut parameters: Vec<Parameter> = Vec::new();
    let mut pos: usize = 0;
    while pos < inner.len()
        invariant
            s == view_tokens(inner@),
            pos <= inner.len(),
            parameters_of(s) == match split_from(s, pos as int) {
                Some(rest) => Some(view_parameters(parameters@) + rest),
                None => None,
            },
        decreases inner.len() - pos,
    {
        let name = match &inner[pos] {
            Token::Ident(text) => text.clone(),
            _ => {
                return Err(ParseError::MalformedParameter);
            },
        };
        if pos + 1 >= inner.len() || !inner[pos + 1].is_punct(':') {
            return Err(ParseError::MalformedParameter);
        }
        let end = find_type_end(inner, pos + 2);
        if end <= pos + 2 {
            return Err(ParseError::MalformedParameter);
        }
        let type_span = copy_span(inner, pos + 2, end);
        let next: usize = if end < inner.len() {
            end + 1
        } else {
            end
        };
        let parameter = Parameter { name, type_span };
        proof {
            let before = view_parameters(parameters@);
            let after = view_parameters(parameters@.push(parameter));
            assert(after =~= before + seq![parameter@]);
            match split_from(s, next as int) {
                Some(rest) => {
                    assert(before + (seq![parameter@] + rest) =~= after + rest);
                },
                None => {},
            }
        }
        parameters.push(parameter);
        pos = next;
    }
    proof {
        assert(view_parameters(parameters@) + Seq::<SpecParameter>::empty() =~= view_parameters(
            parameters@,
        ));
    }
    Ok(parameters)
}

} // verus!
