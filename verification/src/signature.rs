//! The signature assembler: a declaration is cut, in one pass from left to
//! right, into its name, generic clause, parameters, return type and body.

use crate::angle::{angle_run, closes_at, scan_angle};
use crate::error::ParseError;
use crate::params::{parameters_of, split_parameters, view_parameters, Parameter, SpecParameter};
use crate::token::{
    copy_span, copy_tokens, lemma_group_children, view_tokens, Delimiter, SpecToken, Token,
};
use vstd::prelude::*;

verus! {

/// A declaration, decomposed.
#[derive(Debug, PartialEq, Eq)]
pub struct ParsedSignature {
    /// The function's name.
    pub name: String,
    /// The generic clause, angle tokens included, where the name is followed
    /// by one.
    pub generics: Option<Vec<Token>>,
    /// The parameters, in the order in which they are declared.
    pub parameters: Vec<Parameter>,
    /// The return type; the unit type where the declaration names none.
    pub return_type: Vec<Token>,
    /// The body: a brace group, kept as it is.
    pub body: Token,
}

/// The mathematical value of a decomposed declaration.
pub struct SpecSignature {
    pub name: Seq<char>,
    pub generics: Option<Seq<SpecToken>>,
    pub parameters: Seq<SpecParameter>,
    pub return_type: Seq<SpecToken>,
    pub body: SpecToken,
}

impl View for ParsedSignature {
    type V = SpecSignature;

    open spec fn view(&self) -> SpecSignature {
        SpecSignature {
            name: self.name@,
            generics: match self.generics {
                Some(clause) => Some(view_tokens(clause@)),
                None => None,
            },
            parameters: view_parameters(self.parameters@),
            return_type: view_tokens(self.return_type@),
            body: self.body@,
        }
    }
}

impl Clone for ParsedSignature {
    fn clone(&self) -> (copy: ParsedSignature)
        ensures
            copy@ == self@,
    {
        let generics = match &self.generics {
            Some(clause) => Some(copy_tokens(clause)),
            None => None,
        };
        let mut parameters: Vec<Parameter> = Vec::new();
        let mut i: usize = 0;
        while i < self.parameters.len()
            invariant
                i <= self.parameters.len(),
                parameters.len() == i,
                forall|j: int| 0 <= j < i ==> parameters[j]@ == self.parameters[j]@,
            decreases self.parameters.len() - i,
        {
            parameters.push(self.parameters[i].clone());
            i += 1;
        }
        assert(view_parameters(parameters@) =~= view_parameters(self.parameters@));
        ParsedSignature {
            name: self.name.clone(),
            generics,
            parameters,
            return_type: copy_tokens(&self.return_type),
            body: self.body.clone(),
        }
    }
}

impl SpecSignature {
    /// What holds of every decomposed declaration: each parameter has a
    /// type, the return type is not empty, and the body is a brace group.
    pub open spec fn well_formed(self) -> bool {
        &&& forall|i: int|
            0 <= i < self.parameters.len() ==> (#[trigger] self.parameters[i]).type_span.len() > 0
        &&& self.return_type.len() > 0
        &&& self.body.is_group(Delimiter::Brace)
    }
}

/// The unit type: an empty parenthesis group.
pub open spec fn unit_type() -> SpecToken {
    SpecToken::Group(Delimiter::Parenthesis, Seq::empty())
}

/// The return type that a span stands for: the span itself, or the unit type
/// where the span is empty.
pub open spec fn return_type_of(span: Seq<SpecToken>) -> Seq<SpecToken> {
    if span.len() == 0 {
        seq![unit_type()]
    } else {
        span
    }
}

/// The span begins with the two tokens of an arrow, `-` and `>`.
pub open spec fn starts_with_arrow(span: Seq<SpecToken>) -> bool {
    &&& span.len() >= 2
    &&& span[0].is_punct('-')
    &&& span[1].is_punct('>')
}

/// `at` is the first position at or after `from` that holds a group
/// delimited by `kind`.
pub open spec fn is_first_group(tokens: Seq<SpecToken>, kind: Delimiter, from: int, at: int) -> bool {
    &&& 0 <= from <= at < tokens.len()
    &&& tokens[at].is_group(kind)
    &&& forall|before: int| from <= before < at ==> !(#[trigger] tokens[before]).is_group(kind)
}

/// The position of the first group delimited by `kind` at or after `from`.
pub open spec fn first_group(tokens: Seq<SpecToken>, kind: Delimiter, from: int) -> Option<int> {
    if exists|at: int| is_first_group(tokens, kind, from, at) {
        Some(choose|at: int| is_first_group(tokens, kind, from, at))
    } else {
        None
    }
}

/// The first group is found at one position only.
pub proof fn lemma_first_group_at(tokens: Seq<SpecToken>, kind: Delimiter, from: int, at: int)
    requires
        is_first_group(tokens, kind, from, at),
    ensures
        first_group(tokens, kind, from) == Some(at),
{
    let other = choose|other: int| is_first_group(tokens, kind, from, other);
    if other < at {
        assert(!tokens[other].is_group(kind));
    } else if at < other {
        assert(!tokens[at].is_group(kind));
    }
}

/// The parts that follow the parameter list at `list`: the return type and
/// the body, or the failure where no brace group follows.
pub open spec fn signature_tail(
    tokens: Seq<SpecToken>,
    name: Seq<char>,
    generics: Option<Seq<SpecToken>>,
    parameters: Seq<SpecParameter>,
    list: int,
) -> Result<SpecSignature, ParseError> {
    match first_group(tokens, Delimiter::Brace, list + 1) {
        None => Err(ParseError::MissingBody),
        Some(body) => {
            let post = tokens.subrange(list + 1, body);
            let declared = if starts_with_arrow(post) {
                post.skip(2)
            } else {
                post
            };
            Ok(
                SpecSignature {
                    name,
                    generics,
                    parameters,
                    return_type: return_type_of(declared),
                    body: tokens[body],
                },
            )
        },
    }
}

/// The parts from the parameter list on, the scan for it beginning at `pos`.
pub open spec fn signature_rest(
    tokens: Seq<SpecToken>,
    name: Seq<char>,
    generics: Option<Seq<SpecToken>>,
    pos: int,
) -> Result<SpecSignature, ParseError> {
    match first_group(tokens, Delimiter::Parenthesis, pos) {
        None => Err(ParseError::MissingParameterList),
        Some(list) => match parameters_of(tokens[list]->Group_1) {
            None => Err(ParseError::MalformedParameter),
            Some(parameters) => signature_tail(tokens, name, generics, parameters, list),
        },
    }
}

/// What a declaration decomposes into, or why it does not. The decisions are
/// taken in this order: the `fn` keyword; the name; a generic clause where a
/// `<` follows the name; the first parenthesis group, whose interior is split
/// into parameters; the first brace group after it, which is the body; and,
/// between the two, the return type, an arrow in front of it dropped.
pub open spec fn signature_of(tokens: Seq<SpecToken>) -> Result<SpecSignature, ParseError> {
    if tokens.len() < 1 || tokens[0] != SpecToken::Ident("fn"@) {
        Err(ParseError::MissingKeyword)
    } else if tokens.len() < 2 || !(tokens[1] is Ident) {
        Err(ParseError::MissingName)
    } else if tokens.len() > 2 && tokens[2].is_punct('<') {
        match angle_run(tokens, 2) {
            None => Err(ParseError::UnbalancedGenerics),
            Some(n) => signature_rest(
                tokens,
                tokens[1]->Ident_0,
                Some(tokens.subrange(2, 2 + n)),
                2 + n,
            ),
        }
    } else {
        signature_rest(tokens, tokens[1]->Ident_0, None, 2)
    }
}

/// The return type that the span between parameter list and body stands for:
/// the span as it is, or the unit type where it is empty.
pub fn scan_return(span: &Vec<Token>) -> (return_type: Vec<Token>)
    ensures
        view_tokens(return_type@) == return_type_of(view_tokens(span@)),
{
    if span.len() == 0 {
        let mut unit: Vec<Token> = Vec::new();
        let inner: Vec<Token> = Vec::new();
        proof {
            lemma_group_children(Delimiter::Parenthesis, inner);
            assert(view_tokens(inner@) =~= Seq::<SpecToken>::empty());
        }
        unit.push(Token::Group(Delimiter::Parenthesis, inner));
        assert(view_tokens(unit@) =~= seq![unit_type()]);
        unit
    } else {
        copy_tokens(span)
    }
}

/// Finds the first group delimited by `kind` at or after `from`.
fn find_group(tokens: &Vec<Token>, kind: Delimiter, from: usize) -> (found: Option<usize>)
    requires
        from <= tokens.len(),
    ensures
        match found {
            Some(at) => first_group(view_tokens(tokens@), kind, from as int) == Some(at as int)
                && from <= at < tokens.len(),
            None => first_group(view_tokens(tokens@), kind, from as int) is None,
        },
{
    let ghost s = view_tokens(tokens@);
    let mut i: usize = from;
    while i < tokens.len()
        invariant
            s == view_tokens(tokens@),
            from <= i <= tokens.len(),
            forall|before: int| from <= before < i ==> !(#[trigger] s[before]).is_group(kind),
        decreases tokens.len() - i,
    {
        if tokens[i].is_group(kind) {
            proof {
                lemma_first_group_at(s, kind, from as int, i as int);
            }
            return Some(i);
        }
        i += 1;
    }
    proof {
        assert forall|at: int| !is_first_group(s, kind, from as int, at) by {
            if from <= at < s.len() {
                assert(!s[at].is_group(kind));
            }
        }
    }
    None
}

/// Whether an identifier is the keyword that introduces a declaration.
fn is_fn_keyword(text: &String) -> (yes: bool)
    ensures
        yes == (text@ == "fn"@),
{
    let keyword = String::from_str("fn");
    *text == keyword
}

/// Decomposes a declaration. Fails with the first element that is missing or
/// malformed, in the order in which the declaration is read.
pub fn assemble(tokens: &Vec<Token>) -> (r: Result<ParsedSignature, ParseError>)
    ensures
        match r {
            Ok(signature) => {
                &&& signature_of(view_tokens(tokens@)) == Ok::<SpecSignature, ParseError>(
                    signature@,
                )
                &&& signature@.well_formed()
            },
            Err(e) => signature_of(view_tokens(tokens@)) == Err::<SpecSignature, ParseError>(e),
        },
{
    let ghost s = view_tokens(tokens@);
    if tokens.len() < 1 {
        return Err(ParseError::MissingKeyword);
    }
    match &tokens[0] {
        Token::Ident(text) => {
            if !is_fn_keyword(text) {
                return Err(ParseError::MissingKeyword);
            }
        },
        _ => {
            return Err(ParseError::MissingKeyword);
        },
    }
    if tokens.len() < 2 {
        return Err(ParseError::MissingName);
    }
    let name = match &tokens[1] {
        Token::Ident(text) => text.clone(),
        _ => {
            return Err(ParseError::MissingName);
        },
    };
    let mut generics: Option<Vec<Token>> = None;
    let mut pos: usize = 2;
    if tokens.len() > 2 && tokens[2].is_punct('<') {
        match scan_angle(tokens, 2) {
            Ok((_, consumed)) => {
                assert(closes_at(s, 2, consumed as int)) by {
                    let m = choose|m: int| closes_at(s, 2, m);
                    assert(m == consumed);
                }
                generics = Some(copy_span(tokens, 2, 2 + consumed));
                pos = 2 + consumed;
            },
            Err(e) => {
                return Err(e);
            },
        }
    }
    let list = match find_group(tokens, Delimiter::Parenthesis, pos) {
        Some(at) => at,
        None => {
            return Err(ParseError::MissingParameterList);
        },
    };
    let parameters = match &tokens[list] {
        Token::Group(kind, inner) => {
            proof {
                lemma_group_children(*kind, *inner);
            }
            match split_parameters(inner) {
                Ok(parameters) => parameters,
                Err(e) => {
                    return Err(e);
                },
            }
        },
        _ => {
            return Err(ParseError::MissingParameterList);
        },
    };
    let body_at = match find_group(tokens, Delimiter::Brace, list + 1) {
        Some(at) => at,
        None => {
            return Err(ParseError::MissingBody);
        },
    };
    let arrow = body_at - list >= 3 && tokens[list + 1].is_punct('-') && tokens[list + 2].is_punct(
        '>',
    );
    let declared = if arrow {
        copy_span(tokens, list + 3, body_at)
    } else {
        copy_span(tokens, list + 1, body_at)
    };
    proof {
        let post = s.subrange(list + 1, body_at as int);
        assert(arrow == starts_with_arrow(post));
        if arrow {
            assert(post.skip(2) =~= s.subrange(list + 3, body_at as int));
        }
    }
    let return_type = scan_return(&declared);
    let body = tokens[body_at].clone();
    proof {
        crate::laws::law_signature_well_formed(s);
    }
    Ok(ParsedSignature { name, generics, parameters, return_type, body })
}

} // verus!
