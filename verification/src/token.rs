//! The token model: identifiers, single-character punctuation, literals and
//! delimited groups that own their children.

use vstd::prelude::*;

verus! {

/// The bracket kind of a delimited group.
#[derive(Clone, Copy, Debug, PartialEq, Eq, Structural)]
pub enum Delimiter {
    Parenthesis,
    Brace,
    Bracket,
}

/// One lexical unit of a declaration. A group is a single token whose
/// children are never looked into by a scan of the sequence that holds it.
#[derive(Debug, PartialEq, Eq)]
pub enum Token {
    Ident(String),
    Punct(char),
    Literal(String),
    Group(Delimiter, Vec<Token>),
}

/// The mathematical value of a token.
pub enum SpecToken {
    Ident(Seq<char>),
    Punct(char),
    Literal(Seq<char>),
    Group(Delimiter, Seq<SpecToken>),
}

impl View for Token {
    type V = SpecToken;

    open spec fn view(&self) -> SpecToken
        decreases self, 0nat,
    {
        match self {
            Token::Ident(text) => SpecToken::Ident(text@),
            Token::Punct(ch) => SpecToken::Punct(*ch),
            Token::Literal(text) => SpecToken::Literal(text@),
            Token::Group(kind, children) => SpecToken::Group(
                *kind,
                view_prefix(children@, children@.len()),
            ),
        }
    }
}

/// The values of the first `n` tokens of a sequence, in order.
pub open spec fn view_prefix(tokens: Seq<Token>, n: nat) -> Seq<SpecToken>
    decreases tokens, n,
{
    if n == 0 || n > tokens.len() {
        Seq::empty()
    } else {
        view_prefix(tokens, (n - 1) as nat).push(tokens[n - 1]@)
    }
}

/// The mathematical value of a token sequence: the value of each token, in
/// order.
pub open spec fn view_tokens(tokens: Seq<Token>) -> Seq<SpecToken> {
    tokens.map_values(|t: Token| t@)
}

/// The first `n` values of a sequence, counted one by one, are the front of
/// its value.
proof fn lemma_view_prefix(tokens: Seq<Token>, n: nat)
    requires
        n <= tokens.len(),
    ensures
        view_prefix(tokens, n) == view_tokens(tokens).take(n as int),
    decreases n,
{
    let all = view_tokens(tokens);
    if n > 0 {
        lemma_view_prefix(tokens, (n - 1) as nat);
        assert(view_prefix(tokens, n) == view_prefix(tokens, (n - 1) as nat).push(tokens[n - 1]@));
        assert(all[n - 1] == tokens[n - 1]@);
        assert(all.take(n as int) =~= all.take(n - 1).push(all[n - 1]));
    } else {
        assert(view_prefix(tokens, n) =~= all.take(0));
    }
}

/// The children of a group are seen through `view_tokens`.
pub proof fn lemma_group_children(kind: Delimiter, children: Vec<Token>)
    ensures
        Token::Group(kind, children)@ == SpecToken::Group(kind, view_tokens(children@)),
{
    lemma_view_prefix(children@, children@.len());
    assert(view_tokens(children@).take(children@.len() as int) =~= view_tokens(children@));
}

impl SpecToken {
    /// Whether this token is the punctuation character `ch`.
    pub open spec fn is_punct(self, ch: char) -> bool {
        self == SpecToken::Punct(ch)
    }

    /// Whether this token is a group delimited by `kind`.
    pub open spec fn is_group(self, kind: Delimiter) -> bool {
        self matches SpecToken::Group(k, _) && k == kind
    }
}

impl Clone for Token {
    /// An owned copy of this token, children included.
    fn clone(&self) -> (copy: Token)
        ensures
            copy@ == self@,
        decreases self,
    {
        match self {
            Token::Ident(text) => Token::Ident(text.clone()),
            Token::Punct(ch) => Token::Punct(*ch),
            Token::Literal(text) => Token::Literal(text.clone()),
            Token::Group(kind, children) => {
                let mut copies: Vec<Token> = Vec::new();
                let mut i: usize = 0;
                while i < children.len()
                    invariant
                        *self == Token::Group(*kind, *children),
                        i <= children.len(),
                        copies.len() == i,
                        forall|j: int| 0 <= j < i ==> copies[j]@ == children[j]@,
                    decreases children.len() - i,
                {
                    proof {
                        assert(decreases_to!(*self => self->Group_1));
                        assert(decreases_to!(*children => children[i as int]));
                    }
                    copies.push(children[i].clone());
                    i += 1;
                }
                proof {
                    assert(view_tokens(copies@) =~= view_tokens(children@));
                    lemma_group_children(*kind, copies);
                    lemma_group_children(*kind, *children);
                }
                Token::Group(*kind, copies)
            },
        }
    }
}

impl Token {
    /// Whether this token is the punctuation character `ch`.
    pub fn is_punct(&self, ch: char) -> (yes: bool)
        ensures
            yes == self@.is_punct(ch),
    {
        match self {
            Token::Punct(c) => *c == ch,
            _ => false,
        }
    }

    /// Whether this token is a group delimited by `kind`.
    pub fn is_group(&self, kind: Delimiter) -> (yes: bool)
        ensures
            yes == self@.is_group(kind),
    {
        match self {
            Token::Group(k, _) => *k == kind,
            _ => false,
        }
    }
}

/// An owned copy of the tokens at positions `from..to`.
pub fn copy_span(tokens: &Vec<Token>, from: usize, to: usize) -> (span: Vec<Token>)
    requires
        from <= to <= tokens.len(),
    ensures
        view_tokens(span@) == view_tokens(tokens@).subrange(from as int, to as int),
{
    let mut span: Vec<Token> = Vec::new();
    let mut i: usize = from;
    while i < to
        invariant
            from <= i <= to <= tokens.len(),
            span.len() == i - from,
            forall|j: int| 0 <= j < span.len() ==> span[j]@ == tokens[from + j]@,
        decreases to - i,
    {
        span.push(tokens[i].clone());
        i += 1;
    }
    assert(view_tokens(span@) =~= view_tokens(tokens@).subrange(from as int, to as int));
    span
}

/// An owned copy of a token sequence.
pub fn copy_tokens(tokens: &Vec<Token>) -> (copy: Vec<Token>)
    ensures
        view_tokens(copy@) == view_tokens(tokens@),
{
    let copy = copy_span(tokens, 0, tokens.len());
    assert(view_tokens(tokens@).subrange(0, tokens.len() as int) =~= view_tokens(tokens@));
    copy
}

} // verus!
