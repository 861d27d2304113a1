//! What is cut out can be put back: the parts of a decomposed declaration,
//! written out again in order, decompose into the same parts.

use crate::angle::{angle_depth, angle_run, closes_at, lemma_depth_shift, lemma_run_found};
use crate::error::ParseError;
use crate::params::{
    is_first_separator, is_separator, lemma_type_end_at, lemma_type_end_none, parameters_of,
    split_from, type_end, SpecParameter,
};
use crate::signature::{
    first_group, is_first_group, lemma_first_group_at, return_type_of, signature_of,
    signature_rest, starts_with_arrow, SpecSignature,
};
use crate::token::{Delimiter, SpecToken};
use vstd::prelude::*;

verus! {

/// One parameter written out: its name, a colon, its type.
pub open spec fn emit_parameter(parameter: SpecParameter) -> Seq<SpecToken> {
    seq![SpecToken::Ident(parameter.name), SpecToken::Punct(':')] + parameter.type_span
}

/// A parameter list written out: the parameters in order, a comma between
/// each two.
pub open spec fn emit_parameters(parameters: Seq<SpecParameter>) -> Seq<SpecToken>
    decreases parameters.len(),
{
    if parameters.len() == 0 {
        Seq::empty()
    } else if parameters.len() == 1 {
        emit_parameter(parameters[0])
    } else {
        emit_parameter(parameters[0]) + seq![SpecToken::Punct(',')] + emit_parameters(
            parameters.skip(1),
        )
    }
}

/// A type that can stand in a parameter list: it is not empty and holds no
/// comma at its top level.
pub open spec fn closed_type(type_span: Seq<SpecToken>) -> bool {
    &&& type_span.len() > 0
    &&& forall|at: int| 0 <= at < type_span.len() ==> !is_separator(type_span, 0, at)
}

/// A parameter list that can be written out and split again: every type is
/// closed, and every type but the last leaves no angle run open, so that the
/// comma after it separates.
pub open spec fn splittable(parameters: Seq<SpecParameter>) -> bool {
    forall|i: int|
        0 <= i < parameters.len() ==> {
            &&& closed_type((#[trigger] parameters[i]).type_span)
            &&& i + 1 < parameters.len() ==> angle_depth(
                parameters[i].type_span,
                0,
                parameters[i].type_span.len() as int,
            ) == 0
        }
}

/// Separators are found by the tokens of the type alone: a stretch of one
/// sequence that equals a type holds a separator where the type holds one.
proof fn lemma_separator_shift(
    tokens: Seq<SpecToken>,
    from: int,
    type_span: Seq<SpecToken>,
    at: int,
)
    requires
        0 <= from,
        from + type_span.len() <= tokens.len(),
        tokens.subrange(from, from + type_span.len()) == type_span,
        from <= at < from + type_span.len(),
    ensures
        is_separator(tokens, from, at) == is_separator(type_span, 0, at - from),
{
    let n = at - from;
    assert(tokens.subrange(from, from + n) =~= type_span.subrange(0, n));
    lemma_depth_shift(tokens, from, type_span, 0, n);
    assert(tokens[at] == tokens.subrange(from, from + type_span.len())[n]);
}

/// Splitting what was written out gives the parameters back, whatever
/// stands in front of them.
pub proof fn lemma_split_emitted(front: Seq<SpecToken>, parameters: Seq<SpecParameter>)
    requires
        splittable(parameters),
    ensures
        split_from(front + emit_parameters(parameters), front.len() as int) == Some(parameters),
    decreases parameters.len(),
{
    let s = front + emit_parameters(parameters);
    let pos = front.len() as int;
    if parameters.len() == 0 {
        assert(s =~= front);
        assert(parameters =~= Seq::<SpecParameter>::empty());
    } else {
        let first = parameters[0];
        let ty = first.type_span;
        let end = pos + 2 + ty.len();
        assert(closed_type(ty));
        let rest = parameters.skip(1);
        assert(s[pos] == SpecToken::Ident(first.name));
        assert(s[pos + 1] == SpecToken::Punct(':'));
        assert(s.subrange(pos + 2, end) =~= ty);
        let from = pos + 2;
        assert forall|at: int| from <= at < end implies !is_separator(s, from, at) by {
            lemma_separator_shift(s, from, ty, at);
        }
        if parameters.len() == 1 {
            assert(s.len() == end);
            lemma_type_end_none(s, pos + 2);
            assert(rest =~= Seq::<SpecParameter>::empty());
            assert(split_from(s, end) == Some(Seq::<SpecParameter>::empty()));
            assert(seq![first] + Seq::<SpecParameter>::empty() =~= parameters);
        } else {
            let longer = front + emit_parameter(first) + seq![SpecToken::Punct(',')];
            assert(s =~= longer + emit_parameters(rest));
            assert(s[end] == SpecToken::Punct(','));
            assert(ty.subrange(0, ty.len() as int) =~= ty);
            lemma_depth_shift(s, pos + 2, ty, 0, ty.len() as int);
            assert(is_first_separator(s, pos + 2, end));
            lemma_type_end_at(s, pos + 2, end);
            assert forall|i: int| 0 <= i < rest.len() implies {
                &&& closed_type((#[trigger] rest[i]).type_span)
                &&& i + 1 < rest.len() ==> angle_depth(
                    rest[i].type_span,
                    0,
                    rest[i].type_span.len() as int,
                ) == 0
            } by {
                assert(rest[i] == parameters[i + 1]);
            }
            lemma_split_emitted(longer, rest);
            assert(longer.len() == end + 1);
            assert(seq![first] + rest =~= parameters);
        }
    }
}

/// What a split returns can be written out and split again, and written out
/// it is the input from the position of the split on, but for a comma that
/// may close the input.
pub proof fn lemma_split_sound(tokens: Seq<SpecToken>, pos: int)
    requires
        0 <= pos <= tokens.len(),
        split_from(tokens, pos) is Some,
    ensures
        splittable(split_from(tokens, pos)->Some_0),
        ({
            let written = emit_parameters(split_from(tokens, pos)->Some_0);
            tokens.skip(pos) == written || tokens.skip(pos) == written + seq![SpecToken::Punct(',')]
        }),
    decreases tokens.len() - pos,
{
    let parameters = split_from(tokens, pos)->Some_0;
    if pos >= tokens.len() {
        assert(tokens.skip(pos) =~= emit_parameters(parameters));
    } else {
        let from = pos + 2;
        let end = type_end(tokens, from);
        let next = if end < tokens.len() {
            end + 1
        } else {
            end
        };
        let first = SpecParameter {
            name: tokens[pos]->Ident_0,
            type_span: tokens.subrange(from, end),
        };
        let ty = first.type_span;
        let rest = split_from(tokens, next)->Some_0;
        assert(parameters == seq![first] + rest);
        lemma_split_sound(tokens, next);
        // the type holds no separator
        assert forall|at: int| 0 <= at < ty.len() implies !is_separator(ty, 0, at) by {
            assert(tokens.subrange(from, from + ty.len()) == ty);
            lemma_separator_shift(tokens, from, ty, from + at);
            if exists|sep: int| is_first_separator(tokens, from, sep) {
                assert(!is_separator(tokens, from, from + at));
            } else {
                if is_separator(tokens, from, from + at) {
                    lemma_first_separator_exists(tokens, from, from + at);
                }
            }
        }
        assert(closed_type(ty));
        if end < tokens.len() {
            assert(is_first_separator(tokens, from, end));
            assert(ty.subrange(0, ty.len() as int) =~= ty);
            lemma_depth_shift(tokens, from, ty, 0, ty.len() as int);
        }
        assert forall|i: int| 0 <= i < parameters.len() implies {
            &&& closed_type((#[trigger] parameters[i]).type_span)
            &&& i + 1 < parameters.len() ==> angle_depth(
                parameters[i].type_span,
                0,
                parameters[i].type_span.len() as int,
            ) == 0
        } by {
            if i > 0 {
                assert(parameters[i] == rest[i - 1]);
            } else {
                if 1 < parameters.len() {
                    assert(rest.len() > 0);
                    assert(next < tokens.len());
                }
            }
        }
        let written_rest = emit_parameters(rest);
        assert(parameters.skip(1) =~= rest);
        assert(tokens.skip(pos) =~= emit_parameter(first) + tokens.skip(end));
        if rest.len() == 0 {
            assert(emit_parameters(parameters) == emit_parameter(first));
            if end < tokens.len() {
                assert(next >= tokens.len());
                assert(tokens.skip(end) =~= seq![SpecToken::Punct(',')]);
            } else {
                assert(tokens.skip(end) =~= Seq::<SpecToken>::empty());
                assert(tokens.skip(pos) =~= emit_parameter(first));
            }
        } else {
            assert(tokens.skip(end) =~= seq![SpecToken::Punct(',')] + tokens.skip(next));
            assert(emit_parameters(parameters) == emit_parameter(first) + seq![
                SpecToken::Punct(','),
            ] + written_rest);
            if tokens.skip(next) == written_rest {
                assert(tokens.skip(pos) =~= emit_parameters(parameters));
            } else {
                assert(tokens.skip(pos) =~= emit_parameters(parameters) + seq![
                    SpecToken::Punct(','),
                ]);
            }
        }
    }
}

/// Where a separator stands, there is a first one.
proof fn lemma_first_separator_exists(tokens: Seq<SpecToken>, from: int, at: int)
    requires
        is_separator(tokens, from, at),
    ensures
        exists|first: int| is_first_separator(tokens, from, first),
    decreases at - from,
{
    if exists|before: int| from <= before < at && is_separator(tokens, from, before) {
        let before = choose|before: int| from <= before < at && is_separator(tokens, from, before);
        lemma_first_separator_exists(tokens, from, before);
    } else {
        assert(is_first_separator(tokens, from, at));
    }
}

/// Splitting a parameter list, writing the parameters out and splitting
/// again gives the same parameters.
pub proof fn law_split_again(tokens: Seq<SpecToken>)
    requires
        parameters_of(tokens) is Some,
    ensures
        parameters_of(emit_parameters(parameters_of(tokens)->Some_0)) == parameters_of(tokens),
{
    let parameters = parameters_of(tokens)->Some_0;
    lemma_split_sound(tokens, 0);
    lemma_split_emitted(Seq::empty(), parameters);
    assert(Seq::<SpecToken>::empty() + emit_parameters(parameters) =~= emit_parameters(
        parameters,
    ));
}

/// A declaration written out from its parts: the keyword, the name, the
/// generic clause where there is one, the parameter list in parentheses, an
/// arrow, the return type, and the body.
pub open spec fn emit_signature(signature: SpecSignature) -> Seq<SpecToken> {
    seq![SpecToken::Ident("fn"@), SpecToken::Ident(signature.name)] + match signature.generics {
        Some(clause) => clause,
        None => Seq::empty(),
    } + seq![SpecToken::Group(Delimiter::Parenthesis, emit_parameters(signature.parameters))]
        + seq![SpecToken::Punct('-'), SpecToken::Punct('>')] + signature.return_type
        + seq![signature.body]
}

/// The return type of a decomposed declaration is not empty and holds no
/// brace group; its body is a brace group; its parameters can be written out
/// and split again.
pub proof fn lemma_tail_parts(
    tokens: Seq<SpecToken>,
    name: Seq<char>,
    generics: Option<Seq<SpecToken>>,
    pos: int,
)
    requires
        0 <= pos,
        signature_rest(tokens, name, generics, pos) is Ok,
    ensures
        ({
            let signature = signature_rest(tokens, name, generics, pos)->Ok_0;
            &&& signature.name == name
            &&& signature.generics == generics
            &&& splittable(signature.parameters)
            &&& signature.return_type.len() > 0
            &&& forall|i: int|
                0 <= i < signature.return_type.len() ==> !(#[trigger] signature.return_type[i]).is_group(
                    Delimiter::Brace,
                )
            &&& signature.body.is_group(Delimiter::Brace)
        }),
{
    let signature = signature_rest(tokens, name, generics, pos)->Ok_0;
    let list = first_group(tokens, Delimiter::Parenthesis, pos)->Some_0;
    assert(is_first_group(tokens, Delimiter::Parenthesis, pos, list));
    let inner = tokens[list]->Group_1;
    lemma_split_sound(inner, 0);
    let body = first_group(tokens, Delimiter::Brace, list + 1)->Some_0;
    assert(is_first_group(tokens, Delimiter::Brace, list + 1, body));
    let post = tokens.subrange(list + 1, body);
    assert forall|i: int| 0 <= i < post.len() implies !(#[trigger] post[i]).is_group(
        Delimiter::Brace,
    ) by {
        assert(post[i] == tokens[list + 1 + i]);
    }
    let declared = if starts_with_arrow(post) {
        post.skip(2)
    } else {
        post
    };
    assert forall|i: int| 0 <= i < declared.len() implies !(#[trigger] declared[i]).is_group(
        Delimiter::Brace,
    ) by {
        if starts_with_arrow(post) {
            assert(declared[i] == post[i + 2]);
        }
    }
    assert(signature.return_type == return_type_of(declared));
}

/// A declaration written out from parts of the right kind decomposes into
/// those parts, the scan for the parameter list beginning right after what
/// stands in front of it.
pub proof fn lemma_rest_emitted(
    front: Seq<SpecToken>,
    name: Seq<char>,
    generics: Option<Seq<SpecToken>>,
    parameters: Seq<SpecParameter>,
    return_type: Seq<SpecToken>,
    body: SpecToken,
)
    requires
        splittable(parameters),
        return_type.len() > 0,
        forall|i: int|
            0 <= i < return_type.len() ==> !(#[trigger] return_type[i]).is_group(Delimiter::Brace),
        body.is_group(Delimiter::Brace),
    ensures
        signature_rest(
            front + seq![SpecToken::Group(Delimiter::Parenthesis, emit_parameters(parameters))]
                + seq![SpecToken::Punct('-'), SpecToken::Punct('>')] + return_type + seq![body],
            name,
            generics,
            front.len() as int,
        ) == Ok::<SpecSignature, ParseError>(
            SpecSignature { name, generics, parameters, return_type, body },
        ),
{
    let group = SpecToken::Group(Delimiter::Parenthesis, emit_parameters(parameters));
    let written = front + seq![group] + seq![SpecToken::Punct('-'), SpecToken::Punct('>')]
        + return_type + seq![body];
    let list = front.len() as int;
    let at = list + 3 + return_type.len();
    assert(written[list] == group);
    assert(is_first_group(written, Delimiter::Parenthesis, list, list));
    lemma_first_group_at(written, Delimiter::Parenthesis, list, list);
    lemma_split_emitted(Seq::empty(), parameters);
    assert(Seq::<SpecToken>::empty() + emit_parameters(parameters) =~= emit_parameters(
        parameters,
    ));
    assert(written[at] == body);
    assert(written[list + 1] == SpecToken::Punct('-'));
    assert(written[list + 2] == SpecToken::Punct('>'));
    assert forall|before: int| list + 1 <= before < at implies !(#[trigger] written[before]).is_group(
        Delimiter::Brace,
    ) by {
        if before >= list + 3 {
            assert(written[before] == return_type[before - list - 3]);
        }
    }
    assert(is_first_group(written, Delimiter::Brace, list + 1, at));
    lemma_first_group_at(written, Delimiter::Brace, list + 1, at);
    let post = written.subrange(list + 1, at);
    assert(post[0] == written[list + 1]);
    assert(post[1] == written[list + 2]);
    assert(starts_with_arrow(post));
    assert(post.skip(2) =~= return_type);
}

/// Decomposing a declaration, writing its parts out in order and decomposing
/// again gives the same parts: every span comes back token for token.
pub proof fn law_decompose_again(tokens: Seq<SpecToken>)
    requires
        signature_of(tokens) is Ok,
    ensures
        signature_of(emit_signature(signature_of(tokens)->Ok_0)) == signature_of(tokens),
{
    let signature = signature_of(tokens)->Ok_0;
    let name = tokens[1]->Ident_0;
    let written = emit_signature(signature);
    let head = seq![SpecToken::Ident("fn"@), SpecToken::Ident(name)];
    if tokens.len() > 2 && tokens[2].is_punct('<') {
        let n = angle_run(tokens, 2)->Some_0;
        let clause = tokens.subrange(2, 2 + n);
        assert(closes_at(tokens, 2, n));
        lemma_tail_parts(tokens, name, Some(clause), 2 + n);
        let front = head + clause;
        assert(written =~= front + seq![
            SpecToken::Group(Delimiter::Parenthesis, emit_parameters(signature.parameters)),
        ] + seq![SpecToken::Punct('-'), SpecToken::Punct('>')] + signature.return_type + seq![
            signature.body,
        ]);
        lemma_rest_emitted(
            front,
            name,
            Some(clause),
            signature.parameters,
            signature.return_type,
            signature.body,
        );
        assert(written[0] == SpecToken::Ident("fn"@));
        assert(written[1] == SpecToken::Ident(name));
        assert(written[2] == clause[0]);
        assert forall|end: int| 2 <= end <= 2 + n implies angle_depth(written, 2, end)
            == angle_depth(tokens, 2, end) by {
            assert(written.subrange(2, end) =~= tokens.subrange(2, end));
            lemma_depth_shift(written, 2, tokens, 2, end - 2);
        }
        assert(closes_at(written, 2, n));
        lemma_run_found(written, 2, n);
        assert(written.subrange(2, 2 + n) =~= clause);
    } else {
        lemma_tail_parts(tokens, name, None, 2);
        assert(written =~= head + seq![
            SpecToken::Group(Delimiter::Parenthesis, emit_parameters(signature.parameters)),
        ] + seq![SpecToken::Punct('-'), SpecToken::Punct('>')] + signature.return_type + seq![
            signature.body,
        ]);
        lemma_rest_emitted(
            head,
            name,
            None,
            signature.parameters,
            signature.return_type,
            signature.body,
        );
        assert(written[0] == SpecToken::Ident("fn"@));
        assert(written[1] == SpecToken::Ident(name));
        assert(written[2] is Group);
    }
}

} // verus!
