//! What holds of every decomposition, whatever the declaration.

use crate::angle::{angle_depth, angle_run, closes_at, lemma_run_found, lemma_run_shape};
use crate::error::ParseError;
use crate::lookup::lookup_of;
use crate::roundtrip::{closed_type, lemma_tail_parts, splittable};
use crate::signature::{signature_of, signature_rest, SpecSignature};
use crate::token::SpecToken;
use vstd::prelude::*;

verus! {

/// Where the name is not followed by `<`, a declaration has no generic
/// clause, and the clause consumes nothing: the scan for the parameter list
/// begins right after the name.
pub proof fn law_no_angle_no_generics(tokens: Seq<SpecToken>)
    requires
        tokens.len() <= 2 || !tokens[2].is_punct('<'),
    ensures
        signature_of(tokens) matches Ok(signature) ==> signature.generics is None,
        tokens.len() >= 2 && tokens[0] == SpecToken::Ident("fn"@) && tokens[1] is Ident
            ==> signature_of(tokens) == signature_rest(tokens, tokens[1]->Ident_0, None, 2),
{
    if signature_of(tokens) is Ok {
        lemma_tail_parts(tokens, tokens[1]->Ident_0, None, 2);
    }
}

/// A decomposed declaration has a generic clause just where a `<` follows
/// its name, and the clause is then the whole balanced run, from that `<` to
/// the `>` that closes it.
pub proof fn law_generics_are_the_run(tokens: Seq<SpecToken>)
    requires
        signature_of(tokens) is Ok,
    ensures
        signature_of(tokens)->Ok_0.generics is Some <==> tokens[2].is_punct('<'),
        signature_of(tokens)->Ok_0.generics matches Some(clause) ==> {
            &&& closes_at(tokens, 2, clause.len() as int)
            &&& clause == tokens.subrange(2, 2 + clause.len() as int)
            &&& clause.first().is_punct('<')
            &&& clause.last().is_punct('>')
        },
{
    let name = tokens[1]->Ident_0;
    if tokens.len() > 2 && tokens[2].is_punct('<') {
        let n = angle_run(tokens, 2)->Some_0;
        assert(closes_at(tokens, 2, n));
        lemma_run_shape(tokens, 2, n);
        lemma_tail_parts(tokens, name, Some(tokens.subrange(2, 2 + n)), 2 + n);
    } else {
        lemma_tail_parts(tokens, name, None, 2);
    }
}

/// Every decomposed declaration is well formed: each parameter has a type,
/// the return type is not empty, and the body is a brace group.
pub proof fn law_signature_well_formed(tokens: Seq<SpecToken>)
    requires
        signature_of(tokens) is Ok,
    ensures
        signature_of(tokens)->Ok_0.well_formed(),
{
    let name = tokens[1]->Ident_0;
    let signature = signature_of(tokens)->Ok_0;
    if tokens.len() > 2 && tokens[2].is_punct('<') {
        let n = angle_run(tokens, 2)->Some_0;
        lemma_tail_parts(tokens, name, Some(tokens.subrange(2, 2 + n)), 2 + n);
    } else {
        lemma_tail_parts(tokens, name, None, 2);
    }
    assert(splittable(signature.parameters));
    assert forall|i: int| 0 <= i < signature.parameters.len() implies (
    #[trigger] signature.parameters[i]).type_span.len() > 0 by {
        assert(closed_type(signature.parameters[i].type_span));
    }
}

/// A lookup has generic arguments just where a `<` follows its name; they
/// are then what stands between that `<` and the `>` that closes it.
pub proof fn law_lookup_arguments(tokens: Seq<SpecToken>)
    requires
        lookup_of(tokens) is Ok,
    ensures
        lookup_of(tokens)->Ok_0.name == tokens[0]->Ident_0,
        lookup_of(tokens)->Ok_0.generic_args is Some <==> tokens.len() > 1 && tokens[1].is_punct(
            '<',
        ),
        lookup_of(tokens)->Ok_0.generic_args matches Some(args) ==> {
            &&& closes_at(tokens, 1, args.len() as int + 2)
            &&& args == tokens.subrange(2, 2 + args.len() as int)
        },
{
    if tokens.len() > 1 && tokens[1].is_punct('<') {
        let n = angle_run(tokens, 1)->Some_0;
        assert(closes_at(tokens, 1, n));
        lemma_run_shape(tokens, 1, n);
    }
}

/// A failure names the first element that is missing, in reading order: the
/// keyword before the name, the name before everything after it.
pub proof fn law_first_failure(tokens: Seq<SpecToken>)
    ensures
        signature_of(tokens) == Err::<SpecSignature, ParseError>(
            ParseError::MissingKeyword,
        ) <==> (tokens.len() < 1 || tokens[0] != SpecToken::Ident("fn"@)),
        signature_of(tokens) == Err::<SpecSignature, ParseError>(
            ParseError::MissingName,
        ) <==> (tokens.len() >= 1 && tokens[0] == SpecToken::Ident("fn"@) && (tokens.len() < 2 || !(
        tokens[1] is Ident))),
{
}

/// Two sequences that differ at most in what their groups hold: token by
/// token they are equal, or both are groups.
pub open spec fn same_but_for_groups(a: Seq<SpecToken>, b: Seq<SpecToken>) -> bool {
    &&& a.len() == b.len()
    &&& forall|i: int| 0 <= i < a.len() ==> a[i] == b[i] || (a[i] is Group && b[i] is Group)
}

proof fn lemma_depth_ignores_groups(a: Seq<SpecToken>, b: Seq<SpecToken>, from: int, to: int)
    requires
        same_but_for_groups(a, b),
        0 <= from,
        to <= a.len(),
    ensures
        angle_depth(a, from, to) == angle_depth(b, from, to),
    decreases to - from,
{
    if from < to {
        lemma_depth_ignores_groups(a, b, from, to - 1);
    }
}

proof fn lemma_closes_ignores_groups(a: Seq<SpecToken>, b: Seq<SpecToken>, start: int, n: int)
    requires
        same_but_for_groups(a, b),
        closes_at(a, start, n),
    ensures
        closes_at(b, start, n),
{
    lemma_depth_ignores_groups(a, b, start, start + n);
    assert forall|end: int| start < end < start + n implies angle_depth(b, start, end) > 0 by {
        lemma_depth_ignores_groups(a, b, start, end);
    }
}

/// A group is opaque to the scanner: whatever its interior holds, angle
/// brackets too, the balanced run around it is the same.
pub proof fn law_groups_are_opaque(a: Seq<SpecToken>, b: Seq<SpecToken>, start: int)
    requires
        same_but_for_groups(a, b),
    ensures
        angle_run(a, start) == angle_run(b, start),
{
    if exists|n: int| closes_at(a, start, n) {
        let n = choose|n: int| closes_at(a, start, n);
        lemma_closes_ignores_groups(a, b, start, n);
        lemma_run_found(b, start, n);
    } else if exists|n: int| closes_at(b, start, n) {
        let n = choose|n: int| closes_at(b, start, n);
        lemma_closes_ignores_groups(b, a, start, n);
    }
}

} // verus!
