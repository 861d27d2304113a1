//! The metadata of a decomposed declaration: its name, its arity and the
//! names of its parameters by position; and the names under which the
//! metadata and the moved implementation are known.

use crate::lookup::LookupRequest;
use crate::signature::{ParsedSignature, SpecSignature};
use vstd::prelude::*;

verus! {

/// What is recorded of a function.
#[derive(Debug, PartialEq, Eq)]
pub struct FunctionShape {
    /// The function's name.
    pub name: String,
    /// The number of its parameters.
    pub param_count: usize,
    /// The names of its parameters, in the order in which they are declared.
    pub param_names: Vec<String>,
}

/// The mathematical value of a function's metadata.
pub struct SpecShape {
    pub name: Seq<char>,
    pub param_count: nat,
    pub param_names: Seq<Seq<char>>,
}

impl View for FunctionShape {
    type V = SpecShape;

    open spec fn view(&self) -> SpecShape {
        SpecShape {
            name: self.name@,
            param_count: self.param_count as nat,
            param_names: self.param_names@.map_values(|name: String| name@),
        }
    }
}

impl Clone for FunctionShape {
    fn clone(&self) -> (copy: FunctionShape)
        ensures
            copy@ == self@,
    {
        let mut names: Vec<String> = Vec::new();
        let mut i: usize = 0;
        while i < self.param_names.len()
            invariant
                i <= self.param_names.len(),
                names.len() == i,
                forall|j: int| 0 <= j < i ==> names[j]@ == self.param_names[j]@,
            decreases self.param_names.len() - i,
        {
            names.push(self.param_names[i].clone());
            i += 1;
        }
        let copy = FunctionShape {
            name: self.name.clone(),
            param_count: self.param_count,
            param_names: names,
        };
        assert(copy@.param_names =~= self@.param_names);
        copy
    }
}

/// The metadata of a decomposed declaration.
pub open spec fn shape_of(signature: SpecSignature) -> SpecShape {
    SpecShape {
        name: signature.name,
        param_count: signature.parameters.len(),
        param_names: signature.parameters.map_values(|p: crate::params::SpecParameter| p.name),
    }
}

/// The upper-case form of a text, as the standard library computes it.
pub uninterp spec fn upper_case(text: Seq<char>) -> Seq<char>;

/// The name under which a function's metadata is known: the function's name
/// in upper case, then `_SHAPE`.
pub open spec fn shape_symbol_of(name: Seq<char>) -> Seq<char> {
    upper_case(name) + "_SHAPE"@
}

/// The name of the module that holds a function's moved implementation:
/// `__fn_shape_`, then the function's name.
pub open spec fn hidden_module_of(name: Seq<char>) -> Seq<char> {
    "__fn_shape_"@ + name
}

/// Calls `str::to_uppercase`. The result is the upper-case form of the text;
/// no more is claimed of it than that it depends on the text alone.
#[verifier::external_body]
fn to_upper(text: &str) -> (upper: String)
    ensures
        upper@ == upper_case(text@),
{
    text.to_uppercase()
}

/// The name that an upper-case text gives: the text, then `_SHAPE`.
pub fn symbol_from_upper(upper: String) -> (symbol: String)
    ensures
        symbol@ == upper@ + "_SHAPE"@,
{
    upper.concat("_SHAPE")
}

/// The name under which the metadata of the function `name` is known.
pub fn shape_symbol(name: &str) -> (symbol: String)
    ensures
        symbol@ == shape_symbol_of(name@),
{
    symbol_from_upper(to_upper(name))
}

/// The name of the module that holds the moved implementation of the
/// function `name`.
pub fn hidden_module_name(name: &str) -> (module: String)
    ensures
        module@ == hidden_module_of(name@),
{
    String::from_str("__fn_shape_").concat(name)
}

impl ParsedSignature {
    /// The number of parameters.
    pub fn arity(&self) -> (n: usize)
        ensures
            n == self@.parameters.len(),
    {
        self.parameters.len()
    }

    /// The metadata of this declaration.
    pub fn shape(&self) -> (shape: FunctionShape)
        ensures
            shape@ == shape_of(self@),
    {
        let mut names: Vec<String> = Vec::new();
        let mut i: usize = 0;
        while i < self.parameters.len()
            invariant
                i <= self.parameters.len(),
                names.len() == i,
                forall|j: int| 0 <= j < i ==> names[j]@ == self.parameters[j].name@,
            decreases self.parameters.len() - i,
        {
            names.push(self.parameters[i].name.clone());
            i += 1;
        }
        let shape = FunctionShape {
            name: self.name.clone(),
            param_count: self.parameters.len(),
            param_names: names,
        };
        assert(shape@.param_names =~= shape_of(self@).param_names);
        shape
    }
}

impl LookupRequest {
    /// The name under which the metadata that this lookup asks for is known.
    pub fn symbol(&self) -> (symbol: String)
        ensures
            symbol@ == shape_symbol_of(self@.name),
    {
        shape_symbol(self.name.as_str())
    }
}

} // verus!
