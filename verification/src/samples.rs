//! Four small functions whose declarations cover the shapes that the
//! decomposition has to tell apart: plain parameters, an owned argument, no
//! parameter at all, and a generic clause with a nested bound.

use core::ops::Add;
use vstd::prelude::*;
use vstd::std_specs::ops::AddSpec;

verus! {

/// The sum of two integers.
pub fn add(x: i32, y: i32) -> (sum: i32)
    requires
        i32::MIN <= x + y <= i32::MAX,
    ensures
        sum == x + y,
{
    x + y
}

/// A greeting for `name`.
pub fn greet(name: String) -> (greeting: String)
    ensures
        greeting@ == "Hello, "@ + name@ + "!"@,
{
    String::from_str("Hello, ").concat(name.as_str()).concat("!")
}

/// A fixed text.
pub fn no_params() -> (text: &'static str)
    ensures
        text@ == "No parameters here!"@,
{
    "No parameters here!"
}

/// The sum of two values of any type that can be added to itself.
pub fn generic_add<T: Add<Output = T>>(x: T, y: T) -> (sum: T)
    requires
        x.add_req(y),
    ensures
        T::obeys_add_spec() ==> sum == x.add_spec(y),
{
    x + y
}

} // verus!
