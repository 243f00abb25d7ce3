//! The greeting command.

use vstd::prelude::*;
use vstd::string::StringExecFns;

verus! {

/// The greeting for `name`: the name between `Hello, ` and `!`.
pub open spec fn greeting_for(name: Seq<char>) -> Seq<char> {
    "Hello, "@ + name + "!"@
}

/// Greets `name`.
pub fn greet(name: String) -> (greeting: String)
    ensures
        greeting@ == greeting_for(name@),
{
    let mut greeting = String::from_str("Hello, ");
    greeting.append(name.as_str());
    greeting.append("!");
    greeting
}

} // verus!
