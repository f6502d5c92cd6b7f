//! A greeting, the smallest end-to-end check of the library.

use vstd::prelude::*;

use crate::text::concat3;

verus! {

/// Returns a greeting for `name`.
pub fn hello(name: &str) -> (out: String)
    ensures
        out@ == "Hello, "@ + name@ + "!"@,
{
    concat3("Hello, ", name, "!")
}

} // verus!
