//! A single-method data-processing abstraction and its simple string
//! implementation.

use vstd::prelude::*;

verus! {

/// Trait for processing data.
pub trait DataProcessor {
    fn process(&self, input: &str) -> String;

    fn validate(&self, input: &str) -> bool;
}

/// A simple string processor: processing puts a fixed prefix before
/// the input, and validation accepts exactly the non-empty inputs.
pub struct StringProcessor {
    prefix: String,
}

impl StringProcessor {
    /// The prefix put before each processed input.
    pub closed spec fn spec_prefix(&self) -> Seq<char> {
        self.prefix@
    }

    /// Creates a processor with the given prefix.
    pub fn new(prefix: String) -> (p: StringProcessor)
        ensures
            p.spec_prefix() == prefix@,
    {
        StringProcessor { prefix }
    }
}

/// Relies on `String::push_str`: appends the slice's characters to the
/// string.
#[verifier::external_body]
fn push_str(s: &mut String, t: &str)
    ensures
        final(s)@ == old(s)@ + t@,
{
    s.push_str(t)
}

impl DataProcessor for StringProcessor {
    fn process(&self, input: &str) -> (r: String)
        ensures
            r@ == self.spec_prefix() + input@,
    {
        let mut out = self.prefix.clone();
        push_str(&mut out, input);
        out
    }

    fn validate(&self, input: &str) -> (r: bool)
        ensures
            r == (input@.len() != 0),
    {
        !input.is_empty()
    }
}

} // verus!
