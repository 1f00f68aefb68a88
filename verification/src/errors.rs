use vstd::prelude::*;

verus! {

/// Error type returned when a Lua pattern is malformed or a match cannot be carried out.
#[derive(Debug, PartialEq)]
pub struct PatternError(pub String);

impl PatternError {
    /// The message carried by the error.
    pub fn message(&self) -> (r: &str)
        ensures
            r@ == self.0@,
    {
        self.0.as_str()
    }
}

} // verus!
