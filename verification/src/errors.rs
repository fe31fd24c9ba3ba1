use vstd::prelude::*;

verus! {

/// Failure of `KVAction::from_str`: the given token names no known action.
///
/// Holds a borrow of the offending token so the diagnostic can repeat it.
#[derive(Debug, PartialEq)]
pub struct UnknownAction<'a>(pub &'a str);

impl UnknownAction<'_> {
    /// The diagnostic line reported for this error.
    pub fn message(&self) -> (r: String)
        ensures
            r@ == "Unknown action: "@ + self.0@,
    {
        String::from_str("Unknown action: ").concat(self.0)
    }
}

/// Failure of `Args::parse_args`: the token list has the wrong shape.
///
/// Holds the specific complaint (missing token, unknown action, extra token).
#[derive(Debug, PartialEq)]
pub struct ArgsParseError(pub String);

impl ArgsParseError {
    /// The diagnostic line reported for this error.
    pub fn message(&self) -> (r: String)
        ensures
            r@ == "Error parsing args: "@ + self.0@,
    {
        String::from_str("Error parsing args: ").concat(self.0.as_str())
    }
}

} // verus!
