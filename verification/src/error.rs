//! The error type of the command-line tool's own operations.
use vstd::prelude::*;

verus! {

/// An error of configuration, build or deployment, with its message.
#[derive(Debug)]
pub enum AppError {
    Invalid(String),
}

impl AppError {
    /// The message the error carries.
    pub open spec fn message(self) -> Seq<char> {
        match self {
            AppError::Invalid(m) => m@,
        }
    }

    /// The text the error is shown with: `invalid: ` and its message.
    pub fn to_string(&self) -> (r: String)
        ensures
            r@ == "invalid: "@ + self.message(),
    {
        match self {
            AppError::Invalid(m) => {
                let mut s = "invalid: ".to_string();
                s.append(m.as_str());
                s
            },
        }
    }
}

} // verus!
