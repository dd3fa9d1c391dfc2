use vstd::prelude::*;

verus! {

/// Why decoding a column failed.
#[derive(Debug)]
pub enum Error {
    /// A stream that the column needs is missing from the stripe.
    InvalidColumn { name: String },
    /// A stream ended before the value being decoded was complete.
    UnexpectedEof,
    /// A run or an integer in a stream breaks the encoding rules.
    MalformedRun,
    /// A day count gives a date outside the representable range.
    AddDays,
}

impl Error {
    /// Human-readable description of the error.
    pub fn message(&self) -> (r: String) {
        match self {
            Error::InvalidColumn { name } => {
                let mut s = String::from_str("invalid column: ");
                s.append(name.as_str());
                s
            },
            Error::UnexpectedEof => String::from_str("unexpected end of stream"),
            Error::MalformedRun => String::from_str("malformed run-length encoding"),
            Error::AddDays => String::from_str("date out of range"),
        }
    }
}

} // verus!
