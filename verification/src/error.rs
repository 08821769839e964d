//! Reasons for which a value is refused.
use vstd::prelude::*;

verus! {

/// A numeric or configuration fault that the library reports instead of
/// computing with a meaningless value.
#[derive(Clone, Copy, Debug, PartialEq, Eq, Structural)]
pub enum Error {
    /// A vector of length zero was to be normalised.
    DegenerateVector,
    /// A sphere's radius was zero or negative.
    InvalidRadius,
    /// The number of samples per pixel was zero.
    InvalidSampleCount,
    /// The recursion depth was zero.
    InvalidDepth,
    /// The image has more pixels than the machine can address.
    ImageTooLarge,
    /// A row was asked for that the image does not have.
    RowOutOfImage,
}

impl Error {
    /// The sentence shown to a user for each fault.
    pub open spec fn spec_message(self) -> Seq<char> {
        match self {
            Error::DegenerateVector => "cannot normalise a vector of length zero"@,
            Error::InvalidRadius => "a sphere's radius must be positive"@,
            Error::InvalidSampleCount => "the number of samples per pixel must be positive"@,
            Error::InvalidDepth => "the recursion depth must be positive"@,
            Error::ImageTooLarge => "the image has too many pixels to address"@,
            Error::RowOutOfImage => "the image has no such row"@,
        }
    }

    /// The sentence shown to a user for this fault.
    pub fn message(&self) -> (r: &'static str)
        ensures
            r@ == self.spec_message(),
    {
        match self {
            Error::DegenerateVector => "cannot normalise a vector of length zero",
            Error::InvalidRadius => "a sphere's radius must be positive",
            Error::InvalidSampleCount => "the number of samples per pixel must be positive",
            Error::InvalidDepth => "the recursion depth must be positive",
            Error::ImageTooLarge => "the image has too many pixels to address",
            Error::RowOutOfImage => "the image has no such row",
        }
    }
}

} // verus!
