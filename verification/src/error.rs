use vstd::prelude::*;

use crate::location::{Location, SpecLocation};

verus! {

/// A terminal scan failure: a human-readable message and the location
/// at which scanning stopped.
#[derive(Debug, PartialEq)]
pub struct Error {
    pub message: String,
    pub location: Location,
}

/// Mathematical value of an `Error`.
pub ghost struct SpecError {
    pub message: Seq<char>,
    pub location: SpecLocation,
}

impl View for Error {
    type V = SpecError;

    open spec fn view(&self) -> SpecError {
        SpecError { message: self.message@, location: self.location@ }
    }
}

impl Clone for Error {
    fn clone(&self) -> (r: Self)
        ensures
            r@ == self@,
    {
        Error { message: self.message.clone(), location: self.location.clone() }
    }
}

} // verus!
