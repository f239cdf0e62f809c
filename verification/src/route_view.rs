//! The direction in which the camera travels along the scroll route.

use vstd::prelude::*;

verus! {

#[derive(Clone, Copy, Debug, PartialEq, Eq, Structural)]
pub enum TravelDirection {
    Forward,
    Reverse,
}

impl TravelDirection {
    /// The name under which the direction is reported.
    pub fn label(self) -> (label: &'static str)
        ensures
            self is Forward ==> label@ == "forward"@,
            self is Reverse ==> label@ == "reverse"@,
    {
        match self {
            TravelDirection::Forward => "forward",
            TravelDirection::Reverse => "reverse",
        }
    }
}

} // verus!
