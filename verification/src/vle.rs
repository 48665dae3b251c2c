//! Validators for variable-length encodings.
//!
//! Each validator is a small state machine that consumes one code unit at
//! a time: it is built from a lead unit, extended until its run is
//! complete, and finally asked whether the completed run is valid.

use vstd::prelude::*;

pub mod gb_sequence;
pub mod unicode;

verus! {

/// The contract every sequence validator shares: `build` starts a run
/// from a lead unit (or refuses a unit that can never begin one),
/// `add_point` extends an incomplete run and reports whether the unit
/// fit, and `is_valid` judges a completed run. Each implementation
/// supplies its own notions of well-formedness and completion; the exact
/// grammar each validator enforces is stated on its inherent methods.
pub trait VariableLengthEncoding: Sized {
    type Point;

    /// The well-formedness each implementation maintains.
    spec fn wf(&self) -> bool;

    /// Whether the run has consumed its required number of units.
    spec fn complete(&self) -> bool;

    fn build(input: Self::Point) -> (r: Option<Self>)
        ensures
            r matches Some(v) ==> v.wf(),
    ;

    fn is_complete(&self) -> (r: bool)
        requires
            self.wf(),
        ensures
            r == self.complete(),
    ;

    fn add_point(&mut self, point: Self::Point) -> (r: bool)
        requires
            old(self).wf(),
            !old(self).complete(),
        ensures
            r ==> final(self).wf(),
    ;

    fn is_valid(&self) -> (r: bool)
        requires
            self.wf(),
            self.complete(),
    ;
}

} // verus!
