//! `requirements*.in` files: not handled yet; always reported as absent.

use vstd::prelude::*;

use crate::report::Status;
use crate::context::Ecosystem;
use crate::updaters::{warned_view, Detection, UpdateOutcome, Updater};

verus! {

/// The requirements updater (a placeholder that finds nothing).
pub struct PythonRequirements;

impl Updater for PythonRequirements {
    fn ecosystem(&self) -> (e: Ecosystem)
        ensures
            e == Ecosystem::Requirements,
    {
        Ecosystem::Requirements
    }
}

impl PythonRequirements {
    /// Detection always reports the ecosystem absent.
    pub fn detect(&self) -> (d: Detection)
        ensures
            d matches Detection::Absent { reason } && reason@ == "not implemented"@,
    {
        Detection::Absent { reason: "not implemented".to_owned() }
    }

    /// A run reports the ecosystem as not present.
    pub fn run(&self) -> (o: UpdateOutcome)
        ensures
            o@ == warned_view(Status::NotPresent, "not implemented"@),
    {
        UpdateOutcome::not_present("not implemented")
    }
}

} // verus!
