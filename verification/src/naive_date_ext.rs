//! Day numbering relative to the Unix epoch, as an extension trait.

use vstd::prelude::*;

use crate::calendar::Date;

verus! {

/// Day number from the Unix epoch: 1970-01-01 is day 0, earlier dates are
/// negative.
pub trait NaiveDateExt {
    /// The inputs on which the day number is defined.
    spec fn dse_wf(&self) -> bool;

    /// The day number, as a mathematical integer.
    spec fn dse_spec(&self) -> int;

    /// The day number from the Unix epoch.
    fn days_since_epoch(&self) -> (r: i32)
        requires
            self.dse_wf(),
        ensures
            r == self.dse_spec(),
    ;
}

impl NaiveDateExt for Date {
    open spec fn dse_wf(&self) -> bool {
        self.valid()
    }

    open spec fn dse_spec(&self) -> int {
        self.dse()
    }

    fn days_since_epoch(&self) -> (r: i32) {
        self.days_since_epoch_e()
    }
}

} // verus!
