//! A typed calendar delta: a signed quantity with a granularity tag.

use vstd::prelude::*;

verus! {

/// Granularity of a `DateUnit`.
#[derive(Clone, Copy, PartialEq, Eq, Structural, Debug)]
pub enum DateUnitType {
    Years,
    Months,
    Days,
    Weeks,
}

/// A single typed delta: `value` steps of granularity `ty`.
#[derive(Clone, Copy, PartialEq, Eq, Structural, Debug)]
pub struct DateUnit {
    pub value: i32,
    pub ty: DateUnitType,
}

} // verus!
