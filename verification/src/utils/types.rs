//! Shared types of the date utilities.
use std::collections::BTreeMap;
use vstd::prelude::*;

verus! {

/// Which end of a period a partial date stands for.
#[derive(Clone, Copy, Debug, PartialEq, Eq, Structural)]
pub enum DateRound {
    Ceil,
    Floor,
}

/// Member ids grouped under the timestamp of the start of their month.
pub type MembersByMonth = BTreeMap<i64, Vec<String>>;

} // verus!
