//! Tracks play sessions made of raids, each raid moving through an
//! append-only log of named state transitions, and derives time-in-state,
//! survival, kill/death and first-raid-delay statistics from that history.

use vstd::prelude::*;

pub mod dto;
pub mod error;
pub mod models;
pub mod order;
pub mod stats;
pub mod store;
pub mod workflow;

mod clock;

verus! {

/// Adds two to a number.
pub fn add_two(a: i32) -> (r: i32)
    requires
        a + 2 <= i32::MAX,
    ensures
        r == a + 2,
{
    a + 2
}

} // verus!
