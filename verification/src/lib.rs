//! Game rules for a set of terminal brain-training mini games: the state machines,
//! judgements, scoring and grid geometry, each stated and proved with Verus.
//! Drawing, terminal input and floating-point effects live outside this crate.

pub mod game;
pub mod random;
pub mod rect;
pub mod text;
pub mod ui;

use vstd::prelude::*;

verus! {

/// Length of one frame-loop tick in milliseconds; `update` is called about this often.
pub const TICK_RATE_MS: u64 = 33;

/// `u64` subtraction that stops at zero, as `u64::saturating_sub` computes it.
pub open spec fn sat_sub(a: u64, b: u64) -> u64 {
    if a >= b { (a - b) as u64 } else { 0 }
}

/// `u64` addition that stops at `u64::MAX`, as `u64::saturating_add` computes it.
pub open spec fn sat_add(a: u64, b: u64) -> u64 {
    if a + b <= u64::MAX { (a + b) as u64 } else { u64::MAX }
}

} // verus!
