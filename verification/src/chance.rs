//! The Metropolis acceptance rule, held as integers.
//!
//! For a cell with signed spin `s` (+1 for up, -1 for down) whose four
//! toroidal neighbors sum to `e`, the Metropolis log-acceptance is
//! `log_acc = -2 * beta_j * e * s`, a function of the coupling `beta_j` and
//! of the product `k = e * s` alone. Since `e` is a sum of four values in
//! {-1, +1}, `k` ranges over {-4, -2, 0, 2, 4}, so a coupling is fully
//! described by the acceptance rule it induces at each of those five values:
//!
//! - where `log_acc > 0` (an energy-lowering move), the flip is accepted
//!   outright and the random source is not consulted;
//! - otherwise one uniform level `u` in `[0, LEVEL_SCALE)` is drawn and the
//!   flip is accepted iff `u < t`, where the threshold `t` stands for the
//!   acceptance probability `exp(log_acc)` in units of `1 / LEVEL_SCALE`.
//!
//! The host constructs a `Coupling` from its real-valued `beta_j` once, at
//! start-up; the verified sweep consumes only this integer table.

use vstd::prelude::*;

verus! {

/// What the Metropolis rule does at one value of `k = e * s`.
#[derive(Clone, Copy, Debug, PartialEq, Eq, Structural)]
pub enum AcceptRule {
    /// `log_acc > 0`: the flip is accepted without drawing from the random
    /// source.
    Always,
    /// `log_acc <= 0`: one uniform level `u` in `[0, LEVEL_SCALE)` is drawn
    /// and the flip is accepted iff `u < t`, where `t` approximates
    /// `exp(log_acc) * LEVEL_SCALE`.
    Chance(u64),
}

/// A coupling (beta * J), represented by the acceptance rule it induces at
/// each possible value of `k = e * s`. Immutable after construction.
#[derive(Clone, Copy, Debug, PartialEq, Eq, Structural)]
pub struct Coupling {
    /// Rule where `k == -4`.
    pub k_neg4: AcceptRule,
    /// Rule where `k == -2`.
    pub k_neg2: AcceptRule,
    /// Rule where `k == 0`.
    pub k_zero: AcceptRule,
    /// Rule where `k == 2`.
    pub k_pos2: AcceptRule,
    /// Rule where `k == 4`.
    pub k_pos4: AcceptRule,
}

/// The rule a coupling applies at a given `k = e * s`.
pub open spec fn rule_for(c: Coupling, k: int) -> AcceptRule {
    if k <= -4 {
        c.k_neg4
    } else if k <= -2 {
        c.k_neg2
    } else if k <= 0 {
        c.k_zero
    } else if k <= 2 {
        c.k_pos2
    } else {
        c.k_pos4
    }
}

impl Coupling {
    /// Looks up the acceptance rule for `k = e * s`.
    pub fn rule_at(&self, k: i32) -> (r: AcceptRule)
        ensures
            r == rule_for(*self, k as int),
    {
        if k <= -4 {
            self.k_neg4
        } else if k <= -2 {
            self.k_neg2
        } else if k <= 0 {
            self.k_zero
        } else if k <= 2 {
            self.k_pos2
        } else {
            self.k_pos4
        }
    }
}

} // verus!
