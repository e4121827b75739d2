//! Marching along a ray towards a surface that is known only by a distance
//! estimate, and the escape test of the fractal that gives such an estimate.
//!
//! The numbers are computed elsewhere. Here stand the rules by which a march
//! goes on or ends, and the constants that those rules and the arithmetic
//! around them share.

use crate::scalar::Scalar;
use vstd::prelude::*;

verus! {

/// The word of 0.0005: a march has arrived once the estimated distance to the
/// surface is no longer above this.
pub const EPSILON_BITS: u32 = 0x3A03_126F;

/// The word of 0.4: the part of the estimated distance by which one step
/// moves along the ray. It is below one so that a step does not pass through
/// a thin feature.
pub const STEP_SCALE_BITS: u32 = 0x3ECC_CCCD;

/// The word of 0.5: the shade with which a march begins.
pub const SHADE_START_BITS: u32 = 0x3F00_0000;

/// The word of 0.8: what the shade is multiplied by each time the estimated
/// distance grows from one step to the next.
pub const SHADE_DECAY_BITS: u32 = 0x3F4C_CCCD;

/// The word of 1.0: the highlight with which a march begins.
pub const HIGHLIGHT_START_BITS: u32 = 0x3F80_0000;

/// The word of 0.01: what the highlight is multiplied by each time the
/// estimated distance grows from one step to the next.
pub const HIGHLIGHT_DECAY_BITS: u32 = 0x3C23_D70A;

/// The word of 2.0: a point of the fractal's orbit farther than this from the
/// origin has escaped.
pub const BAILOUT_BITS: u32 = 0x4000_0000;

/// How many rounds the fractal's orbit is followed at most.
pub const ORBIT_ROUNDS: u32 = 10;

/// Where a march stands.
#[derive(Clone, Copy, Debug, PartialEq, Eq, Structural)]
pub enum MarchState {
    /// The surface is still farther than the threshold and the ray has not
    /// run out: take a sample and step on.
    Marching,
    /// The estimated distance is no longer above the threshold: a hit at the
    /// present `t`.
    Arrived,
    /// The ray ran past its far end before it arrived: a miss.
    Lost,
}

/// A march along one ray: the parameter reached, the distance that the last
/// sample estimated, and the far end of the ray.
#[derive(Clone, Copy, Debug, PartialEq, Eq, Structural)]
pub struct March {
    pub t: Scalar,
    pub dist: Scalar,
    pub t_max: Scalar,
}

impl March {
    /// A march at its start: at `t_min`, with the far end of the interval
    /// standing in for the distance that no sample has estimated yet.
    pub fn begin(t_min: Scalar, t_max: Scalar) -> (march: March)
        ensures
            march == (March { t: t_min, dist: t_max, t_max }),
    {
        March { t: t_min, dist: t_max, t_max }
    }

    /// Arrived as soon as the distance is not above the threshold, a NaN
    /// included; else lost if `t` is beyond the far end; else marching.
    pub open spec fn spec_state(&self) -> MarchState {
        if !self.dist.spec_gt(Scalar { bits: EPSILON_BITS }) {
            MarchState::Arrived
        } else if self.t.spec_gt(self.t_max) {
            MarchState::Lost
        } else {
            MarchState::Marching
        }
    }

    /// Where the march stands.
    #[verifier::when_used_as_spec(spec_state)]
    pub fn state(&self) -> (state: MarchState)
        ensures
            state == self.spec_state(),
    {
        if !self.dist.gt(Scalar::from_bits(EPSILON_BITS)) {
            MarchState::Arrived
        } else if self.t.gt(self.t_max) {
            MarchState::Lost
        } else {
            MarchState::Marching
        }
    }

    /// Takes one step: `sample` is the distance estimated at the present `t`,
    /// and `next_t` the parameter that the step leads to. Says whether the
    /// estimate grew against the one before, which is when the shading signal
    /// decays.
    pub fn advance(&mut self, sample: Scalar, next_t: Scalar) -> (grew: bool)
        ensures
            *final(self) == (March { t: next_t, dist: sample, t_max: old(self).t_max }),
            grew == sample.spec_gt(old(self).dist),
    {
        let grew: bool = sample.gt(self.dist);
        self.dist = sample;
        self.t = next_t;
        grew
    }
}

/// Whether a point of the fractal's orbit at distance `r` from the origin has
/// escaped, which ends the orbit early.
pub fn escaped(r: Scalar) -> (out: bool)
    ensures
        out == r.spec_gt(Scalar { bits: BAILOUT_BITS }),
{
    r.gt(Scalar::from_bits(BAILOUT_BITS))
}

} // verus!
