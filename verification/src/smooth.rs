//! Smoothing of a control: a linear ramp toward a target.

use vstd::prelude::*;

verus! {

/// A control value on its way to a target.
///
/// `current` is the value read last, `target` the value to reach, and
/// `remaining` the number of frames left to reach it in. Every frame moves the
/// value by an equal share of the distance that is left, so the value follows a
/// straight line and lands on the target with the last frame.
#[derive(Clone, Copy, Debug, PartialEq, Eq)]
pub struct Ramp {
    pub current: u32,
    pub target: u32,
    pub remaining: u32,
}

impl Ramp {
    /// The ramp one frame later: the value has moved toward the target by the
    /// distance left divided by the frames left, rounded toward zero; with one
    /// frame left, or none, it is the target.
    pub open spec fn advanced(self) -> Ramp {
        if self.remaining <= 1 {
            Ramp { current: self.target, target: self.target, remaining: 0 }
        } else if self.current <= self.target {
            Ramp {
                current: (self.current + (self.target - self.current) / (self.remaining as int)) as u32,
                target: self.target,
                remaining: (self.remaining - 1) as u32,
            }
        } else {
            Ramp {
                current: (self.current - (self.current - self.target) / (self.remaining as int)) as u32,
                target: self.target,
                remaining: (self.remaining - 1) as u32,
            }
        }
    }

    /// The ramp `frames` frames later.
    pub open spec fn advanced_by(self, frames: nat) -> Ramp
        decreases frames,
    {
        if frames == 0 {
            self
        } else {
            self.advanced_by((frames - 1) as nat).advanced()
        }
    }

    /// The distance between the value and the target.
    pub open spec fn distance(self) -> int {
        if self.current <= self.target {
            self.target - self.current
        } else {
            self.current - self.target
        }
    }

    /// A ramp at rest at `value`.
    pub fn new(value: u32) -> (ramp: Ramp)
        ensures
            ramp == (Ramp { current: value, target: value, remaining: 0 }),
    {
        Ramp { current: value, target: value, remaining: 0 }
    }

    /// Sets out for `target`, to be reached in `frames` frames. With no frame to
    /// take, the value jumps to the target at once.
    pub fn set_target(&mut self, target: u32, frames: u32)
        ensures
            *final(self) == (Ramp {
                current: if frames == 0 { target } else { old(self).current },
                target,
                remaining: frames,
            }),
    {
        if frames == 0 {
            self.current = target;
        }
        self.target = target;
        self.remaining = frames;
    }

    /// Follows a control: sets out for `target` as [`Ramp::set_target`] does when
    /// it is a new target, and leaves a ramp that is already on its way there
    /// alone, so that reading the same control again does not start the ramp over.
    pub fn follow(&mut self, target: u32, frames: u32)
        ensures
            *final(self) == if target == old(self).target {
                *old(self)
            } else {
                Ramp {
                    current: if frames == 0 { target } else { old(self).current },
                    target,
                    remaining: frames,
                }
            },
    {
        if target != self.target {
            self.set_target(target, frames);
        }
    }

    /// Moves the ramp on by one frame and returns the value for that frame.
    pub fn next(&mut self) -> (value: u32)
        ensures
            *final(self) == old(self).advanced(),
            value == final(self).current,
    {
        if self.remaining <= 1 {
            self.current = self.target;
            self.remaining = 0;
        } else if self.current <= self.target {
            let share: u32 = (self.target - self.current) / self.remaining;
            self.current = self.current + share;
            self.remaining = self.remaining - 1;
        } else {
            let share: u32 = (self.current - self.target) / self.remaining;
            self.current = self.current - share;
            self.remaining = self.remaining - 1;
        }
        self.current
    }

    /// The value read last.
    pub fn value(&self) -> (value: u32)
        ensures
            value == self.current,
    {
        self.current
    }

    /// Whether the ramp has come to rest on its target.
    pub fn is_settled(&self) -> (settled: bool)
        ensures
            settled <==> self.remaining == 0 && self.current == self.target,
    {
        self.remaining == 0 && self.current == self.target
    }
}

/// One frame never carries the value past the target, nor away from it: the new
/// value lies between the old one and the target, so a value and a target that lie
/// in a control's range keep the ramp inside that range.
pub proof fn lemma_ramp_stays_between(ramp: Ramp)
    ensures
        ramp.advanced().target == ramp.target,
        ramp.current <= ramp.target ==> ramp.current <= ramp.advanced().current <= ramp.target,
        ramp.target <= ramp.current ==> ramp.target <= ramp.advanced().current <= ramp.current,
        ramp.advanced().distance() <= ramp.distance(),
{
    if ramp.remaining > 1 {
        let gap = ramp.distance();
        let frames = ramp.remaining as int;
        assert(0 <= gap / frames <= gap) by (nonlinear_arith)
            requires
                0 <= gap,
                1 < frames,
        ;
    }
}

/// Every frame takes an equal share of what is left: while more than one frame
/// remains, the step times the frames left falls short of the distance left by
/// less than the frames left.
pub proof fn lemma_ramp_equal_shares(ramp: Ramp)
    requires
        ramp.remaining > 1,
    ensures
        ({
            let step = ramp.distance() - ramp.advanced().distance();
            step * ramp.remaining <= ramp.distance() < (step + 1) * ramp.remaining
        }),
{
    let gap = ramp.distance();
    let frames = ramp.remaining as int;
    assert(0 <= gap / frames <= gap && (gap / frames) * frames <= gap < (gap / frames + 1)
        * frames) by (nonlinear_arith)
        requires
            0 <= gap,
            1 < frames,
    ;
}

/// The ramp arrives: once as many frames have passed as were left, and at least
/// one, the value is the target and the ramp is at rest.
pub proof fn lemma_ramp_arrives(ramp: Ramp, frames: nat)
    requires
        frames >= 1,
        frames >= ramp.remaining,
    ensures
        ramp.advanced_by(frames) == (Ramp {
            current: ramp.target,
            target: ramp.target,
            remaining: 0,
        }),
{
    lemma_ramp_counts_down(ramp, (frames - 1) as nat);
}

/// The target never changes along the way, and the frames left go down by one
/// per frame until none is left.
pub proof fn lemma_ramp_counts_down(ramp: Ramp, frames: nat)
    ensures
        frames >= 1 ==> ramp.advanced_by(frames).target == ramp.target,
        ramp.advanced_by(frames).remaining == if frames <= ramp.remaining {
            (ramp.remaining - frames) as u32
        } else {
            0u32
        },
        frames == 0 ==> ramp.advanced_by(frames) == ramp,
    decreases frames,
{
    if frames > 0 {
        lemma_ramp_counts_down(ramp, (frames - 1) as nat);
    }
}

} // verus!
