//! Easing: how the progress of an animation is bent over time.

use vstd::prelude::*;

verus! {

/// The curve that an easing follows.
#[derive(Debug, Clone, Copy, PartialEq, Eq, Hash, Structural)]
pub enum EasingVariety {
    Quadratic,
    Cubic,
    Quartic,
    Quintic,
    Sin,
    Exponential,
    Circular,
}

/// An easing to apply to an animation or to a clip.
#[derive(Debug, Clone, Copy, PartialEq, Eq, Hash, Structural)]
pub enum Easing {
    /// Progress is not bent.
    Linear,
    /// Slow start.
    In(EasingVariety),
    /// Slow end.
    Out(EasingVariety),
    /// Slow start and slow end.
    InOut(EasingVariety),
}

impl Default for Easing {
    fn default() -> (easing: Easing)
        ensures
            easing == Easing::Linear,
    {
        Easing::Linear
    }
}

} // verus!
