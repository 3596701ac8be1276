//! The waveforms that an oscillator can be asked for.

use vstd::prelude::*;

verus! {

/// The harmonics that the analogue saw wave counts up to where none are
/// asked for.
pub const DEFAULT_RESOLUTION: usize = 50;

/// Represents the various general purpose oscillator types.
#[non_exhaustive]
#[derive(Debug)]
pub enum Oscillator {
    /// Sine wave
    Sine,
    /// Square wave
    Square,
    /// Triangle wave
    Triangle,
    /// Saw wave (analogue, warm, slow) (you can optionally specify the resolution of the wave)
    SawAna(Option<usize>),
    /// Saw wave (optimised, harsh, fast)
    SawDig,
    /// Pseudo-random noise
    Noise,
}

impl Oscillator {
    /// The resolution of a wave that is built by adding harmonics: the
    /// number that the harmonics are counted up to, short of itself. The
    /// other waves have none.
    pub open spec fn spec_resolution(&self) -> Option<usize> {
        match *self {
            Oscillator::SawAna(Some(harmonics)) => Some(harmonics),
            Oscillator::SawAna(None) => Some(DEFAULT_RESOLUTION),
            _ => None,
        }
    }

    /// Gives [`Self::spec_resolution`].
    #[verifier::when_used_as_spec(spec_resolution)]
    pub fn resolution(&self) -> (resolution: Option<usize>)
        ensures
            resolution == self.resolution(),
    {
        match self {
            Oscillator::SawAna(Some(harmonics)) => Some(*harmonics),
            Oscillator::SawAna(None) => Some(DEFAULT_RESOLUTION),
            _ => None,
        }
    }
}

impl Clone for Oscillator {
    fn clone(&self) -> (same: Self)
        ensures
            same == *self,
    {
        match self {
            Oscillator::Sine => Oscillator::Sine,
            Oscillator::Square => Oscillator::Square,
            Oscillator::Triangle => Oscillator::Triangle,
            Oscillator::SawAna(resolution) => Oscillator::SawAna(*resolution),
            Oscillator::SawDig => Oscillator::SawDig,
            Oscillator::Noise => Oscillator::Noise,
        }
    }
}

} // verus!
