use synth_engine::oscillators::{Oscillator, DEFAULT_RESOLUTION};

#[test]
fn analogue_saw_has_its_resolution_or_the_default() {
    assert_eq!(DEFAULT_RESOLUTION, 50);
    assert_eq!(Oscillator::SawAna(None).resolution(), Some(50));
    assert_eq!(Oscillator::SawAna(Some(7)).resolution(), Some(7));
    assert_eq!(Oscillator::SawAna(Some(0)).resolution(), Some(0));
}

#[test]
fn other_waves_have_no_resolution() {
    assert_eq!(Oscillator::Sine.resolution(), None);
    assert_eq!(Oscillator::Square.resolution(), None);
    assert_eq!(Oscillator::Triangle.resolution(), None);
    assert_eq!(Oscillator::SawDig.resolution(), None);
    assert_eq!(Oscillator::Noise.resolution(), None);
}

#[test]
fn clone_keeps_the_wave() {
    assert!(matches!(Oscillator::SawAna(Some(3)).clone(), Oscillator::SawAna(Some(3))));
    assert!(matches!(Oscillator::Noise.clone(), Oscillator::Noise));
    assert_eq!(format!("{:?}", Oscillator::Sine.clone()), "Sine");
}
