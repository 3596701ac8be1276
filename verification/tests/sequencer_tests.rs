use synth_engine::player::Voice;
use synth_engine::sequencer::{beat_duration, PercussionSequencer, PercussionSequencerBuilder, PercussiveState};

const B: PercussiveState = PercussiveState::Beat;
const R: PercussiveState = PercussiveState::Rest;

fn kinds(voices: &Vec<Voice<&'static str>>) -> Vec<u64> {
    voices.iter().map(|v| v.instrument_id()).collect()
}

fn two_tracks() -> PercussionSequencer<&'static str, 16> {
    let mut builder: PercussionSequencerBuilder<&'static str, 16> =
        PercussionSequencerBuilder::new(120, 4, 4);
    builder.add_track("kick", 1, "Drum Kick", [B, R, B, R, B, R, R, R, B, R, R, R, B, R, R, R]);
    builder.add_track("snare", 2, "Drum Snare", [R, B, B, R, B, R, R, R, R, R, R, R, B, R, R, R]);
    assert!(builder.can_start());
    builder.start()
}

#[test]
fn beat_duration_at_120_by_4_is_an_eighth_of_a_second() {
    assert_eq!(beat_duration(120, 4), 125_000_000);
}

#[test]
fn three_tenths_of_a_second_cross_two_sub_beats() {
    let mut seq = two_tracks();
    assert_eq!(seq.beat_time(), 125_000_000);
    let voices = seq.advance(300_000_000);
    assert_eq!(seq.current_beat(), 2);
    assert_eq!(seq.accumulated(), 50_000_000);
    assert_eq!(kinds(&voices), vec![2, 1, 2]);
    for v in &voices {
        assert_eq!(v.note_id(), 64);
    }
    assert_eq!(voices[0].get_instrument_name(), "Drum Snare");
    assert_eq!(voices[1].get_instrument_name(), "Drum Kick");
    assert_eq!(*voices[1].instrument(), "kick");
}

#[test]
fn beat_duration_of_a_grid_that_never_moves_is_zero() {
    assert_eq!(beat_duration(0, 4), 0);
    assert_eq!(beat_duration(120, 0), 0);
    assert_eq!(beat_duration(0, 0), 0);
}

#[test]
fn beat_duration_is_rounded_up() {
    assert_eq!(beat_duration(7, 3), 2_857_142_858);
    assert_eq!(beat_duration(60, 1), 1_000_000_000);
    assert_eq!(beat_duration(1, 1), 60_000_000_000);
    assert_eq!(beat_duration(u32::MAX, u32::MAX), 1);
    assert_eq!(beat_duration(60_000, 1_000_000), 1);
    assert_eq!(beat_duration(60_000, 1_000_001), 1);
    assert_eq!(beat_duration(60_000, 999_999), 2);
}

#[test]
fn builders_start_from_their_defaults() {
    let a: PercussionSequencerBuilder<(), 16> = PercussionSequencerBuilder::default();
    let b: PercussionSequencerBuilder<(), 16> = PercussionSequencerBuilder::new_with_tempo(120);
    let c: PercussionSequencerBuilder<(), 16> = PercussionSequencerBuilder::new(120, 4, 4);
    for builder in [a, b, c] {
        assert!(builder.can_start());
        let seq = builder.start();
        assert_eq!(seq.beat_time(), 125_000_000);
        assert_eq!(seq.current_beat(), 0);
        assert_eq!(seq.accumulated(), 0);
    }
    let fast: PercussionSequencerBuilder<(), 16> = PercussionSequencerBuilder::new_with_tempo(240);
    assert_eq!(fast.start().beat_time(), 62_500_000);
}

#[test]
fn grid_must_lie_within_the_patterns() {
    let fits: PercussionSequencerBuilder<(), 16> = PercussionSequencerBuilder::new(120, 4, 4);
    assert!(fits.can_start());
    let too_long: PercussionSequencerBuilder<(), 16> = PercussionSequencerBuilder::new(120, 4, 5);
    assert!(!too_long.can_start());
    let shorter: PercussionSequencerBuilder<(), 16> = PercussionSequencerBuilder::new(120, 3, 4);
    assert!(shorter.can_start());
    let no_slots: PercussionSequencerBuilder<(), 0> = PercussionSequencerBuilder::new(120, 0, 4);
    assert!(!no_slots.can_start());
    let never_moves: PercussionSequencerBuilder<(), 0> = PercussionSequencerBuilder::new(0, 4, 4);
    assert!(never_moves.can_start());
    let no_sub_beats: PercussionSequencerBuilder<(), 2> = PercussionSequencerBuilder::new(120, 9, 0);
    assert!(no_sub_beats.can_start());
    let huge: PercussionSequencerBuilder<(), 2> =
        PercussionSequencerBuilder::new(120, u32::MAX, u32::MAX);
    assert!(!huge.can_start());
}

#[test]
fn time_short_of_a_sub_beat_is_held_back() {
    let mut seq = two_tracks();
    assert!(seq.advance(124_999_999).is_empty());
    assert_eq!(seq.current_beat(), 0);
    assert_eq!(seq.accumulated(), 124_999_999);
    let voices = seq.advance(1);
    assert_eq!(kinds(&voices), vec![2]);
    assert_eq!(seq.current_beat(), 1);
    assert_eq!(seq.accumulated(), 0);
    assert!(seq.advance(0).is_empty());
    assert_eq!(seq.current_beat(), 1);
}

#[test]
fn grid_wraps_round_after_its_last_slot() {
    let mut seq = two_tracks();
    let voices = seq.advance(16 * 125_000_000);
    assert_eq!(seq.current_beat(), 0);
    assert_eq!(seq.accumulated(), 0);
    // slots 1..=15, then slot 0 again
    assert_eq!(kinds(&voices), vec![2, 1, 2, 1, 2, 1, 1, 2, 1]);
    let voices = seq.advance(17 * 125_000_000 + 3);
    assert_eq!(seq.current_beat(), 1);
    assert_eq!(seq.accumulated(), 3);
    assert_eq!(kinds(&voices), vec![2, 1, 2, 1, 2, 1, 1, 2, 1, 2]);
}

#[test]
fn shorter_grid_wraps_before_the_patterns_end() {
    let mut builder: PercussionSequencerBuilder<(), 4> = PercussionSequencerBuilder::new(60, 3, 1);
    builder.add_track((), 5, "Drum HiHat", [B, R, B, B]);
    let mut seq = builder.start();
    assert_eq!(seq.beat_time(), 1_000_000_000);
    let voices = seq.advance(7_000_000_000);
    // slots 1, 2, 0, 1, 2, 0, 1
    assert_eq!(voices.len(), 4);
    assert_eq!(seq.current_beat(), 1);
}

#[test]
fn time_in_two_pieces_fires_what_one_piece_fires() {
    let mut whole = two_tracks();
    let mut pieces = two_tracks();
    let all = whole.advance(1_000_000_007);
    let mut first = pieces.advance(310_000_000);
    let second = pieces.advance(690_000_007);
    first.extend(second);
    assert_eq!(kinds(&all), kinds(&first));
    assert_eq!(whole.current_beat(), pieces.current_beat());
    assert_eq!(whole.accumulated(), pieces.accumulated());
    assert_eq!(whole.current_beat(), 8);
    assert_eq!(whole.accumulated(), 7);
}

#[test]
fn grid_that_never_moves_fires_nothing() {
    let mut builder: PercussionSequencerBuilder<(), 2> = PercussionSequencerBuilder::new(0, 4, 4);
    builder.add_track((), 1, "Drum Kick", [B, B]);
    let mut seq = builder.start();
    assert_eq!(seq.beat_time(), 0);
    assert!(seq.advance(u64::MAX).is_empty());
    assert_eq!(seq.current_beat(), 0);
    assert_eq!(seq.accumulated(), 0);
    assert!(seq.update().is_empty());
}

#[test]
fn grid_without_beats_stays_on_its_first_slot() {
    let mut builder: PercussionSequencerBuilder<(), 2> = PercussionSequencerBuilder::new(60, 0, 1);
    builder.add_track((), 1, "Drum Kick", [B, R]);
    builder.add_track((), 2, "Drum Snare", [R, B]);
    assert!(builder.can_start());
    let mut seq = builder.start();
    let voices = seq.advance(3_000_000_000);
    assert_eq!(voices.iter().map(|v| v.instrument_id()).collect::<Vec<u64>>(), vec![1, 1, 1]);
    assert_eq!(seq.current_beat(), 0);
}

#[test]
fn track_of_a_known_kind_takes_the_new_pattern_and_keeps_its_instrument() {
    let mut builder: PercussionSequencerBuilder<&'static str, 2> =
        PercussionSequencerBuilder::new(60, 2, 1);
    builder.add_track("first", 1, "Drum Kick", [R, R]);
    builder.add_track("other", 2, "Drum Snare", [R, B]);
    builder.add_track("second", 1, "Kick Again", [R, B]);
    let mut seq = builder.start();
    let voices = seq.advance(1_000_000_000);
    assert_eq!(kinds(&voices), vec![1, 2]);
    assert_eq!(*voices[0].instrument(), "first");
    assert_eq!(voices[0].get_instrument_name(), "Drum Kick");
    assert_eq!(*voices[1].instrument(), "other");
}

#[test]
fn clones_walk_the_same_grid() {
    let mut builder: PercussionSequencerBuilder<&'static str, 2> =
        PercussionSequencerBuilder::new(60, 2, 1);
    builder.add_track("kick", 1, "Drum Kick", [B, B]);
    let copy = builder.clone();
    let mut seq = builder.start();
    let mut other = copy.start();
    assert_eq!(kinds(&seq.advance(1_500_000_000)), vec![1]);
    let mut third = seq.clone();
    assert_eq!(third.current_beat(), 1);
    assert_eq!(third.accumulated(), 500_000_000);
    assert_eq!(kinds(&third.advance(500_000_000)), vec![1]);
    assert_eq!(third.current_beat(), 0);
    assert_eq!(seq.current_beat(), 1);
    assert_eq!(kinds(&other.advance(2_000_000_000)), vec![1, 1]);
}

#[test]
fn update_moves_on_by_the_time_that_the_clock_shows() {
    let mut builder: PercussionSequencerBuilder<(), 1> =
        PercussionSequencerBuilder::new(60_000_000, 1, 1);
    builder.add_track((), 1, "Drum Kick", [B]);
    assert!(builder.can_start());
    let mut seq = builder.start();
    assert_eq!(seq.beat_time(), 1_000);
    let started = std::time::Instant::now();
    while started.elapsed().as_micros() < 2_000 {
        std::hint::spin_loop();
    }
    let voices = seq.update();
    assert!(voices.len() >= 2_000);
    assert!(seq.accumulated() < 1_000);
    for v in &voices {
        assert_eq!(v.note_id(), 64);
        assert_eq!(v.instrument_id(), 1);
    }
    let mut slow: PercussionSequencerBuilder<(), 1> = PercussionSequencerBuilder::new(1, 1, 1);
    slow.add_track((), 1, "Drum Kick", [B]);
    let mut seq = slow.start();
    assert!(seq.update().is_empty());
    assert_eq!(seq.current_beat(), 0);
}
