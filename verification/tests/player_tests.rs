use synth_engine::note::{Note, PITCH_BASE};
use synth_engine::player::{Player, Voice};

const BELL: u64 = 1;
const HARMONICA: u64 = 2;

fn bell(pitch: u8) -> Voice<&'static str> {
    Voice::new("bell", BELL, pitch, "Bell")
}

fn harmonica(pitch: u8) -> Voice<&'static str> {
    Voice::new("harmonica", HARMONICA, pitch, "Harmonica")
}

fn snapshot(player: &Player<&'static str>) -> Vec<(u16, u64, u64, u64, bool)> {
    let mut all = Vec::new();
    let mut i = 0;
    while let Some(n) = player.note(i) {
        all.push((n.id, n.instrument_id, n.on, n.off, n.active));
        i += 1;
    }
    assert_eq!(all.len(), player.get_simultaneous_notes());
    all
}

#[test]
fn voice_keeps_what_it_was_made_of() {
    let v = Voice::new(7u32, 42, 12, "Bell");
    assert_eq!(*v.instrument(), 7);
    assert_eq!(v.instrument_id(), 42);
    assert_eq!(v.note_id(), 12);
    assert_eq!(v.get_instrument_name(), "Bell");
    let w = v.clone();
    assert_eq!(*w.instrument(), 7);
    assert_eq!(w.instrument_id(), 42);
    assert_eq!(w.note_id(), 12);
    assert_eq!(w.get_instrument_name(), "Bell");
}

#[test]
fn new_note_is_switched_on_and_never_off() {
    let n = Note::new(3, BELL, "bell", 17);
    assert_eq!(n.id, 3 + PITCH_BASE);
    assert_eq!(n.id, 67);
    assert_eq!(n.on, 17);
    assert_eq!(n.off, 0);
    assert!(n.active);
    assert_eq!(n.channel, "bell");
    assert_eq!(n.instrument_id, BELL);
    assert!(n.sounding());
    assert!(n.answers(3, BELL));
    assert!(!n.answers(4, BELL));
    assert!(!n.answers(3, HARMONICA));
}

#[test]
fn highest_pitch_has_its_place_in_the_scale() {
    let n = Note::new(255, BELL, (), 1);
    assert_eq!(n.id, 319);
    assert!(n.answers(255, BELL));
    assert!(!n.answers(63, BELL));
}

#[test]
fn note_started_at_the_clocks_zero_counts_as_released() {
    let n = Note::new(0, BELL, (), 0);
    assert!(!n.sounding());
}

#[test]
fn released_and_inactive_notes_do_not_sound() {
    let mut n = Note::new(0, BELL, (), 5);
    n.off = 5;
    assert!(!n.sounding());
    n.off = 4;
    assert!(n.sounding());
    n.active = false;
    assert!(!n.sounding());
}

#[test]
fn new_player_is_empty() {
    let player: Player<&'static str> = Player::new();
    assert_eq!(player.get_simultaneous_notes(), 0);
    assert!(player.note(0).is_none());
}

#[test]
fn add_note_appends_a_sounding_note() {
    let mut player = Player::new();
    player.add_note(&bell(0), 10);
    assert_eq!(snapshot(&player), vec![(64, BELL, 10, 0, true)]);
    assert_eq!(player.note(0).unwrap().channel, "bell");
}

#[test]
fn retrigger_updates_on_time_and_adds_no_note() {
    let mut player = Player::new();
    player.add_note(&bell(0), 10);
    player.add_note(&harmonica(0), 11);
    player.add_note(&bell(0), 25);
    assert_eq!(snapshot(&player), vec![(64, BELL, 25, 0, true), (64, HARMONICA, 11, 0, true)]);
}

#[test]
fn same_pitch_on_another_kind_is_another_note() {
    let mut player = Player::new();
    player.add_note(&bell(5), 10);
    player.add_note(&harmonica(5), 10);
    player.add_note(&bell(6), 10);
    assert_eq!(player.get_simultaneous_notes(), 3);
}

#[test]
fn remove_note_switches_the_sounding_note_off() {
    let mut player = Player::new();
    player.add_note(&bell(0), 10);
    player.add_note(&bell(1), 12);
    player.remove_note(&bell(1), 30);
    assert_eq!(snapshot(&player), vec![(64, BELL, 10, 0, true), (65, BELL, 12, 30, true)]);
}

#[test]
fn remove_of_an_absent_voice_changes_nothing() {
    let mut player = Player::new();
    player.remove_note(&bell(0), 5);
    assert_eq!(player.get_simultaneous_notes(), 0);
    player.add_note(&bell(0), 10);
    let before = snapshot(&player);
    player.remove_note(&bell(1), 20);
    player.remove_note(&harmonica(0), 20);
    assert_eq!(snapshot(&player), before);
}

#[test]
fn remove_of_a_released_note_changes_nothing() {
    let mut player = Player::new();
    player.add_note(&bell(0), 10);
    player.remove_note(&bell(0), 20);
    let once = snapshot(&player);
    assert_eq!(once, vec![(64, BELL, 10, 20, true)]);
    player.remove_note(&bell(0), 30);
    assert_eq!(snapshot(&player), once);
}

#[test]
fn add_while_the_note_fades_starts_a_new_note() {
    let mut player = Player::new();
    player.add_note(&bell(0), 10);
    player.remove_note(&bell(0), 20);
    player.add_note(&bell(0), 25);
    assert_eq!(snapshot(&player), vec![(64, BELL, 10, 20, true), (64, BELL, 25, 0, true)]);
    player.add_note(&bell(0), 40);
    assert_eq!(snapshot(&player), vec![(64, BELL, 10, 20, true), (64, BELL, 40, 0, true)]);
    player.remove_note(&bell(0), 50);
    assert_eq!(snapshot(&player), vec![(64, BELL, 10, 20, true), (64, BELL, 40, 50, true)]);
}

#[test]
fn add_notes_adds_one_after_the_other() {
    let mut player = Player::new();
    let (a, b, c) = (bell(0), harmonica(0), bell(0));
    player.add_notes(vec![&a, &b, &c], 7);
    assert_eq!(snapshot(&player), vec![(64, BELL, 7, 0, true), (64, HARMONICA, 7, 0, true)]);
    player.add_notes(vec![], 9);
    assert_eq!(player.get_simultaneous_notes(), 2);
}

#[test]
fn remove_notes_removes_one_after_the_other() {
    let mut player = Player::new();
    let (a, b, c) = (bell(0), harmonica(0), bell(3));
    player.add_notes(vec![&a, &b, &c], 7);
    player.remove_notes(vec![&c, &a, &c], 9);
    assert_eq!(
        snapshot(&player),
        vec![(64, BELL, 7, 9, true), (64, HARMONICA, 7, 0, true), (67, BELL, 7, 9, true)]
    );
}

#[test]
fn finish_marks_and_prune_drops() {
    let mut player = Player::new();
    let (a, b, c) = (bell(0), bell(1), bell(2));
    player.add_notes(vec![&a, &b, &c], 7);
    player.finish(1);
    assert_eq!(
        snapshot(&player),
        vec![(64, BELL, 7, 0, true), (65, BELL, 7, 0, false), (66, BELL, 7, 0, true)]
    );
    player.finish(3);
    assert_eq!(player.get_simultaneous_notes(), 3);
    player.prune();
    assert_eq!(snapshot(&player), vec![(64, BELL, 7, 0, true), (66, BELL, 7, 0, true)]);
    player.prune();
    assert_eq!(player.get_simultaneous_notes(), 2);
}

#[test]
fn finished_note_is_not_found_by_add_or_remove() {
    let mut player = Player::new();
    player.add_note(&bell(0), 7);
    player.finish(0);
    player.remove_note(&bell(0), 9);
    assert_eq!(snapshot(&player), vec![(64, BELL, 7, 0, false)]);
    player.add_note(&bell(0), 9);
    assert_eq!(snapshot(&player), vec![(64, BELL, 7, 0, false), (64, BELL, 9, 0, true)]);
}

#[test]
fn prune_of_all_notes_leaves_none() {
    let mut player = Player::new();
    let (a, b) = (bell(0), bell(1));
    player.add_notes(vec![&a, &b], 7);
    player.finish(0);
    player.finish(1);
    player.prune();
    assert_eq!(player.get_simultaneous_notes(), 0);
}

#[test]
fn tick_calls_each_note_in_order_and_drops_the_finished() {
    let mut player = Player::new();
    let (a, b, c, d) = (bell(0), bell(1), bell(2), bell(3));
    player.add_notes(vec![&a, &b, &c, &d], 7);
    let seen = std::cell::RefCell::new(Vec::new());
    player.tick(|n: &Note<&'static str>| {
        seen.borrow_mut().push(n.id);
        n.id % 2 == 1
    });
    assert_eq!(*seen.borrow(), vec![64, 65, 66, 67]);
    assert_eq!(snapshot(&player), vec![(64, BELL, 7, 0, true), (66, BELL, 7, 0, true)]);
    player.tick(|_n: &Note<&'static str>| false);
    assert_eq!(player.get_simultaneous_notes(), 2);
    player.tick(|_n: &Note<&'static str>| true);
    assert_eq!(player.get_simultaneous_notes(), 0);
}

struct Sine {
    hertz: f64,
    release: f64,
}

impl Clone for Sine {
    fn clone(&self) -> Self {
        Sine { hertz: self.hertz, release: self.release }
    }
}

fn sound(sine: &Sine, time: f64, on: f64, off: f64, finished: &mut bool) -> f64 {
    let level = if on > off { 1.0 } else { 1.0 - (time - off) / sine.release };
    if level <= f64::EPSILON {
        *finished = true;
        return 0.0;
    }
    level * (sine.hertz * 2.0 * std::f64::consts::PI * (time - on)).sin()
}

fn mix(player: &mut Player<Sine>, frame: u64, rate: f64) -> f64 {
    let time = frame as f64 / rate;
    let sum = std::cell::Cell::new(0.0);
    player.tick(|n: &Note<Sine>| {
        let mut finished = false;
        let s = sound(&n.channel, time, n.on as f64 / rate, n.off as f64 / rate, &mut finished);
        sum.set(sum.get() + s);
        finished
    });
    sum.get() * 0.2
}

#[test]
fn one_sine_note_sounds_at_its_frequency_and_fades_out() {
    let rate = 44100.0;
    let voice = Voice::new(Sine { hertz: 440.0, release: 0.5 }, 9, 0, "Sine");
    let mut player = Player::new();
    let mut frame: u64 = 1;
    player.add_note(&voice, frame);
    let mut crossings = 0;
    let mut last = 0.0;
    while frame <= 44100 {
        let s = mix(&mut player, frame, rate);
        assert!(s.abs() <= 0.2 + 1e-9);
        if (last < 0.0 && s >= 0.0) || (last >= 0.0 && s < 0.0) {
            crossings += 1;
        }
        last = s;
        frame += 1;
    }
    assert!((crossings as i64 - 880).abs() <= 2);
    assert_eq!(player.get_simultaneous_notes(), 1);
    player.remove_note(&voice, frame);
    let released = frame;
    let mut peak_late = 0.0f64;
    while frame <= released + 30000 {
        let s = mix(&mut player, frame, rate);
        if frame > released + 22050 {
            peak_late = peak_late.max(s.abs());
        }
        frame += 1;
    }
    assert_eq!(peak_late, 0.0);
    assert_eq!(player.get_simultaneous_notes(), 0);
}
