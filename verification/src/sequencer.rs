//! A percussion sequencer that fires looped drum beats on a fixed grid.

use crate::player::Voice;
use crate::search::{first_match, is_first_match, lemma_first_match, lemma_first_match_unique};
use std::time::Instant;
use vstd::arithmetic::div_mod::{
    lemma_fundamental_div_mod,
    lemma_fundamental_div_mod_converse,
    lemma_mod_bound,
};
use vstd::prelude::*;

verus! {

/// What one track does in one slot of the grid.
#[derive(Clone, Copy, Debug, PartialEq, Eq, Structural)]
pub enum PercussiveState {
    Rest,
    Beat,
}

/// Nanoseconds in a minute.
pub const MINUTE_NANOS: u64 = 60_000_000_000;

/// The length of one sub-beat in nanoseconds, rounded up, at `tempo` beats a
/// minute with `sub_beats` sub-beats to the beat. A grid without tempo or
/// without sub-beats never moves: its length is given as 0.
pub open spec fn beat_nanos(tempo: u32, sub_beats: u32) -> nat {
    if tempo == 0 || sub_beats == 0 {
        0
    } else {
        let per_minute: int = tempo * sub_beats;
        let minute: int = MINUTE_NANOS as int;
        if minute % per_minute == 0 {
            (minute / per_minute) as nat
        } else {
            (minute / per_minute + 1) as nat
        }
    }
}

/// Computes [`beat_nanos`].
pub fn beat_duration(tempo: u32, sub_beats: u32) -> (nanos: u64)
    ensures
        nanos == beat_nanos(tempo, sub_beats),
        nanos == 0 <==> (tempo == 0 || sub_beats == 0),
{
    if tempo == 0 || sub_beats == 0 {
        return 0;
    }
    assert(0 < tempo * sub_beats <= 0xffff_ffff * 0xffff_ffff) by (nonlinear_arith)
        requires
            0 < tempo <= 0xffff_ffff,
            0 < sub_beats <= 0xffff_ffff,
    ;
    let per_minute: u64 = (tempo as u64) * (sub_beats as u64);
    if MINUTE_NANOS % per_minute == 0 {
        assert(MINUTE_NANOS / per_minute > 0) by (nonlinear_arith)
            requires
                per_minute > 0,
                MINUTE_NANOS > 0,
                MINUTE_NANOS % per_minute == 0,
        ;
        MINUTE_NANOS / per_minute
    } else {
        MINUTE_NANOS / per_minute + 1
    }
}

/// The pitch that every voice of the sequencer carries: percussion has no
/// tone of its own.
pub const PERCUSSION_PITCH: u8 = 64;

/// One instrument of the sequencer with its pattern: what it does in each
/// slot of the grid.
pub struct Track<I, const BEATS: usize> {
    pub instrument: I,
    pub instrument_id: u64,
    pub instrument_name: &'static str,
    pub notes: [PercussiveState; BEATS],
}

impl<I, const BEATS: usize> Track<I, BEATS> {
    /// The track plays in slot `beat`.
    pub open spec fn beats_at(&self, beat: int) -> bool {
        0 <= beat < BEATS && self.notes@[beat] == PercussiveState::Beat
    }

    /// `copy` is a clone of this track: its instrument cloned, the rest the
    /// same.
    pub open spec fn clone_is(&self, copy: Self) -> bool where I: Clone {
        &&& cloned::<I>(self.instrument, copy.instrument)
        &&& copy.instrument_id == self.instrument_id
        &&& copy.instrument_name == self.instrument_name
        &&& copy.notes == self.notes
    }

    /// `voice` is what this track fires: the percussion pitch, the track's
    /// kind and name, and a clone of its instrument.
    pub open spec fn fires(&self, voice: Voice<I>) -> bool where I: Clone {
        &&& voice.note_id() == PERCUSSION_PITCH
        &&& voice.instrument_id() == self.instrument_id
        &&& voice.get_instrument_name() == self.instrument_name
        &&& cloned::<I>(self.instrument, *voice.instrument())
    }
}

/// The condition by which a track of the kind `kind` is found.
pub open spec fn of_kind<I, const BEATS: usize>(kind: u64) -> spec_fn(Track<I, BEATS>) -> bool {
    |track: Track<I, BEATS>| track.instrument_id == kind
}

/// No two tracks are of the same kind.
pub open spec fn distinct_kinds<I, const BEATS: usize>(tracks: Seq<Track<I, BEATS>>) -> bool {
    forall|i: int, j: int|
        0 <= i < j < tracks.len() ==> (#[trigger] tracks[i]).instrument_id != (
        #[trigger] tracks[j]).instrument_id
}

/// The tracks after `track` has been added: where a track of its kind is
/// there already, that one keeps its instrument and name and takes the new
/// pattern; otherwise the new track comes last.
pub open spec fn with_track<I, const BEATS: usize>(
    tracks: Seq<Track<I, BEATS>>,
    track: Track<I, BEATS>,
) -> Seq<Track<I, BEATS>> {
    match first_match(tracks, of_kind(track.instrument_id)) {
        Some(i) => tracks.update(i, Track { notes: track.notes, ..tracks[i] }),
        None => tracks.push(track),
    }
}

/// The slot that follows `beat` on a grid of `total` slots: the next one,
/// or the first again after the last.
pub open spec fn next_beat(beat: int, total: int) -> int {
    if beat + 1 >= total {
        0
    } else {
        beat + 1
    }
}

/// The slot that is reached from `beat` in `steps` steps on a grid of
/// `total` slots: the grid is walked round and round.
pub open spec fn beat_after(beat: int, total: int, steps: nat) -> int {
    if steps == 0 {
        beat
    } else if total <= 0 {
        0
    } else {
        (beat + steps) % total
    }
}

/// The condition by which the tracks that play in slot `beat` are picked.
pub open spec fn playing_in<I, const BEATS: usize>(beat: int) -> spec_fn(Track<I, BEATS>) -> bool {
    |track: Track<I, BEATS>| track.beats_at(beat)
}

/// The tracks that fire while the grid takes `steps` steps from `beat`: for
/// each slot reached, in the order in which the slots are reached, the
/// tracks that play in it, in the order of the tracks.
pub open spec fn fired<I, const BEATS: usize>(
    tracks: Seq<Track<I, BEATS>>,
    beat: int,
    total: int,
    steps: nat,
) -> Seq<Track<I, BEATS>>
    decreases steps,
{
    if steps == 0 {
        Seq::empty()
    } else {
        fired(tracks, beat, total, (steps - 1) as nat) + tracks.filter(
            playing_in(beat_after(beat, total, steps)),
        )
    }
}

/// Each voice is what the track in its place fires.
pub open spec fn voices_of<I: Clone, const BEATS: usize>(
    tracks: Seq<Track<I, BEATS>>,
    voices: Seq<Voice<I>>,
) -> bool {
    &&& voices.len() == tracks.len()
    &&& forall|i: int| 0 <= i < voices.len() ==> (#[trigger] tracks[i]).fires(voices[i])
}

/// One step from the slot reached in `steps` steps reaches the slot of
/// `steps + 1` steps.
pub proof fn lemma_beat_after_next(beat: int, total: int, steps: nat)
    requires
        0 <= beat,
        beat < total || (total <= 0 && beat == 0),
    ensures
        beat_after(beat, total, steps + 1) == next_beat(beat_after(beat, total, steps), total),
        0 <= beat_after(beat, total, steps + 1),
        beat_after(beat, total, steps + 1) < total || (total <= 0 && beat_after(
            beat,
            total,
            steps + 1,
        ) == 0),
{
    if total > 0 {
        let at = beat + steps;
        let here = at % total;
        let rounds = at / total;
        lemma_mod_bound(at, total);
        lemma_fundamental_div_mod(at, total);
        assert(at == rounds * total + here) by (nonlinear_arith)
            requires
                at == total * rounds + here,
        ;
        if here + 1 >= total {
            assert(at + 1 == (rounds + 1) * total + 0) by (nonlinear_arith)
                requires
                    at == rounds * total + here,
                    here + 1 == total,
            ;
            lemma_fundamental_div_mod_converse(at + 1, total, rounds + 1, 0);
        } else {
            lemma_fundamental_div_mod_converse(at + 1, total, rounds, here + 1);
        }
        if steps == 0 {
            lemma_fundamental_div_mod_converse(beat, total, 0, beat);
        }
    }
}

/// A walk of `first + then` steps is a walk of `first` steps and, from where
/// that ends, one of `then` steps.
pub proof fn lemma_beat_after_split(beat: int, total: int, first: nat, then: nat)
    requires
        0 <= beat,
        beat < total || (total <= 0 && beat == 0),
    ensures
        beat_after(beat_after(beat, total, first), total, then) == beat_after(
            beat,
            total,
            first + then,
        ),
        0 <= beat_after(beat, total, first),
        beat_after(beat, total, first) < total || (total <= 0 && beat_after(beat, total, first)
            == 0),
    decreases then,
{
    if first > 0 {
        lemma_beat_after_next(beat, total, (first - 1) as nat);
    }
    if then > 0 {
        let before = (then - 1) as nat;
        lemma_beat_after_split(beat, total, first, before);
        lemma_beat_after_next(beat_after(beat, total, first), total, before);
        lemma_beat_after_next(beat, total, first + before);
    }
}

/// The tracks fired on a walk of `first + then` steps are those fired on the
/// first `first` steps, followed by those fired on `then` steps from where
/// these end: no slot is passed over, however the walk is cut.
pub proof fn lemma_fired_split<I, const BEATS: usize>(
    tracks: Seq<Track<I, BEATS>>,
    beat: int,
    total: int,
    first: nat,
    then: nat,
)
    requires
        0 <= beat,
        beat < total || (total <= 0 && beat == 0),
    ensures
        fired(tracks, beat, total, first + then) == fired(tracks, beat, total, first) + fired(
            tracks,
            beat_after(beat, total, first),
            total,
            then,
        ),
    decreases then,
{
    let middle = beat_after(beat, total, first);
    if then == 0 {
        assert(fired(tracks, beat, total, first) + Seq::<Track<I, BEATS>>::empty() =~= fired(
            tracks,
            beat,
            total,
            first,
        ));
    } else {
        let before = (then - 1) as nat;
        lemma_fired_split(tracks, beat, total, first, before);
        lemma_beat_after_split(beat, total, first, then);
        let last = tracks.filter(playing_in(beat_after(beat, total, first + then)));
        assert(fired(tracks, beat, total, first + then) == fired(
            tracks,
            beat,
            total,
            (first + then - 1) as nat,
        ) + last);
        assert((fired(tracks, beat, total, first) + fired(tracks, middle, total, before)) + last
            =~= fired(tracks, beat, total, first) + (fired(tracks, middle, total, before)
            + last));
    }
}

/// Builds a `PercussionSequencer`.
pub struct PercussionSequencerBuilder<I, const BEATS: usize> {
    beats: u32,
    sub_beats: u32,
    tempo: u32,
    channels: Vec<Track<I, BEATS>>,
}

impl<I, const BEATS: usize> PercussionSequencerBuilder<I, BEATS> {
    /// Beats in one cycle of the grid.
    pub closed spec fn beats(&self) -> u32 {
        self.beats
    }

    /// Sub-beats in one beat.
    pub closed spec fn sub_beats(&self) -> u32 {
        self.sub_beats
    }

    /// Beats a minute.
    pub closed spec fn tempo(&self) -> u32 {
        self.tempo
    }

    /// The tracks, in the order in which their kinds were first added.
    pub closed spec fn tracks(&self) -> Seq<Track<I, BEATS>> {
        self.channels@
    }

    /// Slots in one cycle of the grid.
    pub open spec fn total_beats(&self) -> int {
        self.beats() * self.sub_beats()
    }

    /// No kind of instrument has two tracks.
    pub open spec fn wf(&self) -> bool {
        distinct_kinds(self.tracks())
    }

    /// A sequencer can be started from this builder: either its grid never
    /// moves, or every slot of the grid lies within the patterns.
    pub open spec fn startable(&self) -> bool {
        beat_nanos(self.tempo(), self.sub_beats()) == 0 || (1 <= BEATS && self.total_beats()
            <= BEATS)
    }

    /// Constructs a new `PercussionSequencerBuilder` without tracks, at
    /// `tempo` beats a minute.
    pub fn new(tempo: u32, beats: u32, sub_beats: u32) -> (builder: Self)
        ensures
            builder.wf(),
            builder.tempo() == tempo,
            builder.beats() == beats,
            builder.sub_beats() == sub_beats,
            builder.tracks() == Seq::<Track<I, BEATS>>::empty(),
    {
        Self { beats, sub_beats, tempo, channels: Vec::new() }
    }

    /// Constructs a new `PercussionSequencerBuilder` with a certain tempo,
    /// four beats to the cycle and four sub-beats to the beat.
    pub fn new_with_tempo(tempo: u32) -> (builder: Self)
        ensures
            builder.wf(),
            builder.tempo() == tempo,
            builder.beats() == 4,
            builder.sub_beats() == 4,
            builder.tracks() == Seq::<Track<I, BEATS>>::empty(),
    {
        Self { beats: 4, sub_beats: 4, tempo, channels: Vec::new() }
    }

    /// Constructs a new `PercussionSequencerBuilder` at 120 beats a minute,
    /// four beats to the cycle and four sub-beats to the beat.
    pub fn default() -> (builder: Self)
        ensures
            builder.wf(),
            builder.tempo() == 120,
            builder.beats() == 4,
            builder.sub_beats() == 4,
            builder.tracks() == Seq::<Track<I, BEATS>>::empty(),
    {
        Self { beats: 4, sub_beats: 4, tempo: 120, channels: Vec::new() }
    }

    /// The position of the track of the kind `kind`.
    fn find_track(&self, kind: u64) -> (at: Option<usize>)
        ensures
            match at {
                Some(i) => i < self.tracks().len() && first_match(self.tracks(), of_kind(kind))
                    == Some(i as int),
                None => first_match(self.tracks(), of_kind(kind)) is None,
            },
    {
        let mut i: usize = 0;
        while i < self.channels.len()
            invariant
                i <= self.channels.len(),
                forall|j: int| 0 <= j < i ==> (#[trigger] self.channels@[j]).instrument_id != kind,
            decreases self.channels.len() - i,
        {
            if self.channels[i].instrument_id == kind {
                proof {
                    lemma_first_match_unique(self.tracks(), of_kind(kind), Some(i as int));
                }
                return Some(i);
            }
            i += 1;
        }
        proof {
            lemma_first_match_unique(self.tracks(), of_kind(kind), None);
        }
        None
    }

    /// Adds a track to the sequencer: `instrument`, of the kind
    /// `instrument_id` that is called `instrument_name`, plays the pattern
    /// `notes`. A kind that has a track already keeps its instrument and
    /// takes the new pattern.
    pub fn add_track(
        &mut self,
        instrument: I,
        instrument_id: u64,
        instrument_name: &'static str,
        notes: [PercussiveState; BEATS],
    )
        requires
            old(self).wf(),
        ensures
            final(self).wf(),
            final(self).tempo() == old(self).tempo(),
            final(self).beats() == old(self).beats(),
            final(self).sub_beats() == old(self).sub_beats(),
            final(self).tracks() == with_track(
                old(self).tracks(),
                (Track { instrument, instrument_id, instrument_name, notes }),
            ),
            is_first_match(
                old(self).tracks(),
                of_kind(instrument_id),
                first_match(old(self).tracks(), of_kind(instrument_id)),
            ),
    {
        proof {
            lemma_first_match(self.tracks(), of_kind(instrument_id));
        }
        match self.find_track(instrument_id) {
            Some(i) => {
                self.channels[i].notes = notes;
            },
            None => {
                self.channels.push(Track { instrument, instrument_id, instrument_name, notes });
            },
        }
    }

    /// Says whether a sequencer can be started from this builder.
    pub fn can_start(&self) -> (yes: bool)
        ensures
            yes == self.startable(),
    {
        if beat_duration(self.tempo, self.sub_beats) == 0 {
            return true;
        }
        assert(self.beats * self.sub_beats <= 0xffff_ffff * 0xffff_ffff) by (nonlinear_arith)
            requires
                self.beats <= 0xffff_ffff,
                self.sub_beats <= 0xffff_ffff,
        ;
        let total: u64 = (self.beats as u64) * (self.sub_beats as u64);
        1 <= BEATS && total <= BEATS as u64
    }

    /// Constructs a `PercussionSequencer`. It stands on the first slot of
    /// the grid, and its clock starts counting as soon as this method is
    /// called.
    pub fn start(self) -> (sequencer: PercussionSequencer<I, BEATS>) where I: Clone
        requires
            self.wf(),
            self.startable(),
        ensures
            sequencer.wf(),
            sequencer.beat_time() == beat_nanos(self.tempo(), self.sub_beats()),
            sequencer.total_beats() == self.total_beats(),
            sequencer.current_beat() == 0,
            sequencer.accumulated() == 0,
            sequencer.tracks() == self.tracks(),
    {
        assert(self.beats * self.sub_beats <= 0xffff_ffff * 0xffff_ffff) by (nonlinear_arith)
            requires
                self.beats <= 0xffff_ffff,
                self.sub_beats <= 0xffff_ffff,
        ;
        PercussionSequencer {
            beat_time: beat_duration(self.tempo, self.sub_beats),
            current_beat: 0,
            total_beats: (self.beats as u64) * (self.sub_beats as u64),
            accumulate: 0,
            previous: Instant::now(),
            channels: self.channels,
        }
    }
}

/// A percussion instrument sequencer that outputs looped drum beats to be
/// played at any given time.
///
/// The sequencer stands on one slot of its grid and holds the time that has
/// passed since it reached it. Time handed to it moves it on, one sub-beat
/// after the other, and each slot reached fires the tracks that play in it.
pub struct PercussionSequencer<I, const BEATS: usize> {
    beat_time: u64,
    current_beat: usize,
    total_beats: u64,
    accumulate: u64,
    previous: Instant,
    channels: Vec<Track<I, BEATS>>,
}

impl<I: Clone, const BEATS: usize> PercussionSequencer<I, BEATS> {
    pub closed spec fn spec_beat_time(&self) -> u64 {
        self.beat_time
    }

    pub closed spec fn spec_current_beat(&self) -> usize {
        self.current_beat
    }

    pub closed spec fn spec_accumulated(&self) -> u64 {
        self.accumulate
    }

    /// Slots in one cycle of the grid.
    pub closed spec fn total_beats(&self) -> int {
        self.total_beats as int
    }

    /// The tracks, in the order in which their kinds were first added.
    pub closed spec fn tracks(&self) -> Seq<Track<I, BEATS>> {
        self.channels@
    }

    /// No kind has two tracks; and where the grid moves, the sequencer
    /// stands on a slot of the grid, every slot lies within the patterns,
    /// and less than one sub-beat is held back.
    pub open spec fn wf(&self) -> bool {
        &&& distinct_kinds(self.tracks())
        &&& self.beat_time() > 0 ==> {
            &&& self.accumulated() < self.beat_time()
            &&& 1 <= BEATS
            &&& self.total_beats() <= BEATS
            &&& self.current_beat() < self.total_beats() || (self.total_beats() == 0
                && self.current_beat() == 0)
        }
    }

    /// `after` has the grid, the tempo and the tracks of this sequencer.
    pub open spec fn same_grid(&self, after: Self) -> bool {
        &&& after.beat_time() == self.beat_time()
        &&& after.total_beats() == self.total_beats()
        &&& after.tracks() == self.tracks()
    }

    /// What `elapsed` nanoseconds make of this sequencer: `after`, and the
    /// voices fired on the way.
    ///
    /// The time is added to what was held back. Each whole sub-beat in the
    /// sum is one step on the grid; the rest is held back again. The voices
    /// are those of the tracks that play in the slots reached, slot after
    /// slot. A grid that never moves stays as it is and fires nothing.
    pub open spec fn advances_to(&self, elapsed: u64, after: Self, voices: Seq<Voice<I>>) -> bool {
        &&& self.same_grid(after)
        &&& if self.beat_time() == 0 {
            &&& after.current_beat() == self.current_beat()
            &&& after.accumulated() == self.accumulated()
            &&& voices.len() == 0
        } else {
            let due = self.accumulated() + elapsed;
            let steps = (due / (self.beat_time() as int)) as nat;
            &&& after.accumulated() == due % (self.beat_time() as int)
            &&& after.current_beat() == beat_after(
                self.current_beat() as int,
                self.total_beats(),
                steps,
            )
            &&& voices_of(
                fired(self.tracks(), self.current_beat() as int, self.total_beats(), steps),
                voices,
            )
        }
    }

    /// The length of one sub-beat in nanoseconds; 0 where the grid never
    /// moves.
    #[verifier::when_used_as_spec(spec_beat_time)]
    pub fn beat_time(&self) -> (nanos: u64)
        ensures
            nanos == self.beat_time(),
    {
        self.beat_time
    }

    /// The slot on which the sequencer stands.
    #[verifier::when_used_as_spec(spec_current_beat)]
    pub fn current_beat(&self) -> (beat: usize)
        ensures
            beat == self.current_beat(),
    {
        self.current_beat
    }

    /// The nanoseconds that have passed since the slot was reached, as far
    /// as the sequencer was told of them.
    #[verifier::when_used_as_spec(spec_accumulated)]
    pub fn accumulated(&self) -> (nanos: u64)
        ensures
            nanos == self.accumulated(),
    {
        self.accumulate
    }

    /// Appends to `voices` the voices of the tracks that play in the slot on
    /// which the sequencer stands.
    fn fire(&self, voices: &mut Vec<Voice<I>>, Ghost(before): Ghost<Seq<Track<I, BEATS>>>)
        requires
            self.current_beat() < BEATS,
            voices_of(before, old(voices)@),
        ensures
            voices_of(
                before + self.tracks().filter(playing_in(self.current_beat() as int)),
                final(voices)@,
            ),
    {
        let ghost slot = playing_in::<I, BEATS>(self.current_beat as int);
        let mut t: usize = 0;
        proof {
            assert(self.channels@.take(0) =~= Seq::empty());
            assert(Seq::<Track<I, BEATS>>::empty().filter(slot) =~= Seq::empty()) by {
                reveal(Seq::filter);
            }
            assert(before + Seq::<Track<I, BEATS>>::empty() =~= before);
        }
        while t < self.channels.len()
            invariant
                t <= self.channels.len(),
                self.current_beat < BEATS,
                slot == playing_in::<I, BEATS>(self.current_beat as int),
                voices_of(before + self.channels@.take(t as int).filter(slot), voices@),
            decreases self.channels.len() - t,
        {
            let ghost done = self.channels@.take(t as int);
            let ghost track = self.channels@[t as int];
            proof {
                assert(self.channels@.take(t + 1) =~= done.push(track));
                done.lemma_filter_push(track, slot);
            }
            if self.channels[t].notes[self.current_beat] == PercussiveState::Beat {
                let voice = Voice::new(
                    self.channels[t].instrument.clone(),
                    self.channels[t].instrument_id,
                    PERCUSSION_PITCH,
                    self.channels[t].instrument_name,
                );
                voices.push(voice);
                proof {
                    assert(track.fires(voice));
                    assert(before + done.filter(slot).push(track) =~= (before + done.filter(
                        slot,
                    )).push(track));
                }
            }
            t += 1;
        }
        proof {
            assert(self.channels@.take(t as int) =~= self.channels@);
        }
    }

    /// Moves the sequencer on by `elapsed` nanoseconds and outputs the
    /// voices to be played: see [`Self::advances_to`]. Where several
    /// sub-beats have passed, each one fires its voices.
    pub fn advance(&mut self, elapsed: u64) -> (voices: Vec<Voice<I>>)
        requires
            old(self).wf(),
        ensures
            final(self).wf(),
            old(self).advances_to(elapsed, *final(self), voices@),
    {
        let mut voices: Vec<Voice<I>> = Vec::new();
        if self.beat_time == 0 {
            return voices;
        }
        let beat_time: u128 = self.beat_time as u128;
        let mut due: u128 = self.accumulate as u128 + elapsed as u128;
        let ghost start: int = due as int;
        let ghost mut steps: nat = 0;
        let ghost first: int = self.current_beat as int;
        let ghost total: int = self.total_beats as int;
        while due >= beat_time
            invariant
                beat_time == old(self).beat_time,
                beat_time > 0,
                self.beat_time == old(self).beat_time,
                self.total_beats == old(self).total_beats,
                self.channels@ == old(self).channels@,
                self.accumulate == old(self).accumulate,
                total == self.total_beats,
                first == old(self).current_beat,
                1 <= BEATS,
                total <= BEATS,
                0 <= first,
                first < total || (total == 0 && first == 0),
                due + steps * beat_time == start,
                self.current_beat == beat_after(first, total, steps),
                self.current_beat < total || (total == 0 && self.current_beat == 0),
                voices_of(fired(self.channels@, first, total, steps), voices@),
            decreases due,
        {
            due -= beat_time;
            proof {
                lemma_beat_after_next(first, total, steps);
                assert((steps + 1) * beat_time == steps * beat_time + beat_time)
                    by (nonlinear_arith);
            }
            self.current_beat += 1;
            if self.current_beat as u64 >= self.total_beats {
                self.current_beat = 0;
            }
            self.fire(&mut voices, Ghost(fired(self.channels@, first, total, steps)));
            proof {
                steps = steps + 1;
            }
        }
        self.accumulate = due as u64;
        proof {
            lemma_fundamental_div_mod_converse(
                start,
                beat_time as int,
                steps as int,
                due as int,
            );
        }
        voices
    }

    /// Outputs the voices to be played at the time of the call. The
    /// sequencer reads the clock, takes the time since it last read it, and
    /// moves on by that time: by what time, nothing says, so the result is
    /// that of [`Self::advance`] for some number of nanoseconds.
    pub fn update(&mut self) -> (voices: Vec<Voice<I>>)
        requires
            old(self).wf(),
        ensures
            final(self).wf(),
            exists|elapsed: u64| #[trigger] old(self).advances_to(elapsed, *final(self), voices@),
    {
        let nanos: u128 = self.previous.elapsed().as_nanos();
        self.previous = Instant::now();
        let elapsed: u64 = if nanos > u64::MAX as u128 {
            u64::MAX
        } else {
            nanos as u64
        };
        let ghost read = *self;
        let voices = self.advance(elapsed);
        proof {
            assert(read.advances_to(elapsed, *self, voices@));
            assert(read.beat_time() == old(self).beat_time());
            assert(read.current_beat() == old(self).current_beat());
            assert(read.accumulated() == old(self).accumulated());
            assert(read.total_beats() == old(self).total_beats());
            assert(read.tracks() == old(self).tracks());
            assert(old(self).advances_to(elapsed, *self, voices@));
        }
        voices
    }

    /// Time may be handed over in one piece or in two: where `elapsed`
    /// nanoseconds lead from this sequencer to `middle` and `then` more lead
    /// on to `after`, the two together lead from this sequencer to `after`,
    /// and fire the voices of the first piece followed by those of the
    /// second. A caller that polls seldom loses no beat.
    pub proof fn lemma_advance_in_two(
        self,
        elapsed: u64,
        middle: Self,
        first: Seq<Voice<I>>,
        then: u64,
        after: Self,
        second: Seq<Voice<I>>,
    )
        requires
            self.wf(),
            middle.wf(),
            elapsed + then <= u64::MAX,
            self.advances_to(elapsed, middle, first),
            middle.advances_to(then, after, second),
        ensures
            self.advances_to((elapsed + then) as u64, after, first + second),
    {
        if self.beat_time() > 0 {
            let length = self.beat_time() as int;
            let due = self.accumulated() + elapsed;
            let steps = due / length;
            let due_then = middle.accumulated() + then;
            let steps_then = due_then / length;
            lemma_fundamental_div_mod(due, length);
            lemma_fundamental_div_mod(due_then, length);
            lemma_mod_bound(due_then, length);
            assert(steps >= 0 && steps_then >= 0) by (nonlinear_arith)
                requires
                    length > 0,
                    due >= 0,
                    due_then >= 0,
                    steps == due / length,
                    steps_then == due_then / length,
            ;
            assert(due + then == (steps + steps_then) * length + due_then % length)
                by (nonlinear_arith)
                requires
                    due == length * steps + due % length,
                    due_then == length * steps_then + due_then % length,
                    due_then == due % length + then,
            ;
            lemma_fundamental_div_mod_converse(
                due + then,
                length,
                steps + steps_then,
                due_then % length,
            );
            let beat = self.current_beat() as int;
            let total = self.total_beats();
            lemma_beat_after_split(beat, total, steps as nat, steps_then as nat);
            lemma_fired_split(self.tracks(), beat, total, steps as nat, steps_then as nat);
            let fired_first = fired(self.tracks(), beat, total, steps as nat);
            let fired_then = fired(
                self.tracks(),
                middle.current_beat() as int,
                total,
                steps_then as nat,
            );
            assert forall|i: int| 0 <= i < (first + second).len() implies (#[trigger] (fired_first
                + fired_then)[i]).fires((first + second)[i]) by {
                if i < first.len() {
                    assert(fired_first[i].fires(first[i]));
                } else {
                    assert(fired_then[i - first.len()].fires(second[i - first.len()]));
                }
            }
        } else {
            assert(first + second =~= Seq::<Voice<I>>::empty());
        }
    }
}

/// `copy` holds a clone of each track: its instrument cloned, the rest the
/// same.
pub open spec fn tracks_cloned<I: Clone, const BEATS: usize>(
    tracks: Seq<Track<I, BEATS>>,
    copy: Seq<Track<I, BEATS>>,
) -> bool {
    &&& copy.len() == tracks.len()
    &&& forall|i: int| 0 <= i < tracks.len() ==> (#[trigger] tracks[i]).clone_is(copy[i])
}

/// Clones the tracks one by one.
fn clone_tracks<I: Clone, const BEATS: usize>(tracks: &Vec<Track<I, BEATS>>) -> (copy: Vec<
    Track<I, BEATS>,
>)
    ensures
        tracks_cloned(tracks@, copy@),
        distinct_kinds(tracks@) ==> distinct_kinds(copy@),
{
    let mut copy: Vec<Track<I, BEATS>> = Vec::new();
    let mut i: usize = 0;
    while i < tracks.len()
        invariant
            i <= tracks.len(),
            copy@.len() == i,
            forall|j: int| 0 <= j < i ==> (#[trigger] tracks@[j]).clone_is(copy@[j]),
        decreases tracks.len() - i,
    {
        copy.push(tracks[i].clone());
        i += 1;
    }
    proof {
        if distinct_kinds(tracks@) {
            assert forall|a: int, b: int| 0 <= a < b < copy@.len() implies (
            #[trigger] copy@[a]).instrument_id != (#[trigger] copy@[b]).instrument_id by {
                assert(tracks@[a].clone_is(copy@[a]));
                assert(tracks@[b].clone_is(copy@[b]));
            }
        }
    }
    copy
}

impl<I: Clone, const BEATS: usize> Clone for Track<I, BEATS> {
    /// A track of the same kind, name and pattern, with a clone of the
    /// instrument.
    fn clone(&self) -> (copy: Self)
        ensures
            self.clone_is(copy),
    {
        Track {
            instrument: self.instrument.clone(),
            instrument_id: self.instrument_id,
            instrument_name: self.instrument_name,
            notes: self.notes,
        }
    }
}

impl<I: Clone, const BEATS: usize> Clone for PercussionSequencerBuilder<I, BEATS> {
    /// A builder with the same grid and tempo, and a clone of each track.
    fn clone(&self) -> (copy: Self)
        ensures
            copy.tempo() == self.tempo(),
            copy.beats() == self.beats(),
            copy.sub_beats() == self.sub_beats(),
            tracks_cloned(self.tracks(), copy.tracks()),
            self.wf() ==> copy.wf(),
    {
        PercussionSequencerBuilder {
            beats: self.beats,
            sub_beats: self.sub_beats,
            tempo: self.tempo,
            channels: clone_tracks(&self.channels),
        }
    }
}

impl<I: Clone, const BEATS: usize> Clone for PercussionSequencer<I, BEATS> {
    /// A sequencer on the same slot of the same grid, holding back the same
    /// time, with a clone of each track and the same reading of the clock.
    fn clone(&self) -> (copy: Self)
        ensures
            copy.beat_time() == self.beat_time(),
            copy.total_beats() == self.total_beats(),
            copy.current_beat() == self.current_beat(),
            copy.accumulated() == self.accumulated(),
            tracks_cloned(self.tracks(), copy.tracks()),
            self.wf() ==> copy.wf(),
    {
        PercussionSequencer {
            beat_time: self.beat_time,
            current_beat: self.current_beat,
            total_beats: self.total_beats,
            accumulate: self.accumulate,
            previous: self.previous,
            channels: clone_tracks(&self.channels),
        }
    }
}

} // verus!
