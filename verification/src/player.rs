//! Voices, and the table of notes that the mixer walks on every tick.

use crate::note::Note;
use crate::search::{first_match, is_first_match, lemma_first_match, lemma_first_match_unique};
use vstd::prelude::*;

verus! {

/// A request to start or stop one note of one instrument at one pitch.
///
/// A voice carries its instrument as a value that the engine never looks
/// into, the number that identifies the instrument's kind, and the kind's
/// name for display. Two voices are the same voice to the engine when their
/// pitch and kind agree.
pub struct Voice<I> {
    instrument: I,
    instrument_id: u64,
    note_id: u8,
    instrument_name: &'static str,
}

impl<I> Voice<I> {
    pub closed spec fn spec_instrument(&self) -> &I {
        &self.instrument
    }

    pub closed spec fn spec_instrument_id(&self) -> u64 {
        self.instrument_id
    }

    pub closed spec fn spec_note_id(&self) -> u8 {
        self.note_id
    }

    pub closed spec fn spec_instrument_name(&self) -> &'static str {
        self.instrument_name
    }

    /// Creates a voice for `instrument`, of the kind `instrument_id` that is
    /// called `instrument_name`, at the pitch `note_id`.
    pub fn new(
        instrument: I,
        instrument_id: u64,
        note_id: u8,
        instrument_name: &'static str,
    ) -> (voice: Self)
        ensures
            voice.instrument() == instrument,
            voice.instrument_id() == instrument_id,
            voice.note_id() == note_id,
            voice.get_instrument_name() == instrument_name,
    {
        Self { instrument, instrument_id, note_id, instrument_name }
    }

    /// The instrument that the voice carries.
    #[verifier::when_used_as_spec(spec_instrument)]
    pub fn instrument(&self) -> (instrument: &I)
        ensures
            instrument == self.instrument(),
    {
        &self.instrument
    }

    /// The number of the instrument's kind.
    #[verifier::when_used_as_spec(spec_instrument_id)]
    pub fn instrument_id(&self) -> (id: u64)
        ensures
            id == self.instrument_id(),
    {
        self.instrument_id
    }

    /// The pitch, in semitones.
    #[verifier::when_used_as_spec(spec_note_id)]
    pub fn note_id(&self) -> (id: u8)
        ensures
            id == self.note_id(),
    {
        self.note_id
    }

    /// Gets the instrument name of a `Voice`.
    #[verifier::when_used_as_spec(spec_instrument_name)]
    pub fn get_instrument_name(&self) -> (name: &'static str)
        ensures
            name == self.get_instrument_name(),
    {
        self.instrument_name
    }
}

impl<I: Clone> Clone for Voice<I> {
    /// A voice for the same pitch and kind, with a clone of the instrument.
    fn clone(&self) -> (voice: Self)
        ensures
            cloned::<I>(*self.instrument(), *voice.instrument()),
            voice.instrument_id() == self.instrument_id(),
            voice.note_id() == self.note_id(),
            voice.get_instrument_name() == self.get_instrument_name(),
    {
        Voice {
            instrument: self.instrument.clone(),
            instrument_id: self.instrument_id,
            note_id: self.note_id,
            instrument_name: self.instrument_name,
        }
    }
}

/// The condition by which the note is found that a voice of the pitch
/// `pitch` and the kind `kind` starts again or lets go: it is that voice's
/// note, and it is sounding.
pub open spec fn sounding_as<I>(pitch: u8, kind: u64) -> spec_fn(Note<I>) -> bool {
    |note: Note<I>| note.is_for(pitch, kind) && note.is_sounding()
}

/// No two sounding notes stand at the same place in the scale with the same
/// kind of instrument.
pub open spec fn distinct_sounding<I>(notes: Seq<Note<I>>) -> bool {
    forall|i: int, j: int|
        0 <= i < j < notes.len() && (#[trigger] notes[i]).is_sounding() && (
        #[trigger] notes[j]).is_sounding() ==> !(notes[i].id == notes[j].id
            && notes[i].instrument_id == notes[j].instrument_id)
}

/// The notes after a voice of the pitch `pitch` and the kind `kind` has been
/// added at the time `now`: its sounding note, where there is one, is
/// switched on again; otherwise a new note with the instrument `channel`
/// comes last.
pub open spec fn added<I>(notes: Seq<Note<I>>, pitch: u8, kind: u64, now: u64, channel: I) -> Seq<
    Note<I>,
> {
    match first_match(notes, sounding_as(pitch, kind)) {
        Some(i) => notes.update(i, notes[i].retriggered(now)),
        None => notes.push(Note::started(pitch, kind, channel, now)),
    }
}

/// The notes after a voice of the pitch `pitch` and the kind `kind` has been
/// removed at the time `now`: its sounding note, where there is one, is
/// switched off; otherwise nothing changes.
pub open spec fn released<I>(notes: Seq<Note<I>>, pitch: u8, kind: u64, now: u64) -> Seq<Note<I>> {
    match first_match(notes, sounding_as(pitch, kind)) {
        Some(i) => notes.update(i, notes[i].let_go(now)),
        None => notes,
    }
}

/// `channels` holds, place for place, a clone of each voice's instrument.
pub open spec fn clones_of<I: Clone>(voices: Seq<&Voice<I>>, channels: Seq<I>) -> bool {
    &&& channels.len() == voices.len()
    &&& forall|i: int|
        0 <= i < voices.len() ==> cloned::<I>(
            *(#[trigger] voices[i]).instrument(),
            channels[i],
        )
}

/// The notes after the voices have been added one after the other at the
/// time `now`, each new note taking the instrument in its voice's place in
/// `channels`.
pub open spec fn added_all<I>(
    notes: Seq<Note<I>>,
    voices: Seq<&Voice<I>>,
    now: u64,
    channels: Seq<I>,
) -> Seq<Note<I>>
    decreases voices.len(),
{
    if voices.len() == 0 {
        notes
    } else {
        added(
            added_all(notes, voices.drop_last(), now, channels.drop_last()),
            voices.last().note_id(),
            voices.last().instrument_id(),
            now,
            channels.last(),
        )
    }
}

/// The notes after the voices have been removed one after the other at the
/// time `now`.
pub open spec fn released_all<I>(notes: Seq<Note<I>>, voices: Seq<&Voice<I>>, now: u64) -> Seq<
    Note<I>,
>
    decreases voices.len(),
{
    if voices.len() == 0 {
        notes
    } else {
        released(
            released_all(notes, voices.drop_last(), now),
            voices.last().note_id(),
            voices.last().instrument_id(),
            now,
        )
    }
}

/// The condition by which the notes that stay in the table are picked.
pub open spec fn still_active<I>() -> spec_fn(Note<I>) -> bool {
    |note: Note<I>| note.active
}

/// Adding a voice keeps sounding notes distinct.
pub proof fn lemma_added_distinct<I>(
    notes: Seq<Note<I>>,
    pitch: u8,
    kind: u64,
    now: u64,
    channel: I,
)
    requires
        distinct_sounding(notes),
    ensures
        distinct_sounding(added(notes, pitch, kind, now, channel)),
{
    let after = added(notes, pitch, kind, now, channel);
    lemma_first_match(notes, sounding_as(pitch, kind));
    assert forall|i: int, j: int|
        0 <= i < j < after.len() && (#[trigger] after[i]).is_sounding() && (
        #[trigger] after[j]).is_sounding() implies !(after[i].id == after[j].id
        && after[i].instrument_id == after[j].instrument_id) by {
        match first_match(notes, sounding_as(pitch, kind)) {
            Some(at) => {
                assert(notes[at].is_sounding());
                assert(notes[i].is_sounding());
                assert(notes[j].is_sounding());
            },
            None => {
                if j == notes.len() {
                    assert(!sounding_as(pitch, kind)(notes[i]));
                } else {
                    assert(notes[i].is_sounding());
                    assert(notes[j].is_sounding());
                }
            },
        }
    }
}

/// Removing a voice keeps sounding notes distinct.
pub proof fn lemma_released_distinct<I>(notes: Seq<Note<I>>, pitch: u8, kind: u64, now: u64)
    requires
        distinct_sounding(notes),
    ensures
        distinct_sounding(released(notes, pitch, kind, now)),
{
    let after = released(notes, pitch, kind, now);
    lemma_first_match(notes, sounding_as(pitch, kind));
    assert forall|i: int, j: int|
        0 <= i < j < after.len() && (#[trigger] after[i]).is_sounding() && (
        #[trigger] after[j]).is_sounding() implies !(after[i].id == after[j].id
        && after[i].instrument_id == after[j].instrument_id) by {
        match first_match(notes, sounding_as(pitch, kind)) {
            Some(at) => {
                assert(notes[at].is_sounding());
                assert(notes[i].is_sounding());
                assert(notes[j].is_sounding());
            },
            None => {},
        }
    }
}

/// Taking one note out keeps sounding notes distinct.
pub proof fn lemma_remove_distinct<I>(notes: Seq<Note<I>>, at: int)
    requires
        distinct_sounding(notes),
        0 <= at < notes.len(),
    ensures
        distinct_sounding(notes.remove(at)),
{
    let after = notes.remove(at);
    assert forall|i: int, j: int|
        0 <= i < j < after.len() && (#[trigger] after[i]).is_sounding() && (
        #[trigger] after[j]).is_sounding() implies !(after[i].id == after[j].id
        && after[i].instrument_id == after[j].instrument_id) by {
        let from_i = if i < at {
            i
        } else {
            i + 1
        };
        let from_j = if j < at {
            j
        } else {
            j + 1
        };
        assert(after[i] == notes[from_i]);
        assert(after[j] == notes[from_j]);
    }
}

/// The condition by which the notes are counted that stand at the place of a
/// voice of the pitch `pitch`, with its kind `kind`: sounding or not.
pub open spec fn of_voice<I>(pitch: u8, kind: u64) -> spec_fn(Note<I>) -> bool {
    |note: Note<I>| note.is_for(pitch, kind)
}

/// Two sequences of one length whose items agree, place for place, on a
/// condition hold equally many items that meet it.
pub proof fn lemma_filter_len_agrees<T>(a: Seq<T>, b: Seq<T>, wanted: spec_fn(T) -> bool)
    requires
        a.len() == b.len(),
        forall|i: int| 0 <= i < a.len() ==> wanted(a[i]) == wanted(b[i]),
    ensures
        a.filter(wanted).len() == b.filter(wanted).len(),
    decreases a.len(),
{
    reveal(Seq::filter);
    if a.len() > 0 {
        assert(wanted(a.last()) == wanted(b.last()));
        lemma_filter_len_agrees(a.drop_last(), b.drop_last(), wanted);
    }
}

/// Adding a voice whose note is sounding starts that note again and adds
/// none.
///
/// The table keeps its length. The note that was found is switched on at
/// `now` and is otherwise as before. Every other note is as before. As many
/// notes as before stand at the voice's place with its kind, so where there
/// was one there is one. And if `now` is later than the time at which the
/// note was last switched off, it is the only sounding note of the voice.
pub proof fn lemma_retrigger_adds_none<I>(
    notes: Seq<Note<I>>,
    pitch: u8,
    kind: u64,
    now: u64,
    channel: I,
)
    requires
        distinct_sounding(notes),
        exists|i: int| 0 <= i < notes.len() && sounding_as(pitch, kind)(#[trigger] notes[i]),
    ensures
        ({
            let after = added(notes, pitch, kind, now, channel);
            let at = first_match(notes, sounding_as(pitch, kind));
            &&& at is Some
            &&& after.len() == notes.len()
            &&& after[at->0] == notes[at->0].retriggered(now)
            &&& after[at->0].on == now
            &&& forall|j: int| 0 <= j < notes.len() && j != at->0 ==> after[j] == notes[j]
            &&& after.filter(of_voice(pitch, kind)).len() == notes.filter(
                of_voice(pitch, kind),
            ).len()
            &&& now > notes[at->0].off ==> forall|j: int|
                0 <= j < after.len() ==> (sounding_as(pitch, kind)(#[trigger] after[j]) <==> j
                    == at->0)
        }),
{
    let after = added(notes, pitch, kind, now, channel);
    lemma_first_match(notes, sounding_as(pitch, kind));
    let at = first_match(notes, sounding_as(pitch, kind))->0;
    lemma_filter_len_agrees(after, notes, of_voice(pitch, kind));
    if now > notes[at].off {
        assert forall|j: int| 0 <= j < after.len() implies (sounding_as(pitch, kind)(
            #[trigger] after[j],
        ) <==> j == at) by {
            if j != at && sounding_as(pitch, kind)(after[j]) {
                assert(notes[j].is_sounding());
                assert(notes[at].is_sounding());
            }
        }
    }
}

/// Removing a voice whose note is sounding lets that note go and touches no
/// other: the table keeps its length, the note found is switched off at
/// `now`, and, unless the clock has run backwards to before the time at
/// which the note was switched on, it is released from then on.
pub proof fn lemma_remove_lets_go<I>(notes: Seq<Note<I>>, pitch: u8, kind: u64, now: u64)
    requires
        exists|i: int| 0 <= i < notes.len() && sounding_as(pitch, kind)(#[trigger] notes[i]),
    ensures
        ({
            let after = released(notes, pitch, kind, now);
            let at = first_match(notes, sounding_as(pitch, kind));
            &&& at is Some
            &&& after.len() == notes.len()
            &&& after[at->0] == notes[at->0].let_go(now)
            &&& after[at->0].off == now
            &&& forall|j: int| 0 <= j < notes.len() && j != at->0 ==> after[j] == notes[j]
            &&& now >= notes[at->0].on ==> after[at->0].is_released() && !after[at->0].is_sounding()
        }),
{
    lemma_first_match(notes, sounding_as(pitch, kind));
}

/// Removing a voice that has no sounding note, because it has no note or
/// because its note was let go already, leaves the table as it is.
pub proof fn lemma_remove_without_sounding<I>(notes: Seq<Note<I>>, pitch: u8, kind: u64, now: u64)
    requires
        forall|i: int| 0 <= i < notes.len() ==> !sounding_as(pitch, kind)(#[trigger] notes[i]),
    ensures
        released(notes, pitch, kind, now) == notes,
{
    lemma_first_match_unique(notes, sounding_as(pitch, kind), None);
}

/// Removing a voice a second time changes nothing, as long as the clock has
/// not run backwards: no note of the voice was switched on after the time
/// `first` of the first removal.
pub proof fn lemma_remove_twice<I>(
    notes: Seq<Note<I>>,
    pitch: u8,
    kind: u64,
    first: u64,
    second: u64,
)
    requires
        distinct_sounding(notes),
        forall|i: int|
            0 <= i < notes.len() && (#[trigger] notes[i]).is_for(pitch, kind) ==> notes[i].on
                <= first,
    ensures
        released(released(notes, pitch, kind, first), pitch, kind, second) == released(
            notes,
            pitch,
            kind,
            first,
        ),
{
    let once = released(notes, pitch, kind, first);
    lemma_first_match(notes, sounding_as(pitch, kind));
    assert forall|j: int| 0 <= j < once.len() implies !sounding_as(pitch, kind)(
        #[trigger] once[j],
    ) by {
        match first_match(notes, sounding_as(pitch, kind)) {
            Some(at) => {
                if j != at && sounding_as(pitch, kind)(once[j]) {
                    assert(notes[j].is_sounding());
                    assert(notes[at].is_sounding());
                }
            },
            None => {},
        }
    }
    lemma_remove_without_sounding(once, pitch, kind, second);
}

/// A note that the mixer has reported as finished is gone after the next
/// pruning: what stays is what pruning leaves of the other notes, and the
/// table is shorter than before.
pub proof fn lemma_finished_is_pruned<I>(notes: Seq<Note<I>>, index: int)
    requires
        0 <= index < notes.len(),
    ensures
        ({
            let after = notes.update(index, notes[index].finished()).filter(still_active());
            &&& after == notes.remove(index).filter(still_active())
            &&& after.len() < notes.len()
            &&& forall|j: int| 0 <= j < after.len() ==> (#[trigger] after[j]).active
        }),
{
    let marked = notes.update(index, notes[index].finished());
    let head = notes.take(index);
    let rest = notes.skip(index + 1);
    let keep = still_active::<I>();
    assert(marked =~= head.push(notes[index].finished()) + rest);
    assert(notes.remove(index) =~= head + rest);
    Seq::filter_distributes_over_add(head.push(notes[index].finished()), rest, keep);
    Seq::filter_distributes_over_add(head, rest, keep);
    head.lemma_filter_push(notes[index].finished(), keep);
    let after = marked.filter(keep);
    notes.remove(index).lemma_filter_len(keep);
    assert forall|j: int| 0 <= j < after.len() implies (#[trigger] after[j]).active by {
        marked.lemma_filter_pred(keep, j);
    }
}

/// The notes after the mixer has gone through them: the note in each place
/// whose report is `true` is no longer active, the others are as before.
pub open spec fn marked<I>(notes: Seq<Note<I>>, reports: Seq<bool>) -> Seq<Note<I>> {
    Seq::new(
        notes.len(),
        |i: int|
            if 0 <= i < reports.len() && reports[i] {
                notes[i].finished()
            } else {
                notes[i]
            },
    )
}

/// Reporting notes as finished keeps sounding notes distinct.
pub proof fn lemma_marked_distinct<I>(notes: Seq<Note<I>>, reports: Seq<bool>)
    requires
        distinct_sounding(notes),
    ensures
        distinct_sounding(marked(notes, reports)),
{
    let after = marked(notes, reports);
    assert forall|i: int, j: int|
        0 <= i < j < after.len() && (#[trigger] after[i]).is_sounding() && (
        #[trigger] after[j]).is_sounding() implies !(after[i].id == after[j].id
        && after[i].instrument_id == after[j].instrument_id) by {
        assert(notes[i].is_sounding());
        assert(notes[j].is_sounding());
    }
}

/// A tick drops what the mixer reports: where the note at `index` is
/// reported as finished, the table is shorter after the tick, and every
/// note that is left is active.
pub proof fn lemma_tick_drops_finished<I>(notes: Seq<Note<I>>, reports: Seq<bool>, index: int)
    requires
        reports.len() == notes.len(),
        0 <= index < notes.len(),
        reports[index],
    ensures
        ({
            let after = marked(notes, reports).filter(still_active());
            &&& after.len() < notes.len()
            &&& forall|j: int| 0 <= j < after.len() ==> (#[trigger] after[j]).active
        }),
{
    let gone = marked(notes, reports);
    assert(gone.update(index, gone[index].finished()) =~= gone);
    lemma_finished_is_pruned(gone, index);
}

/// An audio player's table of notes: every note that sounds or fades, in the
/// order in which the notes were started.
///
/// The table is what the mixer and the callers share. Callers add and remove
/// voices at the time that they read off the clock. On every tick the mixer
/// looks at each note, reports the finished ones, and prunes the table.
pub struct Player<I> {
    notes: Vec<Note<I>>,
}

impl<I> View for Player<I> {
    type V = Seq<Note<I>>;

    /// The notes, in the order in which they were started.
    closed spec fn view(&self) -> Seq<Note<I>> {
        self.notes@
    }
}

impl<I: Clone> Player<I> {
    /// No pitch sounds twice on one kind of instrument.
    pub open spec fn wf(&self) -> bool {
        distinct_sounding(self@)
    }

    /// Creates a new player instance, with no notes.
    pub fn new() -> (player: Self)
        ensures
            player.wf(),
            player@ == Seq::<Note<I>>::empty(),
    {
        Player { notes: Vec::new() }
    }

    /// The position of the sounding note of the pitch `pitch` and the kind
    /// `kind`.
    fn find_sounding(&self, pitch: u8, kind: u64) -> (at: Option<usize>)
        ensures
            match at {
                Some(i) => i < self@.len() && first_match(self@, sounding_as(pitch, kind))
                    == Some(i as int),
                None => first_match(self@, sounding_as(pitch, kind)) is None,
            },
    {
        let mut i: usize = 0;
        while i < self.notes.len()
            invariant
                i <= self.notes.len(),
                forall|j: int| 0 <= j < i ==> !sounding_as(pitch, kind)(#[trigger] self.notes@[j]),
            decreases self.notes.len() - i,
        {
            if self.notes[i].answers(pitch, kind) && self.notes[i].sounding() {
                proof {
                    lemma_first_match_unique(self@, sounding_as(pitch, kind), Some(i as int));
                }
                return Some(i);
            }
            i += 1;
        }
        proof {
            lemma_first_match_unique(self@, sounding_as(pitch, kind), None);
        }
        None
    }

    /// Adds `voice` at the time `now`, and gives the instrument that a new
    /// note would carry.
    fn add_one(&mut self, voice: &Voice<I>, now: u64) -> (channel: Ghost<I>)
        requires
            old(self).wf(),
        ensures
            final(self).wf(),
            cloned::<I>(*voice.instrument(), channel@),
            final(self)@ == added(
                old(self)@,
                voice.note_id(),
                voice.instrument_id(),
                now,
                channel@,
            ),
    {
        match self.find_sounding(voice.note_id, voice.instrument_id) {
            Some(i) => {
                proof {
                    lemma_added_distinct(
                        self@,
                        voice.note_id(),
                        voice.instrument_id(),
                        now,
                        voice.instrument,
                    );
                }
                self.notes[i].on = now;
                self.notes[i].active = true;
                assert(self@ =~= added(
                    old(self)@,
                    voice.note_id(),
                    voice.instrument_id(),
                    now,
                    voice.instrument,
                ));
                Ghost(voice.instrument)
            },
            None => {
                let channel = voice.instrument.clone();
                proof {
                    lemma_added_distinct(
                        self@,
                        voice.note_id(),
                        voice.instrument_id(),
                        now,
                        channel,
                    );
                }
                self.notes.push(Note::new(voice.note_id, voice.instrument_id, channel, now));
                assert(self@ =~= added(
                    old(self)@,
                    voice.note_id(),
                    voice.instrument_id(),
                    now,
                    channel,
                ));
                Ghost(channel)
            },
        }
    }

    /// Adds a note to the queue at the time `now`.
    ///
    /// Where a note of the voice's pitch and kind is sounding, that note is
    /// switched on again at `now` and no note is added. Otherwise a new note
    /// comes last, switched on at `now`, with a clone of the voice's
    /// instrument.
    pub fn add_note(&mut self, voice: &Voice<I>, now: u64)
        requires
            old(self).wf(),
        ensures
            final(self).wf(),
            exists|channel: I| #[trigger]
                cloned::<I>(*voice.instrument(), channel) && final(self)@ == added(
                    old(self)@,
                    voice.note_id(),
                    voice.instrument_id(),
                    now,
                    channel,
                ),
            is_first_match(
                old(self)@,
                sounding_as(voice.note_id(), voice.instrument_id()),
                first_match(old(self)@, sounding_as(voice.note_id(), voice.instrument_id())),
            ),
    {
        proof {
            lemma_first_match(self@, sounding_as(voice.note_id(), voice.instrument_id()));
        }
        let channel = self.add_one(voice, now);
        assert(cloned::<I>(*voice.instrument(), channel@));
    }

    /// Removes a note from the queue at the time `now`: the sounding note of
    /// the voice's pitch and kind is switched off, and fades from then on.
    /// Where no such note is sounding, nothing changes.
    pub fn remove_note(&mut self, voice: &Voice<I>, now: u64)
        requires
            old(self).wf(),
        ensures
            final(self).wf(),
            final(self)@ == released(old(self)@, voice.note_id(), voice.instrument_id(), now),
            is_first_match(
                old(self)@,
                sounding_as(voice.note_id(), voice.instrument_id()),
                first_match(old(self)@, sounding_as(voice.note_id(), voice.instrument_id())),
            ),
    {
        proof {
            lemma_released_distinct(self@, voice.note_id(), voice.instrument_id(), now);
            lemma_first_match(self@, sounding_as(voice.note_id(), voice.instrument_id()));
        }
        match self.find_sounding(voice.note_id, voice.instrument_id) {
            Some(i) => {
                self.notes[i].off = now;
            },
            None => {},
        }
        assert(self@ =~= released(old(self)@, voice.note_id(), voice.instrument_id(), now));
    }

    /// Adds multiple notes to the queue in bulk, one after the other, all at
    /// the time `now`.
    pub fn add_notes(&mut self, voices: Vec<&Voice<I>>, now: u64)
        requires
            old(self).wf(),
        ensures
            final(self).wf(),
            exists|channels: Seq<I>| #[trigger]
                clones_of(voices@, channels) && final(self)@ == added_all(
                    old(self)@,
                    voices@,
                    now,
                    channels,
                ),
    {
        let ghost mut channels: Seq<I> = Seq::empty();
        let mut k: usize = 0;
        proof {
            assert(voices@.take(0) =~= Seq::empty());
        }
        while k < voices.len()
            invariant
                k <= voices.len(),
                self.wf(),
                clones_of(voices@.take(k as int), channels),
                self@ == added_all(old(self)@, voices@.take(k as int), now, channels),
            decreases voices.len() - k,
        {
            let channel = self.add_one(voices[k], now);
            proof {
                assert(voices@.take(k + 1).drop_last() =~= voices@.take(k as int));
                assert(channels.push(channel@).drop_last() =~= channels);
                channels = channels.push(channel@);
            }
            k += 1;
        }
        proof {
            assert(voices@.take(k as int) =~= voices@);
        }
    }

    /// Removes multiple notes from the queue in bulk, one after the other,
    /// all at the time `now`.
    pub fn remove_notes(&mut self, voices: Vec<&Voice<I>>, now: u64)
        requires
            old(self).wf(),
        ensures
            final(self).wf(),
            final(self)@ == released_all(old(self)@, voices@, now),
    {
        let mut k: usize = 0;
        proof {
            assert(voices@.take(0) =~= Seq::empty());
        }
        while k < voices.len()
            invariant
                k <= voices.len(),
                self.wf(),
                self@ == released_all(old(self)@, voices@.take(k as int), now),
            decreases voices.len() - k,
        {
            self.remove_note(voices[k], now);
            proof {
                assert(voices@.take(k + 1).drop_last() =~= voices@.take(k as int));
            }
            k += 1;
        }
        proof {
            assert(voices@.take(k as int) =~= voices@);
        }
    }

    /// Gets the number of notes currently in the queue.
    pub fn get_simultaneous_notes(&self) -> (count: usize)
        ensures
            count == self@.len(),
    {
        self.notes.len()
    }

    /// The note at the position `index`, for the mixer to sound it; nothing
    /// beyond the last note.
    pub fn note(&self, index: usize) -> (note: Option<&Note<I>>)
        ensures
            match note {
                Some(found) => index < self@.len() && *found == self@[index as int],
                None => index >= self@.len(),
            },
    {
        if index < self.notes.len() {
            Some(&self.notes[index])
        } else {
            None
        }
    }

    /// Takes the mixer's report that the note at the position `index` is
    /// finished: the note is no longer active, and the next pruning drops
    /// it. Beyond the last note nothing changes.
    pub fn finish(&mut self, index: usize)
        requires
            old(self).wf(),
        ensures
            final(self).wf(),
            final(self)@ == if index < old(self)@.len() {
                old(self)@.update(index as int, old(self)@[index as int].finished())
            } else {
                old(self)@
            },
    {
        if index < self.notes.len() {
            self.notes[index].active = false;
        }
    }

    /// Drops every note that is no longer active. The notes that stay keep
    /// their order.
    pub fn prune(&mut self)
        requires
            old(self).wf(),
        ensures
            final(self).wf(),
            final(self)@ == old(self)@.filter(still_active()),
    {
        let ghost before = self.notes@;
        let ghost mut seen: int = 0;
        let mut i: usize = 0;
        proof {
            assert(before.take(0) =~= Seq::empty());
            assert(Seq::<Note<I>>::empty().filter(still_active()) =~= Seq::empty()) by {
                reveal(Seq::filter);
            }
            assert(before.skip(0) =~= before);
        }
        while i < self.notes.len()
            invariant
                before == old(self).notes@,
                0 <= seen <= before.len(),
                i == before.take(seen).filter(still_active()).len(),
                self.notes@ =~= before.take(seen).filter(still_active()) + before.skip(seen),
                distinct_sounding(self.notes@),
            decreases self.notes.len() - i,
        {
            proof {
                assert(self.notes@[i as int] == before.skip(seen)[0]);
                assert(before.take(seen + 1) =~= before.take(seen).push(before[seen]));
                before.take(seen).lemma_filter_push(before[seen], still_active());
                assert(before.skip(seen + 1) =~= before.skip(seen).skip(1));
            }
            if self.notes[i].active {
                i += 1;
            } else {
                proof {
                    lemma_remove_distinct(self.notes@, i as int);
                }
                self.notes.remove(i);
            }
            proof {
                seen = seen + 1;
            }
        }
        proof {
            assert(before.take(seen) =~= before);
        }
    }

    /// One tick of the mixer: `sound` is called once for each note, in the
    /// order of the table, to sound the note and to say whether it is
    /// finished. The notes reported as finished are dropped, and with them
    /// every note that was no longer active; the others stay as they are
    /// and keep their order.
    pub fn tick<F: Fn(&Note<I>) -> bool>(&mut self, sound: F)
        requires
            old(self).wf(),
            forall|i: int| 0 <= i < old(self)@.len() ==> sound.requires((&old(self)@[i],)),
        ensures
            final(self).wf(),
            exists|reports: Seq<bool>|
                {
                    &&& reports.len() == old(self)@.len()
                    &&& forall|i: int|
                        0 <= i < reports.len() ==> sound.ensures((&old(self)@[i],), reports[i])
                    &&& final(self)@ == (#[trigger] marked(old(self)@, reports)).filter(
                        still_active(),
                    )
                },
    {
        let ghost before = self.notes@;
        let ghost mut reports: Seq<bool> = Seq::empty();
        let mut i: usize = 0;
        proof {
            assert(self.notes@ =~= marked(before, reports));
        }
        while i < self.notes.len()
            invariant
                before == old(self).notes@,
                i <= self.notes.len(),
                reports.len() == i,
                self.notes@ == marked(before, reports),
                forall|j: int| 0 <= j < before.len() ==> sound.requires((&before[j],)),
                forall|j: int| 0 <= j < i ==> sound.ensures((&before[j],), reports[j]),
            decreases self.notes.len() - i,
        {
            assert(self.notes@[i as int] == before[i as int]);
            let done = sound(&self.notes[i]);
            if done {
                self.notes[i].active = false;
            }
            proof {
                reports = reports.push(done);
                assert(self.notes@ =~= marked(before, reports));
            }
            i += 1;
        }
        proof {
            lemma_marked_distinct(before, reports);
        }
        self.prune();
    }
}

} // verus!
