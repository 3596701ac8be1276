//! One note of the table: an instrument sounding, or fading, at one pitch.

use vstd::prelude::*;

verus! {

/// The position in the scale of a voice's pitch 0: a note made for a voice
/// stands this many semitones above the voice's pitch.
pub const PITCH_BASE: u16 = 64;

/// A basic note.
///
/// A note is told apart by its position in the scale and the kind of its
/// instrument. It carries two readings of the clock: when it was last
/// switched on, and when it was switched off. While the second is earlier
/// than the first, the note is held; from the moment it is not, the note is
/// released and fades. A note that was never switched off has 0 there.
pub struct Note<I> {
    /// Position in scale.
    pub id: u16,
    /// Time note was activated.
    pub on: u64,
    /// Time note was deactivated.
    pub off: u64,
    /// Cleared once the instrument has reported the note as finished.
    pub active: bool,
    /// The instrument that sounds the note.
    pub channel: I,
    /// The kind of the instrument.
    pub instrument_id: u64,
}

impl<I> Note<I> {
    /// The note has been switched off and is fading, or has faded.
    pub open spec fn is_released(&self) -> bool {
        self.off >= self.on
    }

    /// The note is in the table to be heard, and held.
    pub open spec fn is_sounding(&self) -> bool {
        self.active && !self.is_released()
    }

    /// The note is the one that a voice of the pitch `pitch` and the kind
    /// `kind` asks for.
    pub open spec fn is_for(&self, pitch: u8, kind: u64) -> bool {
        self.id == pitch + PITCH_BASE && self.instrument_id == kind
    }

    /// The note that answers a voice at the time `now`: switched on then,
    /// never switched off, at the voice's place in the scale.
    pub open spec fn started(pitch: u8, kind: u64, channel: I, now: u64) -> Self {
        Note {
            id: (pitch + PITCH_BASE) as u16,
            on: now,
            off: 0,
            active: true,
            channel,
            instrument_id: kind,
        }
    }

    /// This note, switched on again at the time `now`.
    pub open spec fn retriggered(self, now: u64) -> Self {
        Note { on: now, active: true, ..self }
    }

    /// This note, switched off at the time `now`.
    pub open spec fn let_go(self, now: u64) -> Self {
        Note { off: now, ..self }
    }

    /// This note, reported as finished.
    pub open spec fn finished(self) -> Self {
        Note { active: false, ..self }
    }

    /// Makes the note for a voice of the pitch `note_id` and the kind
    /// `instrument_id` that is started at the time `now`.
    pub fn new(note_id: u8, instrument_id: u64, instrument: I, now: u64) -> (note: Self)
        ensures
            note == Self::started(note_id, instrument_id, instrument, now),
    {
        Note {
            id: note_id as u16 + PITCH_BASE,
            on: now,
            off: 0,
            active: true,
            channel: instrument,
            instrument_id,
        }
    }

    /// Says whether the note is in the table to be heard, and held.
    pub fn sounding(&self) -> (yes: bool)
        ensures
            yes == self.is_sounding(),
    {
        self.active && self.off < self.on
    }

    /// Says whether the note is the one that a voice of the pitch `pitch`
    /// and the kind `kind` asks for.
    pub fn answers(&self, pitch: u8, kind: u64) -> (yes: bool)
        ensures
            yes == self.is_for(pitch, kind),
    {
        self.id == pitch as u16 + PITCH_BASE && self.instrument_id == kind
    }
}

} // verus!
