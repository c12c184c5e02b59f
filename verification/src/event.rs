//! The events that the host hands to the effect and takes back from it.
use vstd::prelude::*;

verus! {

/// A MIDI message with the host's bookkeeping around it. The three data bytes
/// are the status and channel, the note number, and the velocity.
#[derive(Clone, Copy, Debug, PartialEq, Eq)]
pub struct MidiEvent {
    /// Status and channel, note number, velocity.
    pub data: [u8; 3],
    /// How many samples into the block the event falls.
    pub delta_frames: i32,
    /// Whether the event is played live rather than from a sequence.
    pub live: bool,
    /// The length of the note in samples, where the host knows it.
    pub note_length: Option<i32>,
    /// How far into the note the event lies, in samples, where the host knows it.
    pub note_offset: Option<i32>,
    /// Detuning in cents.
    pub detune: i8,
    /// The velocity with which the note is released.
    pub note_off_velocity: u8,
}

/// What the host delivers at the start of a cycle.
#[derive(Clone, Copy, Debug, PartialEq, Eq)]
pub enum Event {
    /// A MIDI message.
    Midi(MidiEvent),
    /// A system exclusive block; the effect drops it.
    SysEx,
    /// An event of a kind that hosts no longer send; the effect drops it.
    Deprecated,
}

impl MidiEvent {
    /// The status and channel byte.
    pub open spec fn status(self) -> u8 {
        self.data[0]
    }

    /// The note number.
    pub open spec fn note(self) -> u8 {
        self.data[1]
    }

    /// The velocity.
    pub open spec fn velocity(self) -> u8 {
        self.data[2]
    }

    /// `self` is `before` in every field and byte but the velocity, which is
    /// `velocity`.
    pub open spec fn revoices(self, before: MidiEvent, velocity: u8) -> bool {
        &&& self.status() == before.status()
        &&& self.note() == before.note()
        &&& self.velocity() == velocity
        &&& self.delta_frames == before.delta_frames
        &&& self.live == before.live
        &&& self.note_length == before.note_length
        &&& self.note_offset == before.note_offset
        &&& self.detune == before.detune
        &&& self.note_off_velocity == before.note_off_velocity
    }

    /// The event with another velocity.
    pub fn with_velocity(&self, velocity: u8) -> (e: MidiEvent)
        ensures
            e.revoices(*self, velocity),
    {
        MidiEvent {
            data: [self.data[0], self.data[1], velocity],
            delta_frames: self.delta_frames,
            live: self.live,
            note_length: self.note_length,
            note_offset: self.note_offset,
            detune: self.detune,
            note_off_velocity: self.note_off_velocity,
        }
    }
}

} // verus!
