//! One instance of the effect, driven by the host once per cycle: it takes the
//! cycle's events, copies the audio, and hands the notes back.
//!
//! The random source is the caller's: a function from the mean (the incoming
//! velocity) and the standard deviation to one sample of that normal
//! distribution, as a binary32 pattern.
use crate::audio::{block_copied_over, pass_through, same_shape, samples_of};
use crate::event::{Event, MidiEvent};
use crate::parameters::{Variant, VaryVelocityParameters, VARIANCE_FLOOR};
use crate::randomizer::{check_deviation, transform, velocity_of, violation_of, ConfigurationViolation};
use vstd::prelude::*;
use vstd::string::*;

verus! {

/// The kinds of plugin that a host tells apart.
#[derive(Clone, Copy, Debug, PartialEq, Eq)]
pub enum Category {
    Unknown,
    Effect,
    Synth,
    Analysis,
    Mastering,
    Spacializer,
    RoomFx,
    SurroundFx,
    Restoration,
    OfflineProcess,
    Shell,
    Generator,
}

/// What the effect tells the host about itself.
#[derive(Debug)]
pub struct Info {
    pub name: String,
    pub vendor: String,
    pub unique_id: i32,
    pub version: i32,
    pub inputs: i32,
    pub outputs: i32,
    pub parameters: i32,
    pub category: Category,
}

/// The abilities that a host asks a plugin about.
#[derive(Clone, Copy, Debug, PartialEq, Eq)]
pub enum CanDo {
    SendEvents,
    SendMidiEvent,
    ReceiveEvents,
    ReceiveMidiEvent,
    ReceiveTimeInfo,
    Offline,
    MidiProgramNames,
    Bypass,
    ReceiveSysExEvent,
    MidiSingleNoteTuningChange,
    MidiKeyBasedInstrumentControl,
    /// An ability that this list does not name.
    Other,
}

/// The answer to such a question.
#[derive(Clone, Copy, Debug, PartialEq, Eq)]
pub enum Supported {
    Yes,
    Maybe,
    No,
}

/// The number the host knows the effect by.
pub const UNIQUE_ID: i32 = 127844320;

/// How many notes the queue holds before it has to grow.
pub const QUEUE_CAPACITY: usize = 1024;

/// The MIDI messages among the events of a cycle, in their order.
pub open spec fn midi_events(events: Seq<Event>) -> Seq<MidiEvent>
    decreases events.len(),
{
    if events.len() == 0 {
        Seq::empty()
    } else {
        let before = midi_events(events.drop_last());
        match events.last() {
            Event::Midi(e) => before.push(e),
            _ => before,
        }
    }
}

/// `after` is `before` with one note more for each of `notes`, in their order:
/// the same note, with the velocity that its sample gives over the floor.
pub open spec fn appended(
    before: Seq<MidiEvent>,
    after: Seq<MidiEvent>,
    notes: Seq<MidiEvent>,
    samples: Seq<u32>,
    floor: u32,
) -> bool {
    &&& samples.len() == notes.len()
    &&& after.len() == before.len() + notes.len()
    &&& forall|j: int| 0 <= j < before.len() ==> after[j] == before[j]
    &&& forall|j: int|
        before.len() <= j < after.len() ==> (#[trigger] after[j]).revoices(
            notes[j - before.len()],
            velocity_of(samples[j - before.len()], floor) as u8,
        )
}

/// `samples` are what the random source gave for `notes`: for each note, a
/// sample drawn around its velocity with the standard deviation `sigma`.
pub open spec fn drawn<F: Fn(u8, u32) -> u32>(
    draw: &F,
    notes: Seq<MidiEvent>,
    samples: Seq<u32>,
    sigma: u32,
) -> bool {
    &&& samples.len() == notes.len()
    &&& forall|k: int|
        0 <= k < notes.len() ==> call_ensures(draw, (notes[k].velocity(), sigma), #[trigger] samples[k])
}

/// A cycle that starts with nothing waiting ends with one note waiting for
/// every MIDI message that came, in the order in which they came, each with
/// the status and note number of its message and a velocity of at most 127.
pub proof fn lemma_every_note_is_answered(
    after: Seq<MidiEvent>,
    notes: Seq<MidiEvent>,
    samples: Seq<u32>,
    floor: u32,
)
    requires
        appended(Seq::empty(), after, notes, samples, floor),
    ensures
        after.len() == notes.len(),
        forall|i: int|
            0 <= i < notes.len() ==> {
                &&& (#[trigger] after[i]).status() == notes[i].status()
                &&& after[i].note() == notes[i].note()
                &&& after[i].velocity() <= 127
                &&& after[i].velocity() == velocity_of(samples[i], floor)
            },
{
    assert forall|i: int| 0 <= i < notes.len() implies {
        &&& (#[trigger] after[i]).status() == notes[i].status()
        &&& after[i].note() == notes[i].note()
        &&& after[i].velocity() <= 127
        &&& after[i].velocity() == velocity_of(samples[i], floor)
    } by {
        crate::randomizer::lemma_velocity_bounds(samples[i], floor);
        assert(after[i].revoices(notes[i], velocity_of(samples[i], floor) as u8));
    }
}

/// One instance of the effect.
pub struct VaryVelocity {
    sample_rate: u32,
    immediate_events: Vec<MidiEvent>,
    params: VaryVelocityParameters,
}

impl VaryVelocity {
    /// The controls.
    pub closed spec fn parameters(&self) -> VaryVelocityParameters {
        self.params
    }

    /// The notes that wait to be sent, oldest first.
    pub closed spec fn pending(&self) -> Seq<MidiEvent> {
        self.immediate_events@
    }

    /// The sample rate that the host announced, as a binary32 pattern; zero
    /// before it has announced any.
    pub closed spec fn spec_sample_rate(&self) -> u32 {
        self.sample_rate
    }

    /// An instance of the given variant: controls untouched, nothing waiting.
    pub fn new(variant: Variant) -> (p: Self)
        ensures
            p.parameters().variant() == variant,
            p.parameters().variance() == VARIANCE_FLOOR,
            p.parameters().minimum() == 0,
            p.pending() == Seq::<MidiEvent>::empty(),
            p.sample_rate() == 0,
    {
        VaryVelocity {
            sample_rate: 0,
            immediate_events: Vec::with_capacity(QUEUE_CAPACITY),
            params: VaryVelocityParameters::new(variant),
        }
    }

    /// The controls, to read them and to show them.
    pub fn get_parameter_object(&self) -> (p: &VaryVelocityParameters)
        ensures
            *p == self.parameters(),
    {
        &self.params
    }

    /// Writes a control, as [`VaryVelocityParameters::set_parameter`] does.
    pub fn set_parameter(&mut self, index: i32, value: u32)
        ensures
            final(self).pending() == old(self).pending(),
            final(self).sample_rate() == old(self).sample_rate(),
            final(self).parameters().variant() == old(self).parameters().variant(),
            final(self).parameters().variance() == if index == crate::parameters::VARIANCE {
                crate::binary32::larger_of(value, VARIANCE_FLOOR)
            } else {
                old(self).parameters().variance()
            },
            final(self).parameters().minimum() == if index == crate::parameters::MINIMUM && old(
                self,
            ).parameters().variant().has_minimum() {
                value
            } else {
                old(self).parameters().minimum()
            },
    {
        self.params.set_parameter(index, value);
    }

    /// What the effect tells the host about itself: two channels in, two out,
    /// and as many controls as the variant has.
    pub fn get_info(&self) -> (info: Info)
        ensures
            info.name@ == "VaryVelocity"@,
            info.vendor@ == "Rein van der Woerd"@,
            info.unique_id == UNIQUE_ID,
            info.version == 1,
            info.inputs == 2,
            info.outputs == 2,
            info.parameters == if self.parameters().variant().has_minimum() {
                2int
            } else {
                1int
            },
            info.category == Category::Effect,
    {
        Info {
            name: String::from_str("VaryVelocity"),
            vendor: String::from_str("Rein van der Woerd"),
            unique_id: UNIQUE_ID,
            version: 1,
            inputs: 2,
            outputs: 2,
            parameters: self.params.variant().parameter_count(),
            category: Category::Effect,
        }
    }

    /// Keeps the sample rate that the host announces.
    pub fn set_sample_rate(&mut self, rate: u32)
        ensures
            final(self).sample_rate() == rate,
            final(self).pending() == old(self).pending(),
            final(self).parameters() == old(self).parameters(),
    {
        self.sample_rate = rate;
    }

    /// The sample rate that the host announced.
    #[verifier::when_used_as_spec(spec_sample_rate)]
    pub fn sample_rate(&self) -> (rate: u32)
        ensures
            rate == self.sample_rate(),
    {
        self.sample_rate
    }

    /// The effect sends and receives events and MIDI, and nothing else.
    pub fn can_do(&self, can_do: CanDo) -> (answer: Supported)
        ensures
            answer == if can_do == CanDo::SendEvents || can_do == CanDo::SendMidiEvent || can_do
                == CanDo::ReceiveEvents || can_do == CanDo::ReceiveMidiEvent {
                Supported::Yes
            } else {
                Supported::No
            },
    {
        match can_do {
            CanDo::SendEvents
            | CanDo::SendMidiEvent
            | CanDo::ReceiveEvents
            | CanDo::ReceiveMidiEvent => Supported::Yes,
            _ => Supported::No,
        }
    }

    /// Takes one note: draws a sample around its velocity and puts the note
    /// with the new velocity at the end of the queue. Where the controls give
    /// no usable standard deviation, nothing is drawn and nothing queued.
    pub fn add_event<F: Fn(u8, u32) -> u32>(&mut self, e: MidiEvent, draw: &F) -> (r: Result<
        (),
        ConfigurationViolation,
    >)
        requires
            forall|mean: u8, sigma: u32|
                violation_of(sigma) is None ==> call_requires(draw, (mean, sigma)),
        ensures
            final(self).parameters() == old(self).parameters(),
            final(self).sample_rate() == old(self).sample_rate(),
            match r {
                Ok(_) => {
                    &&& violation_of(old(self).parameters().deviation()) is None
                    &&& exists|sample: u32|
                        {
                            &&& call_ensures(
                                draw,
                                (e.velocity(), old(self).parameters().deviation()),
                                sample,
                            )
                            &&& #[trigger] appended(
                                old(self).pending(),
                                final(self).pending(),
                                seq![e],
                                seq![sample],
                                old(self).parameters().velocity_floor(),
                            )
                        }
                },
                Err(v) => {
                    &&& violation_of(old(self).parameters().deviation()) == Some(v)
                    &&& final(self).pending() == old(self).pending()
                },
            },
    {
        let sigma: u32 = self.params.deviation();
        let floor: u32 = self.params.velocity_floor();
        match check_deviation(sigma) {
            Err(v) => Err(v),
            Ok(_) => {
                let sample: u32 = draw(e.data[2], sigma);
                let out: MidiEvent = transform(&e, sample, floor);
                self.immediate_events.push(out);
                proof {
                    assert(appended(
                        old(self).pending(),
                        self.pending(),
                        seq![e],
                        seq![sample],
                        floor,
                    ));
                }
                Ok(())
            },
        }
    }

    /// Takes the events of a cycle in their order: a note for every MIDI
    /// message, with a velocity drawn around its own; every other event is
    /// dropped. Where a note comes while the controls give no usable standard
    /// deviation, the cycle fails and the queue is as it was.
    pub fn process_events<F: Fn(u8, u32) -> u32>(&mut self, events: &[Event], draw: &F) -> (r:
        Result<(), ConfigurationViolation>)
        requires
            forall|mean: u8, sigma: u32|
                violation_of(sigma) is None ==> call_requires(draw, (mean, sigma)),
        ensures
            final(self).parameters() == old(self).parameters(),
            final(self).sample_rate() == old(self).sample_rate(),
            r is Err <==> violation_of(old(self).parameters().deviation()) is Some && exists|
                i: int,
            |
                0 <= i < events@.len() && #[trigger] events@[i] is Midi,
            match r {
                Ok(_) => exists|samples: Seq<u32>|
                    {
                        &&& drawn(
                            draw,
                            midi_events(events@),
                            samples,
                            old(self).parameters().deviation(),
                        )
                        &&& #[trigger] appended(
                            old(self).pending(),
                            final(self).pending(),
                            midi_events(events@),
                            samples,
                            old(self).parameters().velocity_floor(),
                        )
                    },
                Err(v) => {
                    &&& violation_of(old(self).parameters().deviation()) == Some(v)
                    &&& final(self).pending() == old(self).pending()
                },
            },
    {
        let sigma: u32 = self.params.deviation();
        let floor: u32 = self.params.velocity_floor();
        let usable = check_deviation(sigma);
        let ghost mut samples: Seq<u32> = Seq::empty();
        let mut i: usize = 0;
        assert(events@.subrange(0, 0) =~= Seq::<Event>::empty());
        while i < events.len()
            invariant
                i <= events@.len(),
                forall|mean: u8, sigma: u32|
                    violation_of(sigma) is None ==> call_requires(draw, (mean, sigma)),
                self.parameters() == old(self).parameters(),
                self.sample_rate() == old(self).sample_rate(),
                sigma == old(self).parameters().deviation(),
                floor == old(self).parameters().velocity_floor(),
                match usable {
                    Ok(_) => violation_of(sigma) is None,
                    Err(v) => violation_of(sigma) == Some(v),
                },
                usable is Err ==> forall|k: int| 0 <= k < i ==> !(#[trigger] events@[k] is Midi),
                usable is Err ==> self.pending() == old(self).pending(),
                drawn(draw, midi_events(events@.subrange(0, i as int)), samples, sigma),
                appended(
                    old(self).pending(),
                    self.pending(),
                    midi_events(events@.subrange(0, i as int)),
                    samples,
                    floor,
                ),
            decreases events@.len() - i,
        {
            proof {
                let next = events@.subrange(0, i + 1);
                assert(next.drop_last() =~= events@.subrange(0, i as int));
                assert(next.last() == events@[i as int]);
            }
            match events[i] {
                Event::Midi(e) => {
                    match usable {
                        Err(v) => {
                            return Err(v);
                        },
                        Ok(_) => {
                            let sample: u32 = draw(e.data[2], sigma);
                            let out: MidiEvent = transform(&e, sample, floor);
                            self.immediate_events.push(out);
                            proof {
                                samples = samples.push(sample);
                            }
                        },
                    }
                },
                _ => {},
            }
            i = i + 1;
        }
        proof {
            assert(events@.subrange(0, i as int) =~= events@);
        }
        Ok(())
    }

    /// Hands over the notes that wait, oldest first, and leaves the queue
    /// empty. What `outbox` held before is dropped.
    pub fn send_midi(&mut self, outbox: &mut Vec<MidiEvent>)
        ensures
            final(outbox)@ == old(self).pending(),
            final(self).pending() == Seq::<MidiEvent>::empty(),
            final(self).parameters() == old(self).parameters(),
            final(self).sample_rate() == old(self).sample_rate(),
    {
        outbox.clear();
        core::mem::swap(&mut self.immediate_events, outbox);
    }

    /// The audio part of a cycle and its end: copies the block from input to
    /// output, sample for sample, then hands over the waiting notes as
    /// [`Self::send_midi`] does, also where none waits.
    pub fn process<T: Copy>(
        &mut self,
        inputs: &[Vec<T>],
        outputs: &mut [Vec<T>],
        outbox: &mut Vec<MidiEvent>,
    )
        ensures
            samples_of(final(outputs)@) == block_copied_over(inputs@, old(outputs)@),
            same_shape(inputs@, old(outputs)@) ==> samples_of(final(outputs)@) == samples_of(
                inputs@,
            ),
            final(outbox)@ == old(self).pending(),
            final(self).pending() == Seq::<MidiEvent>::empty(),
            final(self).parameters() == old(self).parameters(),
            final(self).sample_rate() == old(self).sample_rate(),
    {
        pass_through(inputs, outputs);
        self.send_midi(outbox);
    }
}

} // verus!
