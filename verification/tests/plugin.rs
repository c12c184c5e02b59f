use std::cell::RefCell;
use vary_velocity::event::{Event, MidiEvent};
use vary_velocity::parameters::{Variant, MINIMUM, VARIANCE, VARIANCE_FLOOR};
use vary_velocity::plugin::{CanDo, Category, Supported, VaryVelocity, UNIQUE_ID};
use vary_velocity::randomizer::ConfigurationViolation;

fn bits(x: f32) -> u32 {
    x.to_bits()
}

fn note(status: u8, key: u8, velocity: u8, delta_frames: i32) -> MidiEvent {
    MidiEvent {
        data: [status, key, velocity],
        delta_frames,
        live: false,
        note_length: None,
        note_offset: Some(3),
        detune: 0,
        note_off_velocity: 0,
    }
}

/// A source that returns the mean plus a fixed offset.
fn shifted(offset: f32) -> impl Fn(u8, u32) -> u32 {
    move |mean: u8, _sigma: u32| (mean as f32 + offset).to_bits()
}

#[test]
fn new_instance_is_idle() {
    let mut p = VaryVelocity::new(Variant::with_minimum());
    assert_eq!(p.sample_rate(), 0);
    assert_eq!(p.get_parameter_object().get_parameter(VARIANCE), VARIANCE_FLOOR);
    assert_eq!(p.get_parameter_object().get_parameter(MINIMUM), 0);
    let mut outbox: Vec<MidiEvent> = vec![note(0x90, 1, 1, 0)];
    p.send_midi(&mut outbox);
    assert!(outbox.is_empty());
}

#[test]
fn info_describes_the_effect() {
    let a = VaryVelocity::new(Variant::with_minimum()).get_info();
    assert_eq!(a.name, "VaryVelocity");
    assert_eq!(a.vendor, "Rein van der Woerd");
    assert_eq!(a.unique_id, 127844320);
    assert_eq!(a.unique_id, UNIQUE_ID);
    assert_eq!(a.version, 1);
    assert_eq!(a.inputs, 2);
    assert_eq!(a.outputs, 2);
    assert_eq!(a.parameters, 2);
    assert_eq!(a.category, Category::Effect);
    let b = VaryVelocity::new(Variant::variance_only()).get_info();
    assert_eq!(b.parameters, 1);
    assert_eq!(b.inputs, 2);
    assert_eq!(b.outputs, 2);
    assert_eq!(b.category, Category::Effect);
}

#[test]
fn abilities() {
    let p = VaryVelocity::new(Variant::with_minimum());
    assert_eq!(p.can_do(CanDo::SendEvents), Supported::Yes);
    assert_eq!(p.can_do(CanDo::SendMidiEvent), Supported::Yes);
    assert_eq!(p.can_do(CanDo::ReceiveEvents), Supported::Yes);
    assert_eq!(p.can_do(CanDo::ReceiveMidiEvent), Supported::Yes);
    for other in [
        CanDo::ReceiveTimeInfo,
        CanDo::Offline,
        CanDo::MidiProgramNames,
        CanDo::Bypass,
        CanDo::ReceiveSysExEvent,
        CanDo::MidiSingleNoteTuningChange,
        CanDo::MidiKeyBasedInstrumentControl,
        CanDo::Other,
    ] {
        assert_eq!(p.can_do(other), Supported::No);
    }
}

#[test]
fn sample_rate_is_kept() {
    let mut p = VaryVelocity::new(Variant::with_minimum());
    p.set_sample_rate(bits(44100.0));
    assert_eq!(f32::from_bits(p.sample_rate()), 44100.0);
    p.set_sample_rate(bits(48000.0));
    assert_eq!(f32::from_bits(p.sample_rate()), 48000.0);
}

#[test]
fn add_event_queues_one_note() {
    let mut p = VaryVelocity::new(Variant::with_minimum());
    p.set_parameter(VARIANCE, bits(1.0));
    let seen: RefCell<Vec<(u8, u32)>> = RefCell::new(Vec::new());
    let draw = |mean: u8, sigma: u32| -> u32 {
        seen.borrow_mut().push((mean, sigma));
        bits(mean as f32 - 30.25)
    };
    assert_eq!(p.add_event(note(0x90, 60, 100, 5), &draw), Ok(()));
    let mut outbox: Vec<MidiEvent> = Vec::new();
    p.send_midi(&mut outbox);
    assert_eq!(outbox, vec![note(0x90, 60, 69, 5)]);
    assert_eq!(*seen.borrow(), vec![(100u8, bits(25.0))]);
}

#[test]
fn events_of_a_cycle_come_out_in_order() {
    let mut p = VaryVelocity::new(Variant::with_minimum());
    p.set_parameter(VARIANCE, bits(0.5));
    let events = vec![
        Event::Midi(note(0x90, 60, 100, 0)),
        Event::SysEx,
        Event::Midi(note(0x91, 61, 20, 10)),
        Event::Deprecated,
        Event::Midi(note(0x80, 60, 0, 20)),
        Event::Midi(note(0x9F, 127, 127, 30)),
    ];
    assert_eq!(p.process_events(&events, &shifted(10.5)), Ok(()));
    let mut outbox: Vec<MidiEvent> = Vec::new();
    p.send_midi(&mut outbox);
    assert_eq!(
        outbox,
        vec![
            note(0x90, 60, 110, 0),
            note(0x91, 61, 30, 10),
            note(0x80, 60, 10, 20),
            note(0x9F, 127, 127, 30),
        ]
    );
    p.send_midi(&mut outbox);
    assert!(outbox.is_empty());
}

#[test]
fn minimum_raises_low_velocities() {
    let mut p = VaryVelocity::new(Variant::with_minimum());
    p.set_parameter(MINIMUM, bits(0.5));
    let events = vec![
        Event::Midi(note(0x90, 60, 10, 0)),
        Event::Midi(note(0x90, 62, 90, 0)),
    ];
    assert_eq!(p.process_events(&events, &shifted(0.0)), Ok(()));
    let mut outbox: Vec<MidiEvent> = Vec::new();
    p.send_midi(&mut outbox);
    assert_eq!(outbox, vec![note(0x90, 60, 63, 0), note(0x90, 62, 90, 0)]);
}

#[test]
fn variance_only_variant_has_floor_zero_and_threefold_deviation() {
    let mut p = VaryVelocity::new(Variant::variance_only());
    p.set_parameter(VARIANCE, bits(1.0));
    p.set_parameter(MINIMUM, bits(1.0));
    let seen: RefCell<Vec<u32>> = RefCell::new(Vec::new());
    let draw = |_mean: u8, sigma: u32| -> u32 {
        seen.borrow_mut().push(sigma);
        bits(-4.0)
    };
    assert_eq!(p.process_events(&[Event::Midi(note(0x90, 60, 10, 0))], &draw), Ok(()));
    let mut outbox: Vec<MidiEvent> = Vec::new();
    p.send_midi(&mut outbox);
    assert_eq!(outbox, vec![note(0x90, 60, 0, 0)]);
    assert_eq!(*seen.borrow(), vec![bits(15.0)]);
}

#[test]
fn queue_persists_until_flushed() {
    let mut p = VaryVelocity::new(Variant::with_minimum());
    assert_eq!(p.process_events(&[Event::Midi(note(0x90, 1, 50, 0))], &shifted(0.0)), Ok(()));
    assert_eq!(p.process_events(&[Event::Midi(note(0x90, 2, 60, 0))], &shifted(0.0)), Ok(()));
    let mut outbox: Vec<MidiEvent> = Vec::new();
    p.send_midi(&mut outbox);
    assert_eq!(outbox, vec![note(0x90, 1, 50, 0), note(0x90, 2, 60, 0)]);
}

#[test]
fn unusable_deviation_fails_the_cycle() {
    let mut p = VaryVelocity::new(Variant::with_minimum());
    assert_eq!(p.add_event(note(0x90, 9, 9, 0), &shifted(0.0)), Ok(()));
    p.set_parameter(VARIANCE, bits(f32::INFINITY));
    let calls: RefCell<u32> = RefCell::new(0);
    let draw = |mean: u8, _sigma: u32| -> u32 {
        *calls.borrow_mut() += 1;
        bits(mean as f32)
    };
    let events = vec![Event::SysEx, Event::Midi(note(0x90, 60, 100, 0))];
    assert_eq!(
        p.process_events(&events, &draw),
        Err(ConfigurationViolation::DeviationNotFinite)
    );
    assert_eq!(
        p.add_event(note(0x90, 60, 100, 0), &draw),
        Err(ConfigurationViolation::DeviationNotFinite)
    );
    assert_eq!(*calls.borrow(), 0);
    // a batch without notes asks for no distribution
    assert_eq!(p.process_events(&[Event::SysEx, Event::Deprecated], &draw), Ok(()));
    assert_eq!(p.process_events(&[], &draw), Ok(()));
    let mut outbox: Vec<MidiEvent> = Vec::new();
    p.send_midi(&mut outbox);
    assert_eq!(outbox, vec![note(0x90, 9, 9, 0)]);
    // the product overflows just as well as the control itself
    p.set_parameter(VARIANCE, bits(f32::MAX));
    assert_eq!(
        p.add_event(note(0x90, 60, 100, 0), &draw),
        Err(ConfigurationViolation::DeviationNotFinite)
    );
}

#[test]
fn process_copies_audio_and_flushes() {
    let mut p = VaryVelocity::new(Variant::with_minimum());
    let events = vec![
        Event::Midi(note(0x90, 60, 100, 0)),
        Event::Midi(note(0x90, 64, 101, 1)),
        Event::Midi(note(0x90, 67, 102, 2)),
    ];
    assert_eq!(p.process_events(&events, &shifted(0.9)), Ok(()));
    let inputs: Vec<Vec<f32>> = vec![
        (0..256).map(|i| (i as f32) / 256.0).collect(),
        (0..256).map(|i| -(i as f32) / 256.0).collect(),
    ];
    let mut outputs: Vec<Vec<f32>> = vec![vec![0.0; 256]; 2];
    let mut outbox: Vec<MidiEvent> = Vec::new();
    p.process(&inputs, &mut outputs, &mut outbox);
    assert_eq!(outputs, inputs);
    assert_eq!(outbox.len(), 3);
    assert_eq!(
        outbox,
        vec![note(0x90, 60, 100, 0), note(0x90, 64, 101, 1), note(0x90, 67, 102, 2)]
    );
    // the next cycle starts empty, and flushes even so
    p.process(&inputs, &mut outputs, &mut outbox);
    assert!(outbox.is_empty());
    assert_eq!(outputs, inputs);
}

#[test]
fn controls_written_through_the_instance() {
    let mut p = VaryVelocity::new(Variant::with_minimum());
    p.set_parameter(VARIANCE, bits(0.0));
    p.set_parameter(MINIMUM, bits(0.75));
    p.set_parameter(5, bits(0.5));
    let params = p.get_parameter_object();
    assert_eq!(params.get_parameter(VARIANCE), VARIANCE_FLOOR);
    assert_eq!(params.get_parameter(MINIMUM), bits(0.75));
    assert_eq!(params.get_parameter(5), 0);
    assert_eq!(params.get_parameter_text(MINIMUM), "95.2");
}
