use rand::SeedableRng;
use rand_distr::{Distribution, Normal};
use std::cell::RefCell;
use vary_velocity::event::{Event, MidiEvent};
use vary_velocity::parameters::{Variant, MINIMUM, VARIANCE};
use vary_velocity::plugin::VaryVelocity;

fn note(status: u8, key: u8, velocity: u8) -> MidiEvent {
    MidiEvent {
        data: [status, key, velocity],
        delta_frames: 0,
        live: true,
        note_length: None,
        note_offset: None,
        detune: 0,
        note_off_velocity: 0,
    }
}

#[test]
fn ten_thousand_notes_around_one_hundred() {
    let rng = RefCell::new(rand::rngs::StdRng::seed_from_u64(20240607));
    let samples: RefCell<Vec<f32>> = RefCell::new(Vec::new());
    let draw = |mean: u8, sigma: u32| -> u32 {
        let normal = Normal::new(mean as f32, f32::from_bits(sigma)).unwrap();
        let x: f32 = normal.sample(&mut *rng.borrow_mut());
        samples.borrow_mut().push(x);
        x.to_bits()
    };
    let mut plugin = VaryVelocity::new(Variant::with_minimum());
    plugin.set_parameter(VARIANCE, 1.0f32.to_bits());
    plugin.set_parameter(MINIMUM, 0.0f32.to_bits());
    let batch: Vec<Event> = vec![Event::Midi(note(0x90, 60, 100)); 100];
    let mut delivered: Vec<MidiEvent> = Vec::new();
    let mut outbox: Vec<MidiEvent> = Vec::new();
    for _ in 0..100 {
        assert!(plugin.process_events(&batch, &draw).is_ok());
        plugin.send_midi(&mut outbox);
        assert_eq!(outbox.len(), 100);
        delivered.extend_from_slice(&outbox);
    }
    assert_eq!(delivered.len(), 10_000);
    let samples = samples.borrow();
    assert_eq!(samples.len(), 10_000);
    let mean: f64 = samples.iter().map(|x| *x as f64).sum::<f64>() / 10_000.0;
    assert!((mean - 100.0).abs() <= 2.0, "sample mean {}", mean);
    let mut varied = false;
    for (out, sample) in delivered.iter().zip(samples.iter()) {
        assert_eq!(out.data[0], 0x90);
        assert_eq!(out.data[1], 60);
        assert!(out.data[2] <= 127);
        assert_eq!(out.data[2], sample.max(0.0).min(127.) as u8);
        varied = varied || out.data[2] != 100;
    }
    assert!(varied);
    // what leaves is held to 127 and loses its fraction, so it averages a little lower
    let sent: f64 = delivered.iter().map(|e| e.data[2] as f64).sum::<f64>() / 10_000.0;
    assert!((sent - 97.8).abs() <= 1.5, "mean of the velocities sent {}", sent);
}

#[test]
fn tiny_variance_leaves_the_velocity() {
    let rng = RefCell::new(rand::rngs::StdRng::seed_from_u64(1));
    let draw = |mean: u8, sigma: u32| -> u32 {
        let normal = Normal::new(mean as f32 + 0.5, f32::from_bits(sigma)).unwrap();
        let x: f32 = normal.sample(&mut *rng.borrow_mut());
        x.to_bits()
    };
    let mut plugin = VaryVelocity::new(Variant::with_minimum());
    plugin.set_parameter(VARIANCE, 0.0f32.to_bits());
    let mut outbox: Vec<MidiEvent> = Vec::new();
    for velocity in 0..=127u8 {
        assert!(plugin.add_event(note(0x90, 64, velocity), &draw).is_ok());
    }
    plugin.send_midi(&mut outbox);
    for (velocity, out) in (0..=127u8).zip(outbox.iter()) {
        assert_eq!(out.data[2], velocity);
    }
}
