use rust_playground::bridge::fill_frames;
use rust_playground::bridge::handle_request;
use rust_playground::bridge::run_session;
use rust_playground::bridge::AudioThreadMessage;
use rust_playground::bridge::MainThreadMessage;
use rust_playground::wavetable::Wavetable;

const PI: f64 = std::f64::consts::PI;

fn sine_table(capacity: usize) -> Wavetable<f64> {
    let mut table = Wavetable::new(capacity);
    table.fill(|i, capacity| (2.0 * PI * i as f64 / capacity as f64).sin());
    table
}

#[test]
fn control_side_answers_one_attenuated_sample() {
    let table = sine_table(64);
    let mut oscillator = table.iter(440, 44_000);
    let gain = |x: f64| x * 0.1;

    let reply = handle_request(AudioThreadMessage::RequestSample, &mut oscillator, &gain);

    let MainThreadMessage::Sample(value) = reply;
    assert_eq!(value, table.get(0) * 0.1);
}

// The n-th value the render side receives is the gain applied to the control
// side's n-th oscillator step: nothing is dropped, duplicated or reordered.
#[test]
fn session_pairs_every_request_with_its_sample() {
    let table = sine_table(64);
    let mut oscillator = table.iter(440, 44_000);
    let gain = |x: f64| x * 0.1;

    let received = run_session(&mut oscillator, &gain, 50);

    let mut expected = table.iter(440, 44_000);
    assert_eq!(received.len(), 50);
    for (n, value) in received.iter().enumerate() {
        assert_eq!(*value, expected.next().unwrap() * 0.1, "response {n}");
    }
}

#[test]
fn frames_duplicate_each_sample_across_channels() {
    let samples = vec![1.0f32, 2.0, 3.0];
    let interleaved = fill_frames(&samples, 2);
    assert_eq!(interleaved, vec![1.0, 1.0, 2.0, 2.0, 3.0, 3.0]);

    let mono = fill_frames(&samples, 1);
    assert_eq!(mono, samples);
}
