use rust_playground::wavetable::Wavetable;

const PI: f64 = std::f64::consts::PI;

fn sine_wave(phase: f64) -> f64 {
    phase.sin()
}

fn sawtooth_wave(phase: f64) -> f64 {
    ((phase + PI) / PI) % 2.0 - 1.0
}

fn phase_of(i: usize, capacity: usize) -> f64 {
    2.0 * PI * i as f64 / capacity as f64
}

#[test]
fn sine() {
    let mut sine_table = Wavetable::new(64);

    sine_table.fill(|i, capacity| sine_wave(phase_of(i, capacity)));

    assert!(sine_table.len() == 64);
    assert!((0.0 - sine_table.get(0)).abs() < f64::EPSILON);
    assert!((1.0 - sine_table.get(16)).abs() < f64::EPSILON);
    assert!((0.0 - sine_table.get(32)).abs() < f64::EPSILON);
    assert!((-1.0 - sine_table.get(48)).abs() < f64::EPSILON);
}

#[test]
fn sawtooth() {
    let mut sawtooth_table = Wavetable::new(64);

    sawtooth_table.fill(|i, capacity| sawtooth_wave(phase_of(i, capacity)));

    assert!(sawtooth_table.len() == 64);
    assert!((0.0 - sawtooth_table.get(0)).abs() < f64::EPSILON);
    assert!((1.0 - sawtooth_table.get(31)).abs() < 0.05);
    assert!((-1.0 - sawtooth_table.get(32)).abs() < f64::EPSILON);
    assert!((0.0 - sawtooth_table.get(63)).abs() < 0.05);
}

#[test]
fn iteration() {
    let frequency: u64 = 440;
    let length = 64 as usize;
    let sample_rate: u64 = 44_000;

    let mut sine_table = Wavetable::new(length);

    sine_table.fill(|i, capacity| sine_wave(phase_of(i, capacity)));

    let mut iter = sine_table.iter(frequency, sample_rate);

    let index_increment = frequency as f64 * length as f64 / sample_rate as f64;

    let a = 0;
    let b = (index_increment % length as f64).floor() as usize;
    let c = (index_increment + (index_increment % length as f64)).floor() as usize;

    assert!(iter.next().unwrap() == sine_table.get(a));
    assert!(iter.next().unwrap() == sine_table.get(b));
    assert!(iter.next().unwrap() == sine_table.get(c));
}

// The n-th produced sample is the table entry at the floor of
// (n * frequency * capacity / sample_rate) mod capacity.
#[test]
fn nth_sample_follows_the_phase_accumulator() {
    let capacity = 64usize;
    let frequency: u64 = 440;
    let sample_rate: u64 = 44_000;

    let mut table = Wavetable::new(capacity);
    table.fill(|i, capacity| sine_wave(phase_of(i, capacity)));

    let mut iter = table.iter(frequency, sample_rate);
    let produced = iter.take_samples(200);

    for (n, value) in produced.iter().enumerate() {
        let numerator =
            (n as u64 * frequency * capacity as u64) % (capacity as u64 * sample_rate);
        let slot = (numerator / sample_rate) as usize;
        assert_eq!(*value, table.get(slot), "sample {n}");
    }
}

// Two iterators built with identical (frequency, sample_rate) on the same
// table produce identical sequences.
#[test]
fn identical_iterators_are_deterministic() {
    let mut table = Wavetable::new(64);
    table.fill(|i, capacity| sawtooth_wave(phase_of(i, capacity)));

    let mut first = table.iter(440, 44_000);
    let mut second = table.iter(440, 44_000);

    for n in 0..1000 {
        assert_eq!(first.next().unwrap(), second.next().unwrap(), "step {n}");
    }
}

// A step larger than the whole table still wraps with its fraction kept.
#[test]
fn wraps_past_the_table_end() {
    let mut table = Wavetable::new(4);
    table.fill(|i, _| i as i64);

    // Step is 6.5 slots per sample over a 4-slot table.
    let mut iter = table.iter(13, 8);
    assert_eq!(iter.next().unwrap(), 0); // index 0
    assert_eq!(iter.next().unwrap(), 2); // index 2.5
    assert_eq!(iter.next().unwrap(), 1); // index 1.0
    assert_eq!(iter.next().unwrap(), 3); // index 3.5
    assert_eq!(iter.next().unwrap(), 2); // index 2.0
}

#[test]
fn single_slot_table_repeats_itself() {
    let mut table = Wavetable::new(1);
    table.fill(|_, _| 7i64);
    let mut iter = table.iter(3, 5);
    for _ in 0..20 {
        assert_eq!(iter.next().unwrap(), 7);
    }
}

#[test]
fn fill_populates_every_slot_in_order() {
    let mut table = Wavetable::new(8);
    table.fill(|i, capacity| (i * 10 + capacity) as u64);
    assert_eq!(table.len(), 8);
    for i in 0..8 {
        assert_eq!(table.get(i), (i * 10 + 8) as u64);
    }
}
