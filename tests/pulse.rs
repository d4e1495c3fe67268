use beat_pulse::analysis::{Analyzer, Step, WINDOW_LEN};
use beat_pulse::channel::{sample_channel, SampleProducer, CHANNEL_CAPACITY};
use beat_pulse::pulse::Pulse;
use beat_pulse::settings::{SettingChange, DEFAULT_SILENCE, DEFAULT_THRESHOLD};
use beat_pulse::stream::{on_click, playing_after, StreamCommand};

fn strength(steps: Option<u64>) -> f32 {
    match steps {
        None => 0.0,
        Some(k) => 0.8f32.powi(k as i32),
    }
}

fn feed(tx: &mut SampleProducer, n: u32) {
    for i in 0..n {
        assert!(tx.push(i));
    }
}

fn tick(an: &mut Analyzer, result: f32) -> usize {
    let mut window: Vec<u32> = Vec::with_capacity(WINDOW_LEN);
    let mut windows = 0;
    let mut last = None;
    while let Step::Analyze(_settings) = an.step(last, &mut window) {
        assert_eq!(window.len(), WINDOW_LEN);
        last = Some(result.to_bits());
        windows += 1;
    }
    windows
}

#[test]
fn underfull_tick_runs_no_detection_and_still_decays() {
    let (mut tx, rx) = sample_channel(CHANNEL_CAPACITY);
    let mut an = Analyzer::new(rx);
    an.record(1.0f32.to_bits());
    assert_eq!(an.decay_steps(), Some(0));
    feed(&mut tx, 1023);
    assert_eq!(tick(&mut an, 5.0), 0);
    assert_eq!(an.decay_steps(), Some(1));
    assert!((strength(an.decay_steps()) - 0.8).abs() < 1e-6);
    assert_eq!(an.input.available_len(), 1023);
}

#[test]
fn five_quiet_ticks_from_full_strength() {
    let (mut tx, rx) = sample_channel(CHANNEL_CAPACITY);
    let mut an = Analyzer::new(rx);
    an.record(1.0f32.to_bits());
    feed(&mut tx, 512);
    for _ in 0..5 {
        feed(&mut tx, 512);
        assert_eq!(tick(&mut an, 0.0), 1);
    }
    assert_eq!(an.decay_steps(), Some(5));
    let s = strength(an.decay_steps());
    assert!((s - 0.32768).abs() < 1e-4);
}

#[test]
fn decay_once_per_tick_whatever_the_window_count() {
    let (mut tx, rx) = sample_channel(CHANNEL_CAPACITY);
    let mut an = Analyzer::new(rx);
    an.record(3.0f32.to_bits());
    feed(&mut tx, 2048);
    assert_eq!(tick(&mut an, 0.0), 3);
    assert_eq!(an.decay_steps(), Some(1));
    assert_eq!(tick(&mut an, 0.0), 0);
    assert_eq!(an.decay_steps(), Some(2));
}

#[test]
fn beat_resets_to_full_then_fades() {
    let (mut tx, rx) = sample_channel(CHANNEL_CAPACITY);
    let mut an = Analyzer::new(rx);
    assert_eq!(an.decay_steps(), None);
    assert_eq!(tick(&mut an, 0.0), 0);
    assert_eq!(an.decay_steps(), None);
    assert_eq!(strength(an.decay_steps()), 0.0);
    feed(&mut tx, 1024);
    assert_eq!(tick(&mut an, 12.0), 1);
    assert_eq!(an.decay_steps(), Some(1));
    for _ in 0..3 {
        an.end_tick();
    }
    assert_eq!(an.decay_steps(), Some(4));
    an.record(12.0f32.to_bits());
    assert_eq!(an.decay_steps(), Some(0));
    assert_eq!(strength(an.decay_steps()), 1.0);
    an.record(0.0f32.to_bits());
    assert_eq!(an.decay_steps(), Some(0));
    an.end_tick();
    assert_eq!(an.decay_steps(), Some(1));
    let mut last = strength(an.decay_steps());
    for _ in 0..10 {
        an.end_tick();
        let now = strength(an.decay_steps());
        assert!(now <= last);
        last = now;
    }
}

#[test]
fn detector_values_that_count_as_beats() {
    let mut p = Pulse::new();
    for v in [0.0f32, -0.0, -1.0, f32::NAN, f32::NEG_INFINITY] {
        p.observe(v.to_bits());
        assert!(p.is_idle());
    }
    for v in [f32::MIN_POSITIVE, 1e-45, 1.0, 512.0, f32::INFINITY] {
        let mut q = Pulse::Fading { steps: 7 };
        q.observe(v.to_bits());
        assert_eq!(q, Pulse::Fading { steps: 0 });
    }
}

#[test]
fn decay_saturates() {
    let mut p = Pulse::Fading { steps: u64::MAX };
    p.decay();
    assert_eq!(p.decay_steps(), Some(u64::MAX));
    let mut q = Pulse::Idle;
    q.decay();
    assert_eq!(q.decay_steps(), None);
}

#[test]
fn setting_change_reaches_next_window_only() {
    let (mut tx, rx) = sample_channel(CHANNEL_CAPACITY);
    let mut an = Analyzer::new(rx);
    feed(&mut tx, 1536);
    let mut window: Vec<u32> = Vec::new();
    let before = an.next_window(&mut window).unwrap();
    assert_eq!(before.threshold, DEFAULT_THRESHOLD);
    assert_eq!(before.silence, DEFAULT_SILENCE);
    let half = 0.5f32.to_bits();
    an.apply(SettingChange::Threshold(0.9f32.to_bits()));
    an.apply(SettingChange::Threshold(half));
    assert_eq!(before.threshold, DEFAULT_THRESHOLD);
    let after = an.next_window(&mut window).unwrap();
    assert_eq!(after.threshold, half);
    assert_eq!(after.silence, DEFAULT_SILENCE);
    an.apply(SettingChange::Silence(0.25f32.to_bits()));
    assert_eq!(an.settings.silence, 0.25f32.to_bits());
    assert_eq!(an.settings.threshold, half);
}

#[test]
fn default_settings_are_the_documented_values() {
    assert_eq!(f32::from_bits(DEFAULT_THRESHOLD), 0.3);
    assert_eq!(f32::from_bits(DEFAULT_SILENCE), 0.1);
}

#[test]
fn start_stop_toggles() {
    assert_eq!(on_click(true), StreamCommand::Pause);
    assert_eq!(on_click(false), StreamCommand::Play);
    assert!(playing_after(on_click(false)));
    assert!(!playing_after(on_click(true)));
}

#[test]
fn step_records_each_value_and_decays_once_at_the_end() {
    let (mut tx, rx) = sample_channel(CHANNEL_CAPACITY);
    let mut an = Analyzer::new(rx);
    feed(&mut tx, 1536);
    let mut window: Vec<u32> = Vec::with_capacity(WINDOW_LEN);
    let first = an.step(None, &mut window);
    assert!(matches!(first, Step::Analyze(_)));
    assert_eq!(an.decay_steps(), None);
    let second = an.step(Some(2.0f32.to_bits()), &mut window);
    assert!(matches!(second, Step::Analyze(_)));
    assert_eq!(an.decay_steps(), Some(0));
    let third = an.step(Some(0.0f32.to_bits()), &mut window);
    assert_eq!(third, Step::Done);
    assert_eq!(an.decay_steps(), Some(1));
    assert_eq!(an.step(None, &mut window), Step::Done);
    assert_eq!(an.decay_steps(), Some(2));
}
