use mvis::display::create_bars;
use mvis::error::AnalysisError;
use mvis::play::{spectrum, Playback, PlaybackState};
use mvis::window::{extract, Window};
use num_complex::Complex;
use std::f64::consts::PI;

const SECOND: u64 = 1_000_000_000;
const ZERO: Complex<f64> = Complex { re: 0.0, im: 0.0 };

fn butterfly(even: Complex<f64>, odd: Complex<f64>, k: usize, n: usize) -> (Complex<f64>, Complex<f64>) {
    let t = (-Complex::<f64>::i() * PI * ((2 * k) as f64) / (n as f64)).exp() * odd;
    (even + t, even - t)
}

fn mix(frame: &(f32, f32)) -> Complex<f64> {
    Complex { re: (frame.0 + frame.1) as f64 / 2.0, im: 0.0 }
}

/// One second of a sine wave at `frequency` Hz, sampled at `rate` Hz, the
/// same on both channels.
fn sine(frequency: f64, rate: u32) -> Vec<(f32, f32)> {
    (0..rate)
        .map(|j| {
            let value = (2.0 * PI * frequency * j as f64 / rate as f64).sin() as f32;
            (value, value)
        })
        .collect()
}

fn magnitude(bin: &Complex<f64>) -> i64 {
    let rounded = bin.norm_sqr().round();
    if rounded >= 0.0 {
        rounded as i64
    } else {
        -1
    }
}

fn dominant_bin(bins: &[Complex<f64>]) -> usize {
    let half = &bins[..bins.len() / 2];
    let mut best = 0;
    for (index, bin) in half.iter().enumerate() {
        if bin.norm_sqr() > half[best].norm_sqr() {
            best = index;
        }
    }
    best
}

#[test]
fn sine_wave_peaks_at_its_frequency() {
    let frames = sine(440.0, 8000);
    let window = extract(frames.len(), 0, 8000, SECOND / 10).unwrap().unwrap();
    assert_eq!(window, Window { start: 0, end: 800 });
    let bins = spectrum(&frames, window, &mix, ZERO, &butterfly).unwrap();
    assert_eq!(bins.len(), 1024);
    // 440 Hz of 8000 Hz on 1024 bins is bin 56.32.
    let expected = (440.0f64 * 1024.0 / 8000.0).round() as usize;
    assert_eq!(expected, 56);
    let found = dominant_bin(&bins);
    assert!(found + 1 >= expected && found <= expected + 1, "peak at {}", found);
}

#[test]
fn sine_wave_peaks_at_its_frequency_in_every_window() {
    let frames = sine(440.0, 8000);
    let mut playback = Playback::new();
    playback.start();
    let mut cursor = 0;
    let mut seen = 0;
    while let Some(window) =
        playback.frame(PlaybackState::Playing, frames.len(), 8000, cursor, SECOND / 10).unwrap()
    {
        let bins = spectrum(&frames, window, &mix, ZERO, &butterfly).unwrap();
        let found = dominant_bin(&bins);
        assert!((55..=57).contains(&found), "peak at {} in window {}", found, seen);
        cursor += SECOND / 10;
        seen += 1;
    }
    assert_eq!(seen, 9);
}

#[test]
fn sine_wave_makes_the_tallest_bar_where_its_frequency_lies() {
    let frames = sine(1000.0, 8000);
    let window = extract(frames.len(), SECOND / 4, 8000, SECOND / 10).unwrap().unwrap();
    let bins = spectrum(&frames, window, &mix, ZERO, &butterfly).unwrap();
    let magnitudes: Vec<i64> = bins.iter().map(magnitude).collect();
    // 1024 bins on 64 columns: groups of 16. 1000 Hz is bin 128, the first of group 8.
    let bars = create_bars(&magnitudes, 64);
    assert_eq!(bars.len(), 64);
    let tallest = (0..32).max_by_key(|index| bars[*index]).unwrap();
    assert!(tallest == 7 || tallest == 8, "tallest bar is {}", tallest);
}

#[test]
fn spectrum_of_an_empty_window_is_invalid() {
    let frames = sine(440.0, 8000);
    let result = spectrum(&frames, Window { start: 5, end: 5 }, &mix, ZERO, &butterfly);
    assert_eq!(result, Err(AnalysisError::InvalidInput));
}

#[test]
fn spectrum_mixes_the_channels_before_the_transform() {
    // Two frames whose channels cancel, two whose channels agree.
    let frames = vec![(1.0f32, -1.0f32), (2.0, 2.0), (0.5, -0.5), (4.0, 4.0)];
    let bins = spectrum(&frames, Window { start: 0, end: 4 }, &mix, ZERO, &butterfly).unwrap();
    // The samples are 0, 2, 0, 4: the bins are 6, 2i, -6, -2i.
    let expected = [
        Complex { re: 6.0, im: 0.0 },
        Complex { re: 0.0, im: 2.0 },
        Complex { re: -6.0, im: 0.0 },
        Complex { re: 0.0, im: -2.0 },
    ];
    for (found, wanted) in bins.iter().zip(expected) {
        assert!((found - wanted).norm() < 1e-12);
    }
}

#[test]
fn silence_makes_flat_bars() {
    let frames = vec![(0.0f32, 0.0f32); 8000];
    let window = extract(frames.len(), 0, 8000, SECOND / 10).unwrap().unwrap();
    let bins = spectrum(&frames, window, &mix, ZERO, &butterfly).unwrap();
    let magnitudes: Vec<i64> = bins.iter().map(magnitude).collect();
    let bars = create_bars(&magnitudes, 80);
    assert_eq!(bars.len(), 1024 / 13);
    assert!(bars.iter().all(|bar| *bar == 0));
}
