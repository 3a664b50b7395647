use mvis::error::AnalysisError;
use mvis::window::{downmix, extract, Window};

const SECOND: u64 = 1_000_000_000;

#[test]
fn window_inside_the_buffer() {
    // Half a second into one second of sound at 8000 Hz, a tenth of a second long.
    assert_eq!(
        extract(8000, SECOND / 2, 8000, SECOND / 10),
        Ok(Some(Window { start: 4000, end: 4800 }))
    );
}

#[test]
fn window_at_the_start() {
    assert_eq!(extract(8000, 0, 8000, SECOND / 10), Ok(Some(Window { start: 0, end: 800 })));
}

#[test]
fn window_that_runs_over_the_end_is_no_data() {
    // Starts at 7600, would end at 8400, which wraps to 400.
    assert_eq!(extract(8000, 950_000_000, 8000, SECOND / 10), Ok(None));
}

#[test]
fn window_that_ends_exactly_at_the_end_is_no_data() {
    // Ends at 8000, which wraps to 0.
    assert_eq!(extract(8000, 900_000_000, 8000, SECOND / 10), Ok(None));
}

#[test]
fn cursor_beyond_the_buffer_wraps() {
    // 1.5 s into a buffer of one second: sample 12000 is sample 4000.
    assert_eq!(
        extract(8000, SECOND + SECOND / 2, 8000, SECOND / 10),
        Ok(Some(Window { start: 4000, end: 4800 }))
    );
}

#[test]
fn start_is_rounded_down_and_end_is_rounded_up() {
    // At 44100 Hz a sample lasts about 22676 ns.
    // The cursor at 30000 ns is in sample 1; the slice ends at 60000 ns, in sample 2,
    // so the end is 3.
    assert_eq!(extract(1000, 30_000, 44_100, 30_000), Ok(Some(Window { start: 1, end: 3 })));
    // One nanosecond is enough to reach into the first sample.
    assert_eq!(extract(1000, 0, 44_100, 1), Ok(Some(Window { start: 0, end: 1 })));
}

#[test]
fn slice_that_ends_on_a_sample_is_not_rounded_further() {
    // 1/8000 s is 125000 ns: the slice ends exactly where sample 1 starts.
    assert_eq!(extract(100, 0, 8000, 125_000), Ok(Some(Window { start: 0, end: 1 })));
    assert_eq!(extract(100, 0, 8000, 125_001), Ok(Some(Window { start: 0, end: 2 })));
}

#[test]
fn slice_without_length_is_invalid() {
    assert_eq!(extract(8000, 0, 8000, 0), Err(AnalysisError::InvalidInput));
    assert_eq!(extract(8000, SECOND / 2, 8000, 0), Err(AnalysisError::InvalidInput));
    assert_eq!(extract(1, u64::MAX, u32::MAX, 0), Err(AnalysisError::InvalidInput));
}

#[test]
fn silent_rate_gives_no_data() {
    assert_eq!(extract(8000, SECOND, 0, SECOND), Ok(None));
}

#[test]
fn buffer_of_one_sample_never_has_a_window() {
    for cursor in [0, 1, SECOND, 17 * SECOND + 3] {
        assert_eq!(extract(1, cursor, 8000, SECOND / 10), Ok(None));
    }
}

#[test]
fn largest_inputs_do_not_overflow() {
    // floor(u64::MAX * u32::MAX / 1e9) = 79228162495817593515,
    // ceil(2 * u64::MAX * u32::MAX / 1e9) = 158456324991635187032.
    let len = u64::MAX as usize;
    let start = (79_228_162_495_817_593_515u128 % len as u128) as usize;
    let end = (158_456_324_991_635_187_032u128 % len as u128) as usize;
    assert_eq!(start, 5_441_186_200_979_387_055);
    assert_eq!(end, 10_882_372_401_958_774_112);
    assert_eq!(extract(len, u64::MAX, u32::MAX, u64::MAX), Ok(Some(Window { start, end })));
}

#[test]
fn a_window_is_never_reversed() {
    for cursor in (0..3 * SECOND).step_by(7_654_321) {
        for slice in [1, 1000, SECOND / 10, SECOND / 3, 2 * SECOND] {
            match extract(8000, cursor, 8000, slice) {
                Ok(Some(window)) => {
                    assert!(window.start < window.end);
                    assert!(window.end < 8000);
                    let first = (cursor as u128 * 8000 / SECOND as u128) % 8000;
                    assert_eq!(window.start as u128, first);
                }
                Ok(None) => {
                    let first = (cursor as u128 * 8000 / SECOND as u128) % 8000;
                    let last = ((cursor as u128 + slice as u128) * 8000).div_ceil(SECOND as u128) % 8000;
                    assert!(last <= first);
                }
                Err(error) => panic!("{:?}", error),
            }
        }
    }
}

#[test]
fn downmix_averages_the_channels_of_the_window() {
    let frames: Vec<(f32, f32)> = vec![(0.0, 0.0), (1.0, 0.0), (0.5, 0.25), (-1.0, 1.0), (9.0, 9.0)];
    let mix = |frame: &(f32, f32)| (frame.0 + frame.1) as f64 / 2.0;
    let samples = downmix(&frames, Window { start: 1, end: 4 }, &mix);
    assert_eq!(samples, vec![0.5, 0.375, 0.0]);
}

#[test]
fn downmix_of_an_empty_window_is_empty() {
    let frames: Vec<u8> = vec![1, 2, 3];
    let samples = downmix(&frames, Window { start: 2, end: 2 }, &|frame: &u8| *frame as u32);
    assert_eq!(samples, Vec::<u32>::new());
}

#[test]
fn downmix_of_the_whole_buffer_keeps_the_order() {
    let frames: Vec<u8> = vec![3, 1, 2];
    let samples = downmix(&frames, Window { start: 0, end: 3 }, &|frame: &u8| *frame as u32 * 10);
    assert_eq!(samples, vec![30, 10, 20]);
}
