//! Analysis and pacing core of a terminal music visualizer.
//!
//! Every frame the visualizer cuts a short window of samples out of the
//! decoded track, transforms it into a spectrum, folds the spectrum into
//! a row of bars and then sleeps for whatever is left of the frame budget.
//! This crate holds those steps; sound output and drawing are the caller's.
//!
//! - [`window`] finds the samples of a frame at the playback cursor.
//! - [`fft`] transforms them, and [`dft`] says what the transform is.
//! - [`display`] folds the spectrum into bars.
//! - [`pacer`] caps the frame rate.
//! - [`play`] decides when the loop goes on and when it ends.
//! - [`queue`] hands frames from a worker to the loop, in order.
//! - [`config`] decodes the colours of the chart.
//! - [`download_mp3`] names the files and commands of a download.
//!
//! Times are whole nanoseconds and magnitudes are whole numbers, so that
//! every result is exact. Samples are of any type: the arithmetic on them
//! is handed in by the caller.

pub mod config;
pub mod dft;
pub mod display;
pub mod download_mp3;
pub mod error;
pub mod fft;
pub mod pacer;
pub mod play;
pub mod queue;
pub mod window;
