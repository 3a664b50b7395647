//! The playback loop: when a frame is due, what it is computed from, and
//! when the loop ends.
//!
//! The loop itself belongs to the caller, who owns the player, the screen
//! and the clock. Each turn it asks [`Playback::frame`] for the window of
//! the frame, has [`spectrum`] compute the frame, draws it, reports back
//! with [`Playback::rendered`] and sleeps as [`crate::pacer::pace`] says.

use vstd::prelude::*;
use crate::error::AnalysisError;
use crate::fft::{accepts_stages, fft, is_transform, next_power_of_two, padded};
use crate::window::{downmix, extract, is_downmix, mixes, window_at, Window};

verus! {

/// What the player reports of itself.
#[derive(Clone, Copy, Debug, PartialEq, Eq, Structural)]
pub enum PlaybackState {
    Playing,
    Stopped,
}

/// Where the loop stands.
#[derive(Clone, Copy, Debug, PartialEq, Eq, Structural)]
pub enum LoopState {
    /// Nothing is loaded yet.
    Idle,
    /// Frames are being produced.
    Running,
    /// The loop has ended and does not start again.
    Stopped,
}

/// The loop's state, which only the loop's own steps change.
pub struct Playback {
    state: LoopState,
}

/// What one turn of a running loop comes to: the window of the frame, no
/// window where the player has stopped or the window would run over the
/// end of the buffer, or the error of a slice without length.
pub open spec fn turn(
    player: PlaybackState,
    buffer_len: nat,
    sample_rate: nat,
    cursor: nat,
    slice: nat,
) -> Result<Option<Window>, AnalysisError> {
    if player == PlaybackState::Stopped {
        Ok(None)
    } else if slice == 0 {
        Err(AnalysisError::InvalidInput)
    } else {
        Ok(window_at(buffer_len, cursor, sample_rate, slice))
    }
}

impl Playback {
    /// Where the loop stands.
    pub closed spec fn view(&self) -> LoopState {
        self.state
    }

    /// A loop that has not started.
    pub fn new() -> (playback: Playback)
        ensures
            playback@ == LoopState::Idle,
    {
        Playback { state: LoopState::Idle }
    }

    /// Where the loop stands.
    pub fn state(&self) -> (state: LoopState)
        ensures
            state == self@,
    {
        self.state
    }

    /// Whether the loop is to take another turn.
    pub fn is_running(&self) -> (running: bool)
        ensures
            running == (self@ == LoopState::Running),
    {
        self.state == LoopState::Running
    }

    /// Starts the loop once the sound is loaded. A loop that runs or has
    /// ended stays as it is.
    pub fn start(&mut self)
        ensures
            final(self)@ == if old(self)@ == LoopState::Idle {
                LoopState::Running
            } else {
                old(self)@
            },
    {
        if self.state == LoopState::Idle {
            self.state = LoopState::Running;
        }
    }

    /// Takes one turn of the loop: decides whether there is a frame at
    /// `cursor`, and which samples it is made of.
    ///
    /// A running loop goes on exactly when the result is a window. It ends
    /// without an error when the player has stopped or there is no data for
    /// this frame, and with the error when the slice has no length. A loop
    /// that does not run gives no window and stays as it is.
    pub fn frame(
        &mut self,
        player: PlaybackState,
        buffer_len: usize,
        sample_rate: u32,
        cursor: u64,
        slice: u64,
    ) -> (result: Result<Option<Window>, AnalysisError>)
        requires
            buffer_len > 0,
        ensures
            old(self)@ == LoopState::Running ==> result == turn(
                player,
                buffer_len as nat,
                sample_rate as nat,
                cursor as nat,
                slice as nat,
            ),
            old(self)@ == LoopState::Running ==> final(self)@ == if result matches Ok(Some(_)) {
                LoopState::Running
            } else {
                LoopState::Stopped
            },
            old(self)@ != LoopState::Running ==> final(self)@ == old(self)@ && result == Ok::<
                Option<Window>,
                AnalysisError,
            >(None),
            result matches Ok(Some(window)) ==> window.start < window.end < buffer_len,
    {
        if self.state != LoopState::Running {
            return Ok(None);
        }
        if player == PlaybackState::Stopped {
            self.state = LoopState::Stopped;
            return Ok(None);
        }
        let found = extract(buffer_len, cursor, sample_rate, slice);
        match found {
            Ok(Some(_)) => {},
            _ => {
                self.state = LoopState::Stopped;
            },
        }
        found
    }

    /// Takes note of how drawing the frame went. A failure ends a running
    /// loop and is handed back as the loop's error.
    pub fn rendered(&mut self, drawn: bool) -> (result: Result<(), AnalysisError>)
        ensures
            drawn <==> result is Ok,
            !drawn ==> result == Err::<(), AnalysisError>(AnalysisError::RenderFailure),
            final(self)@ == if !drawn && old(self)@ == LoopState::Running {
                LoopState::Stopped
            } else {
                old(self)@
            },
    {
        if drawn {
            Ok(())
        } else {
            if self.state == LoopState::Running {
                self.state = LoopState::Stopped;
            }
            Err(AnalysisError::RenderFailure)
        }
    }
}

/// Computes the spectrum of the frames in `window`: each frame is turned
/// into a sample by `mix`, and the samples are transformed as [`fft`]
/// describes.
pub fn spectrum<S, T: Copy, M: Fn(&S) -> T, B: Fn(T, T, usize, usize) -> (T, T)>(
    frames: &Vec<S>,
    window: Window,
    mix: &M,
    zero: T,
    butterfly: &B,
) -> (result: Result<Vec<T>, AnalysisError>)
    requires
        window.start <= window.end <= frames.len(),
        mixes(*mix, frames@, window),
        next_power_of_two((window.end - window.start) as nat) <= usize::MAX,
        accepts_stages(*butterfly, next_power_of_two((window.end - window.start) as nat)),
    ensures
        window.start == window.end <==> result == Err::<Vec<T>, AnalysisError>(
            AnalysisError::InvalidInput,
        ),
        window.start < window.end <==> result is Ok,
        result matches Ok(bins) ==> bins.len() == next_power_of_two(
            (window.end - window.start) as nat,
        ) && exists|samples: Seq<T>| #[trigger]
            is_downmix(*mix, frames@, window, samples) && is_transform(
                *butterfly,
                padded(samples, zero, bins@.len()),
                bins@,
            ),
{
    let mut buffer = downmix(frames, window, mix);
    match fft(&mut buffer, zero, butterfly) {
        Ok(()) => Ok(buffer),
        Err(error) => Err(error),
    }
}

} // verus!
