use vstd::prelude::*;

use crate::events::Event;

verus! {

/// Where the audio pipeline of one playback is.
#[derive(Debug, Clone, Copy, PartialEq, Eq, Structural)]
pub enum PlaybackState {
    NotStarted,
    Playing,
    Paused,
    Finished,
}

/// A state the audio pipeline reports having reached.
#[derive(Debug, Clone, Copy, PartialEq, Eq, Structural)]
pub enum PipelineState {
    VoidPending,
    Null,
    Ready,
    Paused,
    Playing,
}

/// A state change of the pipeline: the listener's new state and the event
/// to report, if any.
pub open spec fn state_change(s: PlaybackState, reached: PipelineState) -> (PlaybackState, Option<Event>) {
    match (s, reached) {
        (PlaybackState::NotStarted, PipelineState::Paused) => (s, None),
        (PlaybackState::NotStarted, PipelineState::Ready) => (s, None),
        (PlaybackState::NotStarted, PipelineState::Playing) => (
            PlaybackState::Playing,
            Some(Event::PlaybackStarted),
        ),
        (PlaybackState::Paused, PipelineState::Playing) => (
            PlaybackState::Playing,
            Some(Event::PlaybackUnpaused),
        ),
        (PlaybackState::Playing, PipelineState::Paused) => (
            PlaybackState::Paused,
            Some(Event::PlaybackPaused),
        ),
        (_, PipelineState::Ready) => (PlaybackState::Finished, Some(Event::PlaybackEnded)),
        _ => (s, None),
    }
}

/// Turns the audio pipeline's reports on one playback into player events.
#[derive(Debug)]
pub struct PlaybackListener {
    pub state: PlaybackState,
}

impl PlaybackListener {
    pub fn init() -> (r: PlaybackListener)
        ensures
            r.state == PlaybackState::NotStarted,
    {
        PlaybackListener { state: PlaybackState::NotStarted }
    }

    /// The pipeline reached `reached`.
    pub fn state_changed(&mut self, reached: PipelineState) -> (r: Option<Event>)
        ensures
            (final(self).state, r) == state_change(old(self).state, reached),
    {
        match (self.state, reached) {
            (PlaybackState::NotStarted, PipelineState::Paused) => None,
            (PlaybackState::NotStarted, PipelineState::Ready) => None,
            (PlaybackState::NotStarted, PipelineState::Playing) => {
                self.state = PlaybackState::Playing;
                Some(Event::PlaybackStarted)
            },
            (PlaybackState::Paused, PipelineState::Playing) => {
                self.state = PlaybackState::Playing;
                Some(Event::PlaybackUnpaused)
            },
            (PlaybackState::Playing, PipelineState::Paused) => {
                self.state = PlaybackState::Paused;
                Some(Event::PlaybackPaused)
            },
            (_, PipelineState::Ready) => {
                self.state = PlaybackState::Finished;
                Some(Event::PlaybackEnded)
            },
            _ => None,
        }
    }

    /// The pipeline reached the end of its stream.
    pub fn end_of_stream(&mut self) -> (r: Event)
        ensures
            final(self).state == PlaybackState::Finished,
            r == Event::PlaybackEnded,
    {
        self.state = PlaybackState::Finished;
        Event::PlaybackEnded
    }

    /// Whether the playback is over and the listener can stop.
    pub fn is_finished(&self) -> (r: bool)
        ensures
            r == (self.state == PlaybackState::Finished),
    {
        match self.state {
            PlaybackState::Finished => true,
            _ => false,
        }
    }

    /// The event reporting a playback position read from the pipeline, in
    /// nanoseconds.
    pub fn position(&self, nanos: u64) -> (r: Event)
        ensures
            r == Event::PlaybackPosition(nanos / 1_000_000),
    {
        Event::PlaybackPosition(nanos / 1_000_000)
    }
}

} // verus!
