use vstd::prelude::*;

verus! {

/// A request to the player, from a button, the keyboard, a signal or the
/// network.
#[derive(Debug, PartialEq, Eq)]
pub enum Command {
    PreviousTrack,
    NextTrack,
    PlayPause,
    VolumeUp,
    VolumeDown,
    /// Start the named playlist; the flag restarts it even when it is the
    /// one already playing.
    StartPlaylist(String, bool),
    Shutdown,
    Reload,
    Status,
}

impl Clone for Command {
    fn clone(&self) -> (r: Self)
        ensures
            r == *self,
    {
        match self {
            Command::PreviousTrack => Command::PreviousTrack,
            Command::NextTrack => Command::NextTrack,
            Command::PlayPause => Command::PlayPause,
            Command::VolumeUp => Command::VolumeUp,
            Command::VolumeDown => Command::VolumeDown,
            Command::StartPlaylist(name, force) => Command::StartPlaylist(name.clone(), *force),
            Command::Shutdown => Command::Shutdown,
            Command::Reload => Command::Reload,
            Command::Status => Command::Status,
        }
    }
}

/// Something that happened in the player, reported to listeners.
#[derive(Debug, Clone, Copy, PartialEq, Eq, Structural)]
pub enum Event {
    PlaylistUpdated,
    PlaybackStarted,
    PlaybackPaused,
    PlaybackUnpaused,
    PlaybackEnded,
    /// Elapsed playback time of the current track, in milliseconds.
    PlaybackPosition(u64),
    Shutdown,
}

/// A payload stamped with the instant (in milliseconds on the appliance's
/// monotonic clock) at which it was created.
#[derive(Debug, PartialEq, Eq)]
pub struct Message<T> {
    pub payload: T,
    pub instant: u64,
}

impl<T> Message<T> {
    pub fn new(instant: u64, payload: T) -> (r: Message<T>)
        ensures
            r.instant == instant,
            r.payload == payload,
    {
        Message { instant, payload }
    }
}

impl<T: Clone> Clone for Message<T> {
    fn clone(&self) -> (r: Self)
        ensures
            r.instant == self.instant,
            cloned(self.payload, r.payload),
    {
        Message { payload: self.payload.clone(), instant: self.instant }
    }
}

/// An operating-system signal the appliance listens for.
#[derive(Debug, Clone, Copy, PartialEq, Eq, Structural)]
pub enum Signal {
    Hangup,
    Terminate,
    Interrupt,
    Quit,
    User1,
    User2,
}

/// The command a signal stands for: termination signals shut down, hang-up
/// reloads, the first user signal asks for status and the second force-starts
/// the "red" playlist.
pub fn signal_command(signal: Signal) -> (r: Command)
    ensures
        match signal {
            Signal::Hangup => r == Command::Reload,
            Signal::Terminate | Signal::Interrupt | Signal::Quit => r == Command::Shutdown,
            Signal::User1 => r == Command::Status,
            Signal::User2 => r matches Command::StartPlaylist(name, force) && name@ == seq![
                'r',
                'e',
                'd',
            ] && force,
        },
{
    match signal {
        Signal::Hangup => Command::Reload,
        Signal::Terminate => Command::Shutdown,
        Signal::Interrupt => Command::Shutdown,
        Signal::Quit => Command::Shutdown,
        Signal::User1 => Command::Status,
        Signal::User2 => {
            let name = String::from_str("red");
            proof {
                reveal_strlit("red");
            }
            Command::StartPlaylist(name, true)
        },
    }
}

} // verus!
