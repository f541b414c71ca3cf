//! Control core of a small audio-playback appliance: button gesture
//! classification, fan-in and fan-out of messages, and the playback command
//! loop's state machine.

pub mod events;
pub mod fanin;
pub mod fanout;
pub mod gpio;
pub mod hardware;
pub mod musicbox;
pub mod playback;
pub mod playlist;
pub mod track;

pub use events::{signal_command, Command, Event, Message, Signal};
pub use fanin::{MessagePoll, MessageReceiver};
pub use fanout::{MessageSender, SyncMessageChannel};
pub use gpio::{
    ButtonEvent, ButtonEventStream, DebounceInput, DebounceOutput, DebouncedPinEventStream,
    GestureInput, GestureState, LevelDef, PinChangeStream, PinEvent, PullUpDownDef,
};
pub use hardware::{ButtonConfig, Buttons, Key, KeyConfig, Keyboard};
pub use musicbox::{Action, MusicBox, PlayState};
pub use playback::{PipelineState, PlaybackListener, PlaybackState};
pub use playlist::{DirEntry, StoredPlaylist};
pub use track::Track;
