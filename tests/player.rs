use musicbox::{
    signal_command, PipelineState, PlaybackListener, PlaybackState, Signal,
    Action, ButtonConfig, Key, ButtonEvent, Command, DirEntry, Event, KeyConfig, Keyboard, LevelDef,
    Message, MusicBox, PlayState, PullUpDownDef, StoredPlaylist, Track,
};

fn entry(path: &str, is_file: bool) -> DirEntry {
    DirEntry { path: path.to_string(), is_file }
}

fn red() -> StoredPlaylist {
    let mut p = StoredPlaylist::new("/data/playlists/red".to_string(), "red".to_string());
    p.rescan(&vec![
        entry("/data/playlists/red/A.mp3", true),
        entry("/data/playlists/red/B.mp3", true),
    ]);
    p
}

fn start(name: &str, force: bool) -> Command {
    Command::StartPlaylist(name.to_string(), force)
}

#[test]
fn track_title_is_file_stem() {
    let t = Track::new("/music/red/Song One.mp3");
    assert_eq!(t.title(), "Song One");
    assert_eq!(t.path(), "/music/red/Song One.mp3");
    let root = Track::new("/");
    assert_eq!(root.title(), "/");
}

#[test]
fn rescan_keeps_audio_files_in_order() {
    let mut p = StoredPlaylist::new("/d".to_string(), "blue".to_string());
    p.rescan(&vec![
        entry("/d/x.mp3", true),
        entry("/d/cover.jpg", true),
        entry("/d/sub.mp3", false),
        entry("/d/noext", true),
        entry("/d/a.mp3", true),
    ]);
    let paths: Vec<String> = p.tracks().iter().map(|t| t.path()).collect();
    assert_eq!(paths, vec!["/d/x.mp3".to_string(), "/d/a.mp3".to_string()]);
    assert_eq!(p.name(), "blue");
    assert!(p.equals(&p.tracks()));
    assert!(!p.equals(&Vec::new()));
}

#[test]
fn start_playlist_then_next_track_runs_off_the_end() {
    let mut mb = MusicBox::new(50);
    mb.add_playlist(red());
    let actions = mb.handle_command(&start("red", false));
    assert_eq!(
        actions,
        vec![
            Action::Dispatch(Event::PlaylistUpdated),
            Action::Start("/data/playlists/red/A.mp3".to_string()),
        ]
    );
    assert_eq!(mb.play_state().map(|s| s.position), Some(0));
    let actions = mb.handle_command(&Command::NextTrack);
    assert_eq!(
        actions,
        vec![Action::Start("/data/playlists/red/B.mp3".to_string())]
    );
    assert_eq!(mb.play_state().map(|s| s.position), Some(1));
    let actions = mb.handle_command(&Command::NextTrack);
    assert_eq!(
        actions,
        vec![Action::Stop, Action::Dispatch(Event::PlaylistUpdated)]
    );
    assert_eq!(mb.play_state(), None);
    assert!(mb.playlist().is_empty());
}

#[test]
fn start_playlist_twice_is_idempotent() {
    let mut mb = MusicBox::new(50);
    mb.add_playlist(red());
    let first = mb.handle_command(&start("red", false));
    assert_eq!(first.len(), 2);
    let second = mb.handle_command(&start("red", false));
    assert!(second.is_empty());
    assert_eq!(mb.play_state().map(|s| s.position), Some(0));
    let forced = mb.handle_command(&start("red", true));
    assert_eq!(forced.len(), 2);
}

#[test]
fn unknown_playlist_is_a_no_op() {
    let mut mb = MusicBox::new(50);
    mb.add_playlist(red());
    assert!(mb.handle_command(&start("green", false)).is_empty());
    assert_eq!(mb.play_state(), None);
}

#[test]
fn volume_up_clamps_at_maximum() {
    let mut mb = MusicBox::new(50);
    let mut last = 0;
    for _ in 0..15 {
        let actions = mb.handle_command(&Command::VolumeUp);
        match actions.as_slice() {
            [Action::SetVolume(v)] => {
                assert!(*v <= 100);
                last = *v;
            }
            other => panic!("unexpected actions {:?}", other),
        }
    }
    assert_eq!(last, 100);
    assert_eq!(mb.volume(), 100);
}

#[test]
fn volume_down_clamps_at_zero() {
    let mut mb = MusicBox::new(15);
    assert_eq!(mb.handle_command(&Command::VolumeDown), vec![Action::SetVolume(5)]);
    assert_eq!(mb.handle_command(&Command::VolumeDown), vec![Action::SetVolume(0)]);
    assert_eq!(mb.volume(), 0);
}

#[test]
fn play_pause_follows_player_events() {
    let mut mb = MusicBox::new(50);
    mb.add_playlist(red());
    assert!(mb.handle_command(&Command::PlayPause).is_empty());
    mb.handle_command(&start("red", false));
    assert_eq!(mb.handle_command(&Command::PlayPause), vec![Action::Pause]);
    assert_eq!(
        mb.play_state(),
        Some(PlayState { position: 0, duration: 0, paused: true })
    );
    let paused = Message::new(1234, Event::PlaybackPaused);
    assert_eq!(
        mb.handle_event(paused.clone()),
        vec![Action::Forward(paused)]
    );
    assert_eq!(mb.play_state().map(|s| s.paused), Some(true));
    assert_eq!(mb.handle_command(&Command::PlayPause), vec![Action::Play]);
    assert_eq!(mb.play_state().map(|s| s.paused), Some(false));
    mb.handle_event(Message::new(1300, Event::PlaybackPaused));
    assert_eq!(mb.play_state().map(|s| s.paused), Some(true));
    mb.handle_event(Message::new(1400, Event::PlaybackUnpaused));
    assert_eq!(mb.play_state().map(|s| s.paused), Some(false));
}

#[test]
fn playback_end_advances_and_finally_clears() {
    let mut mb = MusicBox::new(50);
    mb.add_playlist(red());
    mb.handle_command(&start("red", false));
    assert_eq!(
        mb.handle_event(Message::new(10, Event::PlaybackEnded)),
        vec![
            Action::Start("/data/playlists/red/B.mp3".to_string()),
            Action::Forward(Message::new(10, Event::PlaybackEnded)),
        ]
    );
    assert_eq!(
        mb.handle_event(Message::new(20, Event::PlaybackEnded)),
        vec![
            Action::Stop,
            Action::Dispatch(Event::PlaylistUpdated),
            Action::Forward(Message::new(20, Event::PlaybackEnded)),
        ]
    );
    assert_eq!(mb.play_state(), None);
}

#[test]
fn previous_track_goes_back_near_the_start() {
    let mut mb = MusicBox::new(50);
    mb.add_playlist(red());
    mb.handle_command(&start("red", false));
    mb.handle_command(&Command::NextTrack);
    assert_eq!(
        mb.handle_command(&Command::PreviousTrack),
        vec![Action::Start("/data/playlists/red/A.mp3".to_string())]
    );
    assert_eq!(
        mb.handle_command(&Command::PreviousTrack),
        vec![Action::Start("/data/playlists/red/A.mp3".to_string())]
    );
    assert_eq!(mb.play_state().map(|s| s.position), Some(0));
}

#[test]
fn shutdown_stops_and_notifies() {
    let mut mb = MusicBox::new(50);
    assert!(!mb.is_shutting_down());
    assert_eq!(
        mb.handle_command(&Command::Shutdown),
        vec![Action::Stop, Action::Dispatch(Event::Shutdown)]
    );
    assert!(mb.is_shutting_down());
}

#[test]
fn button_gestures_map_to_commands() {
    let cfg = ButtonConfig {
        pin: 17,
        kind: PullUpDownDef::PullUp,
        on: LevelDef::Low,
        command: start("red", false),
        hold_command: Some(start("red", true)),
    };
    assert_eq!(cfg.hold_timeout(), Some(1000));
    assert_eq!(
        cfg.command_for(ButtonEvent::Click(3)),
        Some(Message::new(3, start("red", false)))
    );
    assert_eq!(
        cfg.command_for(ButtonEvent::Hold(9)),
        Some(Message::new(9, start("red", true)))
    );
    assert_eq!(cfg.command_for(ButtonEvent::Press(1)), None);
    let plain = ButtonConfig { hold_command: None, ..cfg };
    assert_eq!(plain.hold_timeout(), None);
    assert_eq!(plain.command_for(ButtonEvent::Hold(9)), None);
}

#[test]
fn keys_map_to_commands() {
    let kb = Keyboard {
        keys: vec![
            KeyConfig { key: Key::Char('n'), modifiers: 0, command: Command::NextTrack },
            KeyConfig { key: Key::Char('n'), modifiers: 0, command: Command::PreviousTrack },
            KeyConfig { key: Key::Char('q'), modifiers: 2, command: Command::Shutdown },
            KeyConfig { key: Key::Right, modifiers: 0, command: Command::VolumeUp },
        ],
    };
    assert_eq!(kb.generate_command(Key::Char('n'), 0, 4), Some(Message::new(4, Command::NextTrack)));
    assert_eq!(kb.generate_command(Key::Char('q'), 2, 5), Some(Message::new(5, Command::Shutdown)));
    assert_eq!(kb.generate_command(Key::Char('q'), 0, 5), None);
    assert_eq!(kb.generate_command(Key::Right, 0, 6), Some(Message::new(6, Command::VolumeUp)));
    assert_eq!(kb.generate_command(Key::Left, 0, 6), None);
}

#[test]
fn pipeline_states_become_player_events() {
    let mut l = PlaybackListener::init();
    assert_eq!(l.state_changed(PipelineState::Ready), None);
    assert_eq!(l.state_changed(PipelineState::Paused), None);
    assert_eq!(l.state_changed(PipelineState::Playing), Some(Event::PlaybackStarted));
    assert_eq!(l.state_changed(PipelineState::Paused), Some(Event::PlaybackPaused));
    assert_eq!(l.state_changed(PipelineState::Playing), Some(Event::PlaybackUnpaused));
    assert_eq!(l.state_changed(PipelineState::Null), None);
    assert!(!l.is_finished());
    assert_eq!(l.position(2_500_000_000), Event::PlaybackPosition(2500));
    assert_eq!(l.state_changed(PipelineState::Ready), Some(Event::PlaybackEnded));
    assert_eq!(l.state, PlaybackState::Finished);
    assert!(l.is_finished());
    let mut m = PlaybackListener::init();
    assert_eq!(m.end_of_stream(), Event::PlaybackEnded);
    assert!(m.is_finished());
}

#[test]
fn signals_map_to_commands() {
    assert_eq!(signal_command(Signal::Hangup), Command::Reload);
    assert_eq!(signal_command(Signal::Terminate), Command::Shutdown);
    assert_eq!(signal_command(Signal::Interrupt), Command::Shutdown);
    assert_eq!(signal_command(Signal::Quit), Command::Shutdown);
    assert_eq!(signal_command(Signal::User1), Command::Status);
    assert_eq!(signal_command(Signal::User2), start("red", true));
}

#[test]
fn playing_playlist_is_recognised() {
    let mut mb = MusicBox::new(50);
    mb.add_playlist(red());
    let red_name = "red".to_string();
    assert!(!mb.is_playing_playlist(&red_name));
    mb.handle_command(&start("red", false));
    assert!(mb.is_playing_playlist(&red_name));
    assert!(!mb.is_playing_playlist(&"blue".to_string()));
    mb.handle_command(&Command::Shutdown);
    assert!(mb.is_playing_playlist(&red_name));
}

#[test]
fn title_comes_from_the_given_stem() {
    let t = Track::with_stem("/x/y.mp3", Some("y".to_string()));
    assert_eq!(t.title(), "y");
    let u = Track::with_stem("/x/", None);
    assert_eq!(u.title(), "/x/");
}

#[test]
fn only_the_audio_extension_is_accepted() {
    assert!(musicbox::playlist::is_audio_extension(&Some("mp3".to_string())));
    assert!(!musicbox::playlist::is_audio_extension(&Some("MP3".to_string())));
    assert!(!musicbox::playlist::is_audio_extension(&Some("ogg".to_string())));
    assert!(!musicbox::playlist::is_audio_extension(&None));
}

#[test]
fn replacing_a_playlist_keeps_one_entry() {
    let mut mb = MusicBox::new(50);
    mb.add_playlist(red());
    let mut other = StoredPlaylist::new("/elsewhere".to_string(), "red".to_string());
    other.rescan(&vec![entry("/elsewhere/C.mp3", true)]);
    mb.add_playlist(other);
    assert_eq!(
        mb.handle_command(&start("red", false)),
        vec![
            Action::Dispatch(Event::PlaylistUpdated),
            Action::Start("/elsewhere/C.mp3".to_string()),
        ]
    );
}
