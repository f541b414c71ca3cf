use vstd::prelude::*;

use crate::events::{Command, Event, Message};
use crate::playlist::StoredPlaylist;
use crate::track::{copy_tracks, tracks_view, Track};

verus! {

/// How much one volume command changes the volume, in percent.
pub const VOLUME_STEP: u64 = 10;

/// The loudest volume, in percent.
pub const VOLUME_MAX: u64 = 100;

/// A previous-track command within this many milliseconds of a track's start
/// goes back one track; later it restarts the track.
pub const RESTART_THRESHOLD: u64 = 2000;

/// The playback cursor in the current playlist.
#[derive(Debug, Clone, Copy, PartialEq, Eq, Structural)]
pub struct PlayState {
    pub position: usize,
    /// Elapsed time in the track, in milliseconds.
    pub duration: u64,
    pub paused: bool,
}

/// What the command loop asks of the world around it, in order.
#[derive(Debug, PartialEq, Eq)]
pub enum Action {
    /// Start playing the file at this path.
    Start(String),
    Stop,
    Play,
    Pause,
    /// Set the output volume, in percent.
    SetVolume(u64),
    /// Send this event, stamped now, to every listener.
    Dispatch(Event),
    /// Pass this message on to every listener as it is, instant included.
    Forward(Message<Event>),
}

/// An action as the contracts see it.
pub enum ActionModel {
    Start(Seq<char>),
    Stop,
    Play,
    Pause,
    SetVolume(u64),
    Dispatch(Event),
    Forward(Message<Event>),
}

pub open spec fn action_view(a: Action) -> ActionModel {
    match a {
        Action::Start(path) => ActionModel::Start(path@),
        Action::Stop => ActionModel::Stop,
        Action::Play => ActionModel::Play,
        Action::Pause => ActionModel::Pause,
        Action::SetVolume(v) => ActionModel::SetVolume(v),
        Action::Dispatch(e) => ActionModel::Dispatch(e),
        Action::Forward(m) => ActionModel::Forward(m),
    }
}

pub open spec fn actions_view(a: Seq<Action>) -> Seq<ActionModel> {
    a.map_values(|x: Action| action_view(x))
}

/// The command loop's state as the contracts see it.
pub struct MusicBoxModel {
    /// The stored playlists: name and tracks.
    pub playlists: Seq<(Seq<char>, Seq<(Seq<char>, Seq<char>)>)>,
    /// The tracks of the selected playlist.
    pub playlist: Seq<(Seq<char>, Seq<char>)>,
    pub play_state: Option<PlayState>,
    /// In percent.
    pub volume: u64,
    pub shutting_down: bool,
}

/// The index of the first stored playlist called `name`, or -1.
pub open spec fn find_named(
    ps: Seq<(Seq<char>, Seq<(Seq<char>, Seq<char>)>)>,
    name: Seq<char>,
) -> int
    decreases ps.len(),
{
    if ps.len() == 0 {
        -1
    } else if ps[0].0 == name {
        0
    } else {
        let r = find_named(ps.drop_first(), name);
        if r < 0 {
            -1
        } else {
            r + 1
        }
    }
}

/// Playing the track at `position`: it starts, or, past the end, playback
/// stops, the selection is cleared and listeners hear of it.
pub open spec fn play_step(m: MusicBoxModel, position: int) -> (MusicBoxModel, Seq<ActionModel>) {
    if 0 <= position < m.playlist.len() {
        (
            MusicBoxModel {
                play_state: Some(
                    PlayState { position: position as usize, duration: 0, paused: false },
                ),
                ..m
            },
            seq![ActionModel::Start(m.playlist[position].0)],
        )
    } else {
        (
            MusicBoxModel { play_state: None, playlist: Seq::empty(), ..m },
            seq![ActionModel::Stop, ActionModel::Dispatch(Event::PlaylistUpdated)],
        )
    }
}

/// The volume after one step up, clamped at the maximum.
pub open spec fn volume_up(v: u64) -> u64 {
    if v + VOLUME_STEP > VOLUME_MAX {
        VOLUME_MAX
    } else {
        (v + VOLUME_STEP) as u64
    }
}

/// The volume after one step down, clamped at zero.
pub open spec fn volume_down(v: u64) -> u64 {
    if v < VOLUME_STEP {
        0
    } else {
        (v - VOLUME_STEP) as u64
    }
}

/// Handling one command: the new state and the actions, in order.
pub open spec fn command_step(m: MusicBoxModel, c: Command) -> (MusicBoxModel, Seq<ActionModel>) {
    match c {
        Command::PreviousTrack => match m.play_state {
            Some(st) => play_step(
                m,
                if st.position > 0 && st.duration < RESTART_THRESHOLD {
                    st.position - 1
                } else {
                    st.position as int
                },
            ),
            None => (m, Seq::empty()),
        },
        Command::NextTrack => match m.play_state {
            Some(st) => play_step(m, st.position + 1),
            None => (m, Seq::empty()),
        },
        Command::PlayPause => match m.play_state {
            Some(st) => (
                MusicBoxModel { play_state: Some(PlayState { paused: !st.paused, ..st }), ..m },
                seq![
                    if st.paused {
                        ActionModel::Play
                    } else {
                        ActionModel::Pause
                    },
                ],
            ),
            None => if m.playlist.len() > 0 {
                play_step(m, 0)
            } else {
                (m, Seq::empty())
            },
        },
        Command::VolumeUp => (
            MusicBoxModel { volume: volume_up(m.volume), ..m },
            seq![ActionModel::SetVolume(volume_up(m.volume))],
        ),
        Command::VolumeDown => (
            MusicBoxModel { volume: volume_down(m.volume), ..m },
            seq![ActionModel::SetVolume(volume_down(m.volume))],
        ),
        Command::Shutdown => (
            MusicBoxModel { shutting_down: true, ..m },
            seq![ActionModel::Stop, ActionModel::Dispatch(Event::Shutdown)],
        ),
        Command::StartPlaylist(name, force) => {
            let i = find_named(m.playlists, name@);
            if i < 0 {
                (m, Seq::empty())
            } else if m.playlists[i].1 == m.playlist && !force {
                (m, Seq::empty())
            } else {
                let (after, actions) = play_step(
                    MusicBoxModel { playlist: m.playlists[i].1, ..m },
                    0,
                );
                (after, seq![ActionModel::Dispatch(Event::PlaylistUpdated)] + actions)
            }
        },
        Command::Reload => (m, Seq::empty()),
        Command::Status => (m, Seq::empty()),
    }
}

/// Handling one event from the player: the new state and the actions, in
/// order; the message itself, with its own instant, is always passed on to
/// listeners last.
pub open spec fn event_step(m: MusicBoxModel, e: Message<Event>) -> (MusicBoxModel, Seq<ActionModel>) {
    let (after, actions) = match e.payload {
        Event::PlaybackPaused => match m.play_state {
            Some(st) => (
                MusicBoxModel { play_state: Some(PlayState { paused: true, ..st }), ..m },
                Seq::empty(),
            ),
            None => (m, Seq::empty()),
        },
        Event::PlaybackUnpaused => match m.play_state {
            Some(st) => (
                MusicBoxModel { play_state: Some(PlayState { paused: false, ..st }), ..m },
                Seq::empty(),
            ),
            None => (m, Seq::empty()),
        },
        Event::PlaybackEnded => match m.play_state {
            Some(st) => play_step(m, st.position + 1),
            None => (m, Seq::empty()),
        },
        _ => (m, Seq::empty()),
    };
    (after, actions.push(ActionModel::Forward(e)))
}

/// The state of the command loop: the stored playlists, the selected one, the
/// playback cursor and the volume. It performs nothing itself: each command or
/// event yields the actions for the caller to carry out.
#[derive(Debug)]
pub struct MusicBox {
    stored_playlists: Vec<StoredPlaylist>,
    playlist: Vec<Track>,
    play_state: Option<PlayState>,
    volume: u64,
    shutting_down: bool,
}

impl View for MusicBox {
    type V = MusicBoxModel;

    closed spec fn view(&self) -> MusicBoxModel {
        MusicBoxModel {
            playlists: self.stored_playlists@.map_values(
                |p: StoredPlaylist| (p.name_view(), p.tracks_view()),
            ),
            playlist: tracks_view(self.playlist@),
            play_state: self.play_state,
            volume: self.volume,
            shutting_down: self.shutting_down,
        }
    }
}

/// The volume is at most the maximum, and the cursor, if any, is on a track.
pub open spec fn model_wf(m: MusicBoxModel) -> bool {
    &&& m.volume <= VOLUME_MAX
    &&& m.play_state matches Some(st) ==> st.position < m.playlist.len()
    &&& forall|i: int, j: int|
        0 <= i < j < m.playlists.len() ==> #[trigger] m.playlists[i].0 != #[trigger] m.playlists[j].0
}

proof fn lemma_find_named(
    ps: Seq<(Seq<char>, Seq<(Seq<char>, Seq<char>)>)>,
    name: Seq<char>,
    k: int,
)
    requires
        0 <= k <= ps.len(),
        forall|j: int| 0 <= j < k ==> (#[trigger] ps[j]).0 != name,
        k < ps.len() ==> ps[k].0 == name,
    ensures
        find_named(ps, name) == if k < ps.len() {
            k
        } else {
            -1
        },
    decreases k,
{
    if k > 0 {
        let t = ps.drop_first();
        assert forall|j: int| 0 <= j < k - 1 implies (#[trigger] t[j]).0 != name by {
            assert(t[j] == ps[j + 1]);
        }
        lemma_find_named(t, name, k - 1);
    }
}

proof fn lemma_find_named_range(ps: Seq<(Seq<char>, Seq<(Seq<char>, Seq<char>)>)>, name: Seq<char>)
    ensures
        -1 <= find_named(ps, name) < ps.len(),
        find_named(ps, name) >= 0 ==> ps[find_named(ps, name)].0 == name,
        find_named(ps, name) == -1 ==> forall|j: int| 0 <= j < ps.len() ==> (#[trigger] ps[j]).0 != name,
    decreases ps.len(),
{
    if ps.len() > 0 && ps[0].0 != name {
        let t = ps.drop_first();
        lemma_find_named_range(t, name);
        if find_named(ps, name) == -1 {
            assert forall|j: int| 0 <= j < ps.len() implies (#[trigger] ps[j]).0 != name by {
                if j > 0 {
                    assert(ps[j] == t[j - 1]);
                }
            }
        }
    }
}

proof fn lemma_push_action(a: Seq<Action>, x: Action)
    ensures
        actions_view(a.push(x)) == actions_view(a).push(action_view(x)),
{
    assert(actions_view(a.push(x)) =~= actions_view(a).push(action_view(x)));
}

/// Starting a stored playlist without forcing it, right after starting it the
/// same way, changes nothing and asks for nothing: no playlist-updated event,
/// no restart of playback.
pub proof fn lemma_start_playlist_idempotent(m: MusicBoxModel, name: String)
    requires
        model_wf(m),
    ensures
        ({
            let first = command_step(m, Command::StartPlaylist(name, false));
            let second = command_step(first.0, Command::StartPlaylist(name, false));
            &&& second.0 == first.0
            &&& second.1 == Seq::<ActionModel>::empty()
        }),
{
    let first = command_step(m, Command::StartPlaylist(name, false));
    lemma_find_named_range(m.playlists, name@);
    let i = find_named(m.playlists, name@);
    if i >= 0 && !(m.playlists[i].1 == m.playlist) {
        assert(first.0.playlists == m.playlists);
        assert(first.0.playlist == m.playlists[i].1) by {
            if m.playlists[i].1.len() == 0 {
                assert(m.playlists[i].1 =~= Seq::<(Seq<char>, Seq<char>)>::empty());
            }
        }
    }
}

/// The volume after `n` volume-up commands from `v`.
pub open spec fn volume_up_times(v: u64, n: nat) -> u64
    decreases n,
{
    if n == 0 {
        v
    } else {
        volume_up(volume_up_times(v, (n - 1) as nat))
    }
}

/// Volume-up commands repeated from any valid volume raise it one step each
/// until it reaches the maximum, and never take it past the maximum.
pub proof fn lemma_volume_up_clamps(v: u64, n: nat)
    requires
        v <= VOLUME_MAX,
    ensures
        volume_up_times(v, n) <= VOLUME_MAX,
        volume_up_times(v, n) == if v + n * VOLUME_STEP >= VOLUME_MAX {
            VOLUME_MAX as int
        } else {
            v + n * VOLUME_STEP
        },
    decreases n,
{
    if n > 0 {
        lemma_volume_up_clamps(v, (n - 1) as nat);
        assert((n - 1) * VOLUME_STEP + VOLUME_STEP == n * VOLUME_STEP) by (nonlinear_arith);
    }
}

impl MusicBox {
    /// A music box with no playlists, nothing selected, at `volume` percent.
    pub fn new(volume: u64) -> (r: MusicBox)
        requires
            volume <= VOLUME_MAX,
        ensures
            model_wf(r@),
            r@.playlists == Seq::<(Seq<char>, Seq<(Seq<char>, Seq<char>)>)>::empty(),
            r@.playlist == Seq::<(Seq<char>, Seq<char>)>::empty(),
            r@.play_state is None,
            r@.volume == volume,
            !r@.shutting_down,
    {
        let r = MusicBox {
            stored_playlists: Vec::new(),
            playlist: Vec::new(),
            play_state: None,
            volume,
            shutting_down: false,
        };
        assert(r@.playlists =~= Seq::<(Seq<char>, Seq<(Seq<char>, Seq<char>)>)>::empty());
        assert(r@.playlist =~= Seq::<(Seq<char>, Seq<char>)>::empty());
        r
    }

    /// The index of the first stored playlist called `name`.
    fn find(&self, name: &String) -> (r: Option<usize>)
        ensures
            r matches Some(i) ==> i as int == find_named(self@.playlists, name@) && i
                < self.stored_playlists@.len(),
            r is None ==> find_named(self@.playlists, name@) == -1,
    {
        let n = self.stored_playlists.len();
        let mut i: usize = 0;
        while i < n
            invariant
                n == self.stored_playlists@.len(),
                n == self@.playlists.len(),
                0 <= i <= n,
                forall|j: int| 0 <= j < i ==> (#[trigger] self@.playlists[j]).0 != name@,
            decreases n - i,
        {
            let candidate = self.stored_playlists[i].name();
            if candidate == *name {
                proof {
                    assert(self@.playlists[i as int].0 == name@);
                    lemma_find_named(self@.playlists, name@, i as int);
                }
                return Some(i);
            }
            proof {
                assert(self@.playlists[i as int].0 != name@);
            }
            i = i + 1;
        }
        proof {
            lemma_find_named(self@.playlists, name@, n as int);
        }
        None
    }

    /// Stores `playlist`, in place of the one of the same name if there is one.
    pub fn add_playlist(&mut self, playlist: StoredPlaylist)
        requires
            model_wf(old(self)@),
        ensures
            model_wf(final(self)@),
            ({
                let i = find_named(old(self)@.playlists, playlist.name_view());
                let entry = (playlist.name_view(), playlist.tracks_view());
                final(self)@ == MusicBoxModel {
                    playlists: if i < 0 {
                        old(self)@.playlists.push(entry)
                    } else {
                        old(self)@.playlists.update(i, entry)
                    },
                    ..old(self)@
                }
            }),
    {
        let name = playlist.name();
        proof {
            lemma_find_named_range(old(self)@.playlists, playlist.name_view());
        }
        let ghost entry = (playlist.name_view(), playlist.tracks_view());
        match self.find(&name) {
            Some(i) => {
                self.stored_playlists.set(i, playlist);
                proof {
                    assert(self@.playlists =~= old(self)@.playlists.update(i as int, entry));
                }
            },
            None => {
                self.stored_playlists.push(playlist);
                proof {
                    assert(self@.playlists =~= old(self)@.playlists.push(entry));
                }
            },
        }
    }

    /// Plays the track at `position`, or stops and clears the selection past
    /// the end.
    fn play(&mut self, position: usize, actions: &mut Vec<Action>)
        ensures
            final(self)@ == play_step(old(self)@, position as int).0,
            actions_view(final(actions)@) == actions_view(old(actions)@) + play_step(
                old(self)@,
                position as int,
            ).1,
    {
        if position < self.playlist.len() {
            let path = self.playlist[position].path();
            proof {
                lemma_push_action(actions@, Action::Start(path));
            }
            actions.push(Action::Start(path));
            self.play_state = Some(PlayState { position, duration: 0, paused: false });
            proof {
                assert(actions_view(actions@) =~= actions_view(old(actions)@) + play_step(
                    old(self)@,
                    position as int,
                ).1);
            }
        } else {
            self.play_state = None;
            proof {
                lemma_push_action(actions@, Action::Stop);
                lemma_push_action(actions@.push(Action::Stop), Action::Dispatch(Event::PlaylistUpdated));
            }
            actions.push(Action::Stop);
            self.playlist.clear();
            actions.push(Action::Dispatch(Event::PlaylistUpdated));
            proof {
                assert(self@.playlist =~= Seq::<(Seq<char>, Seq<char>)>::empty());
                assert(actions_view(actions@) =~= actions_view(old(actions)@) + play_step(
                    old(self)@,
                    position as int,
                ).1);
            }
        }
    }

    /// Handles one command and returns what must be done, in order.
    pub fn handle_command(&mut self, command: &Command) -> (r: Vec<Action>)
        requires
            model_wf(old(self)@),
        ensures
            model_wf(final(self)@),
            (final(self)@, actions_view(r@)) == command_step(old(self)@, *command),
    {
        let mut actions: Vec<Action> = Vec::new();
        proof {
            assert(actions_view(actions@) =~= Seq::<ActionModel>::empty());
        }
        match command {
            Command::PreviousTrack => {
                match self.play_state {
                    Some(st) => {
                        let position = if st.position > 0 && st.duration < RESTART_THRESHOLD {
                            st.position - 1
                        } else {
                            st.position
                        };
                        self.play(position, &mut actions);
                    },
                    None => {},
                }
            },
            Command::NextTrack => {
                match self.play_state {
                    Some(st) => {
                        let n = self.playlist.len();
                        assert(self@.playlist.len() == n);
                        self.play(st.position + 1, &mut actions);
                    },
                    None => {},
                }
            },
            Command::PlayPause => {
                match self.play_state {
                    Some(st) => {
                        if st.paused {
                            actions.push(Action::Play);
                        } else {
                            actions.push(Action::Pause);
                        }
                        self.play_state = Some(PlayState { paused: !st.paused, ..st });
                    },
                    None => {
                        if self.playlist.len() > 0 {
                            self.play(0, &mut actions);
                        }
                    },
                }
            },
            Command::VolumeUp => {
                let volume = if self.volume + VOLUME_STEP > VOLUME_MAX {
                    VOLUME_MAX
                } else {
                    self.volume + VOLUME_STEP
                };
                self.volume = volume;
                actions.push(Action::SetVolume(volume));
            },
            Command::VolumeDown => {
                let volume = if self.volume < VOLUME_STEP {
                    0
                } else {
                    self.volume - VOLUME_STEP
                };
                self.volume = volume;
                actions.push(Action::SetVolume(volume));
            },
            Command::Shutdown => {
                actions.push(Action::Stop);
                self.shutting_down = true;
                actions.push(Action::Dispatch(Event::Shutdown));
            },
            Command::StartPlaylist(name, force) => {
                match self.find(name) {
                    Some(i) => {
                        if self.stored_playlists[i].equals(&self.playlist) && !*force {
                        } else {
                            self.playlist = self.stored_playlists[i].tracks();
                            actions.push(Action::Dispatch(Event::PlaylistUpdated));
                            proof {
                                assert(actions_view(actions@) =~= seq![
                                    ActionModel::Dispatch(Event::PlaylistUpdated),
                                ]);
                            }
                            self.play(0, &mut actions);
                        }
                    },
                    None => {},
                }
            },
            Command::Reload => {},
            Command::Status => {},
        }
        proof {
            assert(actions_view(actions@) =~= command_step(old(self)@, *command).1);
        }
        actions
    }

    /// Handles one event from the player and returns what must be done, in
    /// order; the last action passes the message on to listeners.
    pub fn handle_event(&mut self, event: Message<Event>) -> (r: Vec<Action>)
        requires
            model_wf(old(self)@),
        ensures
            model_wf(final(self)@),
            (final(self)@, actions_view(r@)) == event_step(old(self)@, event),
    {
        let mut actions: Vec<Action> = Vec::new();
        proof {
            assert(actions_view(actions@) =~= Seq::<ActionModel>::empty());
        }
        match event.payload {
            Event::PlaybackPaused => {
                match self.play_state {
                    Some(st) => {
                        self.play_state = Some(PlayState { paused: true, ..st });
                    },
                    None => {},
                }
            },
            Event::PlaybackUnpaused => {
                match self.play_state {
                    Some(st) => {
                        self.play_state = Some(PlayState { paused: false, ..st });
                    },
                    None => {},
                }
            },
            Event::PlaybackEnded => {
                match self.play_state {
                    Some(st) => {
                        let n = self.playlist.len();
                        assert(self@.playlist.len() == n);
                        self.play(st.position + 1, &mut actions);
                    },
                    None => {},
                }
            },
            _ => {},
        }
        let ghost mid = actions@;
        let ghost message = event;
        actions.push(Action::Forward(event));
        proof {
            lemma_push_action(mid, Action::Forward(message));
            assert(self@.playlists == old(self)@.playlists);
        }
        actions
    }

    /// Whether playback is under way on exactly the tracks of the stored
    /// playlist called `name`.
    pub fn is_playing_playlist(&self, name: &String) -> (r: bool)
        ensures
            r == (self@.play_state is Some && find_named(self@.playlists, name@) >= 0
                && self@.playlists[find_named(self@.playlists, name@)].1 == self@.playlist),
    {
        if self.play_state.is_none() {
            return false;
        }
        match self.find(name) {
            Some(i) => self.stored_playlists[i].equals(&self.playlist),
            None => false,
        }
    }

    /// Whether a shutdown command has been handled: the loop ends.
    pub fn is_shutting_down(&self) -> (r: bool)
        ensures
            r == self@.shutting_down,
    {
        self.shutting_down
    }

    /// The volume, in percent.
    pub fn volume(&self) -> (r: u64)
        ensures
            r == self@.volume,
    {
        self.volume
    }

    pub fn play_state(&self) -> (r: Option<PlayState>)
        ensures
            r == self@.play_state,
    {
        self.play_state
    }

    /// A copy of the selected playlist's tracks.
    pub fn playlist(&self) -> (r: Vec<Track>)
        ensures
            tracks_view(r@) == self@.playlist,
    {
        copy_tracks(&self.playlist)
    }
}

} // verus!
