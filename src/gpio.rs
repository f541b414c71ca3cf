use vstd::prelude::*;

verus! {

/// The level of an input pin.
#[derive(Debug, Clone, Copy, PartialEq, Eq, Structural)]
pub enum LevelDef {
    Low,
    High,
}

/// The pull resistor configured on an input pin.
#[derive(Debug, Clone, Copy, PartialEq, Eq, Structural)]
pub enum PullUpDownDef {
    Off,
    PullDown,
    PullUp,
}

/// A level transition seen on an input pin, stamped with the instant (in
/// milliseconds) at which the interrupt fired.
#[derive(Debug, Clone, Copy, PartialEq, Eq, Structural)]
pub struct PinEvent {
    pub instant: u64,
    pub level: LevelDef,
}

/// A gesture recognised on a button, with the instant it refers to.
#[derive(Debug, Clone, Copy, PartialEq, Eq, Structural)]
pub enum ButtonEvent {
    /// The button was pushed.
    Press(u64),
    /// The button was released.
    Release(u64),
    /// The push was short: a click.
    Click(u64),
    /// The push lasted the hold timeout: a hold.
    Hold(u64),
}

// ----------------------------------------------------------------------------
// Debouncing
// ----------------------------------------------------------------------------

/// What the debouncer learns on one wake-up.
#[derive(Debug, Clone, Copy, PartialEq, Eq, Structural)]
pub enum DebounceInput {
    /// A raw transition arrived at the given instant.
    Arrived(PinEvent, u64),
    /// The debouncer was woken at the given instant with nothing new.
    Tick(u64),
    /// The raw source ended.
    Ended,
}

/// What the debouncer hands on after one wake-up.
#[derive(Debug, Clone, Copy, PartialEq, Eq, Structural)]
pub enum DebounceOutput {
    Deliver(PinEvent),
    Wait,
    End,
}

/// Defers each raw transition until the pin has been quiet for `timeout`
/// milliseconds, then hands on the latest one.
#[derive(Debug)]
pub struct DebouncedPinEventStream {
    pub timeout: u64,
    /// The transition waiting to settle, with the instant it was received.
    pub pending: Option<(PinEvent, u64)>,
}

/// Whether a transition received at `received` has settled at `now`.
pub open spec fn settled(received: u64, now: u64, timeout: u64) -> bool {
    received <= now && now - received >= timeout
}

/// One wake-up of the debouncer: the new state and what it hands on.
pub open spec fn debounce_step(d: DebouncedPinEventStream, input: DebounceInput) -> (
    DebouncedPinEventStream,
    DebounceOutput,
) {
    match input {
        DebounceInput::Arrived(event, now) => (
            DebouncedPinEventStream { timeout: d.timeout, pending: Some((event, now)) },
            DebounceOutput::Wait,
        ),
        DebounceInput::Tick(now) => match d.pending {
            Some((event, received)) => if settled(received, now, d.timeout) {
                (
                    DebouncedPinEventStream { timeout: d.timeout, pending: None },
                    DebounceOutput::Deliver(event),
                )
            } else {
                (d, DebounceOutput::Wait)
            },
            None => (d, DebounceOutput::Wait),
        },
        DebounceInput::Ended => match d.pending {
            Some((event, _)) => (
                DebouncedPinEventStream { timeout: d.timeout, pending: None },
                DebounceOutput::Deliver(event),
            ),
            None => (d, DebounceOutput::End),
        },
    }
}

/// The debouncer after a sequence of wake-ups, with what it handed on at each.
pub open spec fn debounce_run(d: DebouncedPinEventStream, inputs: Seq<DebounceInput>) -> (
    DebouncedPinEventStream,
    Seq<DebounceOutput>,
)
    decreases inputs.len(),
{
    if inputs.len() == 0 {
        (d, Seq::empty())
    } else {
        let (before, outs) = debounce_run(d, inputs.drop_last());
        let (after, out) = debounce_step(before, inputs.last());
        (after, outs.push(out))
    }
}

impl DebouncedPinEventStream {
    pub fn new(timeout: u64) -> (r: DebouncedPinEventStream)
        ensures
            r.timeout == timeout,
            r.pending is None,
    {
        DebouncedPinEventStream { timeout, pending: None }
    }

    /// Handles one wake-up.
    pub fn step(&mut self, input: DebounceInput) -> (r: DebounceOutput)
        ensures
            (*final(self), r) == debounce_step(*old(self), input),
    {
        match input {
            DebounceInput::Arrived(event, now) => {
                self.pending = Some((event, now));
                DebounceOutput::Wait
            },
            DebounceInput::Tick(now) => match self.pending {
                Some((event, received)) => {
                    if received <= now && now - received >= self.timeout {
                        self.pending = None;
                        DebounceOutput::Deliver(event)
                    } else {
                        DebounceOutput::Wait
                    }
                },
                None => DebounceOutput::Wait,
            },
            DebounceInput::Ended => match self.pending {
                Some((event, _)) => {
                    self.pending = None;
                    DebounceOutput::Deliver(event)
                },
                None => DebounceOutput::End,
            },
        }
    }
}

/// The instant of a wake-up (the end of the source carries none).
pub open spec fn input_instant(input: DebounceInput) -> int {
    match input {
        DebounceInput::Arrived(_, now) => now as int,
        DebounceInput::Tick(now) => now as int,
        DebounceInput::Ended => 0,
    }
}

/// The latest transition among the wake-ups, with the instant it was received.
pub open spec fn last_arrival(inputs: Seq<DebounceInput>) -> Option<(PinEvent, u64)>
    decreases inputs.len(),
{
    if inputs.len() == 0 {
        None
    } else {
        match inputs.last() {
            DebounceInput::Arrived(event, now) => Some((event, now)),
            _ => last_arrival(inputs.drop_last()),
        }
    }
}

/// A burst: it starts with a transition, the source does not end, and every
/// later wake-up comes less than `timeout` after the latest transition before it.
pub open spec fn is_burst(inputs: Seq<DebounceInput>, timeout: u64) -> bool {
    &&& inputs.len() > 0
    &&& inputs[0] is Arrived
    &&& forall|i: int|
        0 < i < inputs.len() ==> {
            &&& !(#[trigger] inputs[i] is Ended)
            &&& last_arrival(inputs.take(i)) matches Some((_, t)) && t <= input_instant(inputs[i])
                < t + timeout
        }
}

/// A burst of transitions, each less than the debounce interval after the one
/// before, hands nothing on while it lasts; afterwards the debouncer holds the
/// last transition of the burst, and the first wake-up once the interval has
/// passed (or the end of the source) hands on exactly that transition.
pub proof fn lemma_burst_yields_last(
    d: DebouncedPinEventStream,
    burst: Seq<DebounceInput>,
    now: u64,
)
    requires
        is_burst(burst, d.timeout),
    ensures
        forall|i: int|
            0 <= i < burst.len() ==> #[trigger] debounce_run(d, burst).1[i] == DebounceOutput::Wait,
        debounce_run(d, burst).1.len() == burst.len(),
        debounce_run(d, burst).0.pending == last_arrival(burst),
        last_arrival(burst) matches Some((last, t)) && (settled(t, now, d.timeout) ==> debounce_step(
            debounce_run(d, burst).0,
            DebounceInput::Tick(now),
        ).1 == DebounceOutput::Deliver(last)) && debounce_step(
            debounce_run(d, burst).0,
            DebounceInput::Ended,
        ).1 == DebounceOutput::Deliver(last),
    decreases burst.len(),
{
    lemma_burst_prefix(d, burst, burst.len() as int);
    assert(burst.take(burst.len() as int) =~= burst);
}

proof fn lemma_burst_prefix(d: DebouncedPinEventStream, burst: Seq<DebounceInput>, n: int)
    requires
        is_burst(burst, d.timeout),
        1 <= n <= burst.len(),
    ensures
        ({
            let (s, outs) = debounce_run(d, burst.take(n));
            &&& outs.len() == n
            &&& forall|i: int| 0 <= i < n ==> #[trigger] outs[i] == DebounceOutput::Wait
            &&& s.pending == last_arrival(burst.take(n))
            &&& s.timeout == d.timeout
            &&& s.pending is Some
        }),
    decreases n,
{
    let pre = burst.take(n);
    assert(pre.drop_last() =~= burst.take(n - 1));
    if n == 1 {
        assert(burst.take(0) =~= Seq::<DebounceInput>::empty());
    } else {
        lemma_burst_prefix(d, burst, n - 1);
        let x = burst[n - 1];
        assert(!(x is Ended));
        assert(pre.last() == x);
    }
}

// ----------------------------------------------------------------------------
// Level changes
// ----------------------------------------------------------------------------

/// Hands on only the debounced transitions that change the pin's level.
#[derive(Debug)]
pub struct PinChangeStream {
    /// The level last handed on, at first the level read at construction.
    pub last_level: LevelDef,
}

/// One transition through the level-change filter.
pub open spec fn change_step(f: PinChangeStream, event: PinEvent) -> (PinChangeStream, Option<PinEvent>) {
    if event.level == f.last_level {
        (f, None)
    } else {
        (PinChangeStream { last_level: event.level }, Some(event))
    }
}

/// The filter after a sequence of transitions, with what it handed on.
pub open spec fn change_run(f: PinChangeStream, events: Seq<PinEvent>) -> (PinChangeStream, Seq<PinEvent>)
    decreases events.len(),
{
    if events.len() == 0 {
        (f, Seq::empty())
    } else {
        let (before, outs) = change_run(f, events.drop_last());
        let (after, out) = change_step(before, events.last());
        match out {
            Some(e) => (after, outs.push(e)),
            None => (after, outs),
        }
    }
}

/// No two consecutive events share a level, and the first differs from `start`.
pub open spec fn alternates(start: LevelDef, events: Seq<PinEvent>) -> bool {
    &&& events.len() > 0 ==> events[0].level != start
    &&& forall|i: int| 0 <= i < events.len() - 1 ==> #[trigger] events[i].level != events[i + 1].level
}

impl PinChangeStream {
    pub fn new(initial_level: LevelDef) -> (r: PinChangeStream)
        ensures
            r.last_level == initial_level,
    {
        PinChangeStream { last_level: initial_level }
    }

    /// Passes `event` on when it changes the level, and drops it otherwise.
    pub fn filter(&mut self, event: PinEvent) -> (r: Option<PinEvent>)
        ensures
            (*final(self), r) == change_step(*old(self), event),
    {
        if event.level == self.last_level {
            None
        } else {
            self.last_level = event.level;
            Some(event)
        }
    }
}

/// Whatever transitions come in, the levels that the filter hands on strictly
/// alternate, starting with a change from the level it started at; the level
/// it tracks is the last one handed on.
pub proof fn lemma_changes_alternate(f: PinChangeStream, events: Seq<PinEvent>)
    ensures
        alternates(f.last_level, change_run(f, events).1),
        change_run(f, events).1.len() > 0 ==> change_run(f, events).0.last_level == change_run(
            f,
            events,
        ).1.last().level,
        change_run(f, events).1.len() == 0 ==> change_run(f, events).0.last_level == f.last_level,
    decreases events.len(),
{
    if events.len() > 0 {
        lemma_changes_alternate(f, events.drop_last());
    }
}

// ----------------------------------------------------------------------------
// Gestures
// ----------------------------------------------------------------------------

/// Where a button is in a press cycle.
#[derive(Debug, Clone, Copy, PartialEq, Eq, Structural)]
pub enum GestureState {
    Idle,
    /// Pressed; the click or hold has been reported.
    AwaitingRelease,
    /// Pressed at the first instant, with a hold timer of the second length
    /// running.
    AwaitingReleaseOrHold(u64, u64),
}

/// What the classifier learns on one wake-up.
#[derive(Debug, Clone, Copy, PartialEq, Eq, Structural)]
pub enum GestureInput {
    /// The pin changed level.
    Change(PinEvent),
    /// The classifier was woken at the given instant with no change.
    Tick(u64),
}

/// Turns alternating level changes into presses, releases, clicks and holds.
#[derive(Debug)]
pub struct ButtonEventStream {
    /// The level of the pin while the button is pushed.
    pub pressed_level: LevelDef,
    /// How long a push must last to be a hold; without it every push is a click.
    pub hold_timeout: Option<u64>,
    pub state: GestureState,
}

/// Whether the hold timer, started at `pressed` for `hold`, has run out at `now`.
pub open spec fn hold_elapsed(pressed: u64, hold: u64, now: u64) -> bool {
    pressed <= now && now - pressed >= hold
}

/// One wake-up of the classifier: the new state and the gestures it reports, in order.
pub open spec fn gesture_step(b: ButtonEventStream, input: GestureInput) -> (
    ButtonEventStream,
    Seq<ButtonEvent>,
) {
    let with_state = |s: GestureState|
        ButtonEventStream { pressed_level: b.pressed_level, hold_timeout: b.hold_timeout, state: s };
    match input {
        GestureInput::Change(event) => if event.level == b.pressed_level {
            match b.hold_timeout {
                Some(hold) => (
                    with_state(GestureState::AwaitingReleaseOrHold(event.instant, hold)),
                    seq![ButtonEvent::Press(event.instant)],
                ),
                None => (
                    with_state(GestureState::AwaitingRelease),
                    seq![ButtonEvent::Press(event.instant), ButtonEvent::Click(event.instant)],
                ),
            }
        } else {
            match b.state {
                GestureState::AwaitingReleaseOrHold(pressed, hold) => if hold_elapsed(
                    pressed,
                    hold,
                    event.instant,
                ) {
                    (
                        with_state(GestureState::Idle),
                        seq![
                            ButtonEvent::Hold((pressed + hold) as u64),
                            ButtonEvent::Release(event.instant),
                        ],
                    )
                } else {
                    (
                        with_state(GestureState::Idle),
                        seq![ButtonEvent::Click(event.instant), ButtonEvent::Release(event.instant)],
                    )
                },
                _ => (with_state(GestureState::Idle), seq![ButtonEvent::Release(event.instant)]),
            }
        },
        GestureInput::Tick(now) => match b.state {
            GestureState::AwaitingReleaseOrHold(pressed, hold) => if hold_elapsed(
                pressed,
                hold,
                now,
            ) {
                (
                    with_state(GestureState::AwaitingRelease),
                    seq![ButtonEvent::Hold((pressed + hold) as u64)],
                )
            } else {
                (b, Seq::empty())
            },
            _ => (b, Seq::empty()),
        },
    }
}

/// The classifier after a sequence of wake-ups, with all it reported, in order.
pub open spec fn gesture_run(b: ButtonEventStream, inputs: Seq<GestureInput>) -> (
    ButtonEventStream,
    Seq<ButtonEvent>,
)
    decreases inputs.len(),
{
    if inputs.len() == 0 {
        (b, Seq::empty())
    } else {
        let (before, outs) = gesture_run(b, inputs.drop_last());
        let (after, out) = gesture_step(before, inputs.last());
        (after, outs + out)
    }
}

impl ButtonEventStream {
    pub fn new(pressed_level: LevelDef, hold_timeout: Option<u64>) -> (r: ButtonEventStream)
        ensures
            r.pressed_level == pressed_level,
            r.hold_timeout == hold_timeout,
            r.state == GestureState::Idle,
    {
        ButtonEventStream { pressed_level, hold_timeout, state: GestureState::Idle }
    }

    /// Handles one wake-up and returns the gestures it completes, in order.
    pub fn step(&mut self, input: GestureInput) -> (r: Vec<ButtonEvent>)
        ensures
            (*final(self), r@) == gesture_step(*old(self), input),
    {
        let mut out: Vec<ButtonEvent> = Vec::new();
        match input {
            GestureInput::Change(event) => {
                if event.level == self.pressed_level {
                    out.push(ButtonEvent::Press(event.instant));
                    match self.hold_timeout {
                        Some(hold) => {
                            self.state = GestureState::AwaitingReleaseOrHold(event.instant, hold);
                        },
                        None => {
                            out.push(ButtonEvent::Click(event.instant));
                            self.state = GestureState::AwaitingRelease;
                        },
                    }
                } else {
                    match self.state {
                        GestureState::AwaitingReleaseOrHold(pressed, hold) => {
                            if pressed <= event.instant && event.instant - pressed >= hold {
                                out.push(ButtonEvent::Hold(pressed + hold));
                            } else {
                                out.push(ButtonEvent::Click(event.instant));
                            }
                        },
                        _ => {},
                    }
                    out.push(ButtonEvent::Release(event.instant));
                    self.state = GestureState::Idle;
                }
            },
            GestureInput::Tick(now) => {
                match self.state {
                    GestureState::AwaitingReleaseOrHold(pressed, hold) => {
                        if pressed <= now && now - pressed >= hold {
                            out.push(ButtonEvent::Hold(pressed + hold));
                            self.state = GestureState::AwaitingRelease;
                        }
                    },
                    _ => {},
                }
            },
        }
        proof {
            assert(out@ =~= gesture_step(*old(self), input).1);
        }
        out
    }
}

/// A push from rest with a hold timeout `hold`, released `held` milliseconds
/// later: a release before the timeout gives exactly press, click, release;
/// one at or after it gives exactly press, hold (at the timeout), release.
pub proof fn lemma_press_release(b: ButtonEventStream, pressed_at: u64, held: u64, hold: u64)
    requires
        b.state == GestureState::Idle,
        b.hold_timeout == Some(hold),
        pressed_at + held <= u64::MAX,
    ensures
        ({
            let released_at = (pressed_at + held) as u64;
            let other = if b.pressed_level == LevelDef::High {
                LevelDef::Low
            } else {
                LevelDef::High
            };
            let inputs = seq![
                GestureInput::Change(PinEvent { instant: pressed_at, level: b.pressed_level }),
                GestureInput::Change(PinEvent { instant: released_at, level: other }),
            ];
            &&& held < hold ==> gesture_run(b, inputs).1 == seq![
                ButtonEvent::Press(pressed_at),
                ButtonEvent::Click(released_at),
                ButtonEvent::Release(released_at),
            ]
            &&& held >= hold ==> gesture_run(b, inputs).1 == seq![
                ButtonEvent::Press(pressed_at),
                ButtonEvent::Hold((pressed_at + hold) as u64),
                ButtonEvent::Release(released_at),
            ]
            &&& gesture_run(b, inputs).0.state == GestureState::Idle
        }),
{
    let released_at = (pressed_at + held) as u64;
    let other = if b.pressed_level == LevelDef::High {
        LevelDef::Low
    } else {
        LevelDef::High
    };
    let inputs = seq![
        GestureInput::Change(PinEvent { instant: pressed_at, level: b.pressed_level }),
        GestureInput::Change(PinEvent { instant: released_at, level: other }),
    ];
    assert(inputs.drop_last().drop_last() =~= Seq::<GestureInput>::empty());
    assert(inputs.drop_last() =~= seq![inputs[0]]);
    let r1 = gesture_run(b, inputs.drop_last());
    assert(gesture_run(b, Seq::<GestureInput>::empty()).1 =~= Seq::<ButtonEvent>::empty());
    assert(r1.1 =~= seq![ButtonEvent::Press(pressed_at)]);
    if held < hold {
        assert(gesture_run(b, inputs).1 =~= seq![
            ButtonEvent::Press(pressed_at),
            ButtonEvent::Click(released_at),
            ButtonEvent::Release(released_at),
        ]);
    } else {
        assert(gesture_run(b, inputs).1 =~= seq![
            ButtonEvent::Press(pressed_at),
            ButtonEvent::Hold((pressed_at + hold) as u64),
            ButtonEvent::Release(released_at),
        ]);
    }
}

} // verus!
