use musicbox::{
    ButtonEvent, ButtonEventStream, DebounceInput, DebounceOutput, DebouncedPinEventStream,
    GestureInput, LevelDef, PinChangeStream, PinEvent,
};

fn ev(instant: u64, level: LevelDef) -> PinEvent {
    PinEvent { instant, level }
}

#[test]
fn debounce_burst_delivers_last_transition_once() {
    let mut d = DebouncedPinEventStream::new(50);
    let burst = [
        (ev(100, LevelDef::High), 100),
        (ev(120, LevelDef::Low), 120),
        (ev(160, LevelDef::High), 160),
        (ev(200, LevelDef::Low), 200),
    ];
    for (e, now) in burst.iter() {
        assert_eq!(d.step(DebounceInput::Arrived(*e, *now)), DebounceOutput::Wait);
        assert_eq!(d.step(DebounceInput::Tick(*now + 10)), DebounceOutput::Wait);
    }
    assert_eq!(d.step(DebounceInput::Tick(249)), DebounceOutput::Wait);
    assert_eq!(
        d.step(DebounceInput::Tick(250)),
        DebounceOutput::Deliver(ev(200, LevelDef::Low))
    );
    assert_eq!(d.step(DebounceInput::Tick(400)), DebounceOutput::Wait);
    assert_eq!(d.step(DebounceInput::Ended), DebounceOutput::End);
}

#[test]
fn debounce_flushes_pending_on_end() {
    let mut d = DebouncedPinEventStream::new(50);
    d.step(DebounceInput::Arrived(ev(10, LevelDef::High), 10));
    assert_eq!(
        d.step(DebounceInput::Ended),
        DebounceOutput::Deliver(ev(10, LevelDef::High))
    );
    assert_eq!(d.step(DebounceInput::Ended), DebounceOutput::End);
}

#[test]
fn level_changes_alternate() {
    let mut f = PinChangeStream::new(LevelDef::High);
    let input = [
        LevelDef::High,
        LevelDef::Low,
        LevelDef::Low,
        LevelDef::High,
        LevelDef::High,
        LevelDef::Low,
    ];
    let mut out = Vec::new();
    for (i, l) in input.iter().enumerate() {
        if let Some(e) = f.filter(ev(i as u64, *l)) {
            out.push(e);
        }
    }
    assert_eq!(
        out,
        vec![ev(1, LevelDef::Low), ev(3, LevelDef::High), ev(5, LevelDef::Low)]
    );
    assert_eq!(f.last_level, LevelDef::Low);
}

fn run(b: &mut ButtonEventStream, inputs: &[GestureInput]) -> Vec<ButtonEvent> {
    let mut out = Vec::new();
    for i in inputs {
        out.extend(b.step(*i));
    }
    out
}

#[test]
fn short_press_is_a_click() {
    let mut b = ButtonEventStream::new(LevelDef::Low, Some(1000));
    let out = run(
        &mut b,
        &[
            GestureInput::Change(ev(500, LevelDef::Low)),
            GestureInput::Tick(900),
            GestureInput::Change(ev(800, LevelDef::High)),
        ],
    );
    assert_eq!(
        out,
        vec![
            ButtonEvent::Press(500),
            ButtonEvent::Click(800),
            ButtonEvent::Release(800)
        ]
    );
}

#[test]
fn long_press_is_a_hold() {
    let mut b = ButtonEventStream::new(LevelDef::Low, Some(1000));
    let out = run(
        &mut b,
        &[
            GestureInput::Change(ev(500, LevelDef::Low)),
            GestureInput::Tick(1500),
            GestureInput::Tick(1600),
            GestureInput::Change(ev(2100, LevelDef::High)),
        ],
    );
    assert_eq!(
        out,
        vec![
            ButtonEvent::Press(500),
            ButtonEvent::Hold(1500),
            ButtonEvent::Release(2100)
        ]
    );
}

#[test]
fn long_press_without_wakeup_is_still_a_hold() {
    let mut b = ButtonEventStream::new(LevelDef::High, Some(1000));
    let out = run(
        &mut b,
        &[
            GestureInput::Change(ev(0, LevelDef::High)),
            GestureInput::Change(ev(1000, LevelDef::Low)),
        ],
    );
    assert_eq!(
        out,
        vec![
            ButtonEvent::Press(0),
            ButtonEvent::Hold(1000),
            ButtonEvent::Release(1000)
        ]
    );
}

#[test]
fn press_without_hold_timeout_clicks_at_once() {
    let mut b = ButtonEventStream::new(LevelDef::Low, None);
    let out = run(
        &mut b,
        &[
            GestureInput::Change(ev(5, LevelDef::Low)),
            GestureInput::Tick(5000),
            GestureInput::Change(ev(6000, LevelDef::High)),
        ],
    );
    assert_eq!(
        out,
        vec![
            ButtonEvent::Press(5),
            ButtonEvent::Click(5),
            ButtonEvent::Release(6000)
        ]
    );
}

#[test]
fn initial_release_reports_release_only() {
    let mut b = ButtonEventStream::new(LevelDef::Low, Some(1000));
    let out = run(&mut b, &[GestureInput::Change(ev(7, LevelDef::High))]);
    assert_eq!(out, vec![ButtonEvent::Release(7)]);
}
