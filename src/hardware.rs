use vstd::prelude::*;

use crate::events::{Command, Message};
use crate::gpio::{ButtonEvent, LevelDef, PullUpDownDef};

verus! {

/// How long a push must last to count as a hold, in milliseconds.
pub const BUTTON_HOLD_TIMEOUT: u64 = 1000;

/// How long a pin must stay quiet before a transition is trusted, in milliseconds.
pub const BUTTON_DEBOUNCE: u64 = 50;

/// A push button wired to an input pin, with the command a click sends and,
/// optionally, the command a hold sends.
#[derive(Debug)]
pub struct ButtonConfig {
    pub pin: u8,
    pub kind: PullUpDownDef,
    /// The level of the pin while the button is pushed.
    pub on: LevelDef,
    pub command: Command,
    pub hold_command: Option<Command>,
}

impl ButtonConfig {
    /// The hold timeout for this button: only a button with a hold command
    /// tells holds from clicks.
    pub fn hold_timeout(&self) -> (r: Option<u64>)
        ensures
            r == if self.hold_command is Some {
                Some(BUTTON_HOLD_TIMEOUT)
            } else {
                None
            },
    {
        match self.hold_command {
            Some(_) => Some(BUTTON_HOLD_TIMEOUT),
            None => None,
        }
    }

    /// The command a gesture sends, stamped with the gesture's instant: a
    /// click sends the button's command, a hold its hold command if it has
    /// one; presses and releases send nothing.
    pub fn command_for(&self, event: ButtonEvent) -> (r: Option<Message<Command>>)
        ensures
            match event {
                ButtonEvent::Click(i) => r == Some(Message { instant: i, payload: self.command }),
                ButtonEvent::Hold(i) => match self.hold_command {
                    Some(c) => r == Some(Message { instant: i, payload: c }),
                    None => r is None,
                },
                _ => r is None,
            },
    {
        match event {
            ButtonEvent::Click(i) => Some(Message::new(i, self.command.clone())),
            ButtonEvent::Hold(i) => match &self.hold_command {
                Some(c) => Some(Message::new(i, c.clone())),
                None => None,
            },
            _ => None,
        }
    }
}

/// The buttons of the appliance.
#[derive(Debug)]
pub struct Buttons {
    pub configs: Vec<ButtonConfig>,
}

/// A key on the keyboard.
#[derive(Debug, Clone, Copy, PartialEq, Eq, Structural)]
pub enum Key {
    Char(char),
    /// A function key, by number.
    F(u8),
    Enter,
    Esc,
    Backspace,
    Tab,
    BackTab,
    Delete,
    Insert,
    Home,
    End,
    PageUp,
    PageDown,
    Up,
    Down,
    Left,
    Right,
}

/// A key bound to a command: the key and the modifier bits held with it.
#[derive(Debug)]
pub struct KeyConfig {
    pub key: Key,
    pub modifiers: u8,
    pub command: Command,
}

/// The index of the first binding for `key` with `modifiers`, or the number
/// of bindings.
pub open spec fn first_binding(keys: Seq<KeyConfig>, key: Key, modifiers: u8) -> int
    decreases keys.len(),
{
    if keys.len() == 0 {
        0
    } else if keys[0].key == key && keys[0].modifiers == modifiers {
        0
    } else {
        1 + first_binding(keys.drop_first(), key, modifiers)
    }
}

proof fn lemma_first_binding(keys: Seq<KeyConfig>, key: Key, modifiers: u8, k: int)
    requires
        0 <= k <= keys.len(),
        forall|j: int|
            0 <= j < k ==> !((#[trigger] keys[j]).key == key && keys[j].modifiers == modifiers),
        k < keys.len() ==> keys[k].key == key && keys[k].modifiers == modifiers,
    ensures
        first_binding(keys, key, modifiers) == k,
    decreases k,
{
    if k > 0 {
        let t = keys.drop_first();
        assert forall|j: int|
            0 <= j < k - 1 implies !((#[trigger] t[j]).key == key && t[j].modifiers
            == modifiers) by {
            assert(t[j] == keys[j + 1]);
        }
        lemma_first_binding(t, key, modifiers, k - 1);
    }
}

/// The keyboard as a source of commands.
#[derive(Debug)]
pub struct Keyboard {
    pub keys: Vec<KeyConfig>,
}

impl Keyboard {
    /// The command bound to a key press (the first binding that matches),
    /// stamped with `instant`; `None` for an unbound key.
    pub fn generate_command(&self, key: Key, modifiers: u8, instant: u64) -> (r: Option<
        Message<Command>,
    >)
        ensures
            ({
                let i = first_binding(self.keys@, key, modifiers);
                if i < self.keys@.len() {
                    r == Some(Message { instant, payload: self.keys@[i].command })
                } else {
                    r is None
                }
            }),
    {
        let n = self.keys.len();
        let mut i: usize = 0;
        while i < n
            invariant
                n == self.keys@.len(),
                0 <= i <= n,
                forall|j: int|
                    0 <= j < i ==> !((#[trigger] self.keys@[j]).key == key && self.keys@[j].modifiers
                        == modifiers),
            decreases n - i,
        {
            if self.keys[i].key == key && self.keys[i].modifiers == modifiers {
                proof {
                    lemma_first_binding(self.keys@, key, modifiers, i as int);
                }
                return Some(Message::new(instant, self.keys[i].command.clone()));
            }
            i = i + 1;
        }
        proof {
            lemma_first_binding(self.keys@, key, modifiers, n as int);
        }
        None
    }
}

} // verus!
