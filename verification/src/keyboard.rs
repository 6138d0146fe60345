//! The state of the keys that the host maps to actions.

use vstd::prelude::*;

verus! {

/// What a key of the host does.
#[derive(PartialEq, Eq, Hash, Debug, Clone, Copy, Structural)]
pub enum Action {
    RotateLeft,
    RotateRight,
    Up,
    Down,
    Left,
    Right,
    Space,
    Enter,
    Quit,
    Back,
}

/// Whether a key is held down.
#[derive(PartialEq, Eq, Clone, Copy, Debug, Structural)]
pub enum KeyState {
    Pressed,
    Released,
}

/// A key of the keyboard, as far as the host tells keys apart: the ten that
/// have an action, and any other.
#[derive(PartialEq, Eq, Clone, Copy, Debug, Structural)]
pub enum Key {
    W,
    S,
    A,
    D,
    Q,
    E,
    Space,
    Escape,
    X,
    Return,
    Other,
}

impl Action {
    /// The place of the action in the table of key states.
    pub open spec fn slot(self) -> int {
        match self {
            Action::RotateLeft => 0,
            Action::RotateRight => 1,
            Action::Up => 2,
            Action::Down => 3,
            Action::Left => 4,
            Action::Right => 5,
            Action::Space => 6,
            Action::Enter => 7,
            Action::Quit => 8,
            Action::Back => 9,
        }
    }

    /// The action that has its place at `slot`.
    pub open spec fn at(slot: int) -> Action {
        if slot == 0 {
            Action::RotateLeft
        } else if slot == 1 {
            Action::RotateRight
        } else if slot == 2 {
            Action::Up
        } else if slot == 3 {
            Action::Down
        } else if slot == 4 {
            Action::Left
        } else if slot == 5 {
            Action::Right
        } else if slot == 6 {
            Action::Space
        } else if slot == 7 {
            Action::Enter
        } else if slot == 8 {
            Action::Quit
        } else {
            Action::Back
        }
    }

    /// The action of a key, if it has one.
    pub open spec fn of_key(key: Key) -> Option<Action> {
        match key {
            Key::W => Some(Action::Up),
            Key::S => Some(Action::Down),
            Key::A => Some(Action::Left),
            Key::D => Some(Action::Right),
            Key::Q => Some(Action::RotateLeft),
            Key::E => Some(Action::RotateRight),
            Key::Space => Some(Action::Space),
            Key::Escape => Some(Action::Quit),
            Key::X => Some(Action::Back),
            Key::Return => Some(Action::Enter),
            Key::Other => None,
        }
    }

    /// The place of the action in the table of key states.
    pub fn index(&self) -> (slot: usize)
        ensures
            slot == self.slot(),
            slot < 10,
            Action::at(slot as int) == *self,
    {
        match *self {
            Action::RotateLeft => 0,
            Action::RotateRight => 1,
            Action::Up => 2,
            Action::Down => 3,
            Action::Left => 4,
            Action::Right => 5,
            Action::Space => 6,
            Action::Enter => 7,
            Action::Quit => 8,
            Action::Back => 9,
        }
    }

    /// The action of a key, if it has one.
    pub fn for_key(key: Key) -> (action: Option<Action>)
        ensures
            action == Action::of_key(key),
    {
        match key {
            Key::W => Some(Action::Up),
            Key::S => Some(Action::Down),
            Key::A => Some(Action::Left),
            Key::D => Some(Action::Right),
            Key::Q => Some(Action::RotateLeft),
            Key::E => Some(Action::RotateRight),
            Key::Space => Some(Action::Space),
            Key::Escape => Some(Action::Quit),
            Key::X => Some(Action::Back),
            Key::Return => Some(Action::Enter),
            Key::Other => None,
        }
    }
}

/// What the keys that are held down ask for: a step to the side and a step
/// up or down, each of which two opposite keys cancel; to sit down at the
/// terminal; to leave the game.
#[derive(PartialEq, Eq, Clone, Copy, Debug, Structural)]
pub struct Steering {
    pub across: i8,
    pub along: i8,
    pub terminal: bool,
    pub quit: bool,
}

/// One where the key is held down, and else zero.
pub open spec fn held(state: KeyState) -> int {
    if state == KeyState::Pressed {
        1
    } else {
        0
    }
}

/// The state of the key of every action, each at the place of its action.
pub struct Inputs {
    pub keys: [KeyState; 10],
}

impl View for Inputs {
    type V = Map<Action, KeyState>;

    /// The state of the key of each action.
    open spec fn view(&self) -> Map<Action, KeyState> {
        Map::total(|action: Action| self.keys@[action.slot()])
    }
}

impl Inputs {
    /// Every key released.
    pub fn new() -> (inputs: Inputs)
        ensures
            forall|action: Action| inputs@[action] == KeyState::Released,
    {
        Inputs { keys: [KeyState::Released; 10] }
    }

    /// The action of `key` and the state of its key, which the caller may set,
    /// or `None` for a key that has no action.
    pub fn get(&mut self, key: Key) -> (found: Option<(Action, &mut KeyState)>)
        ensures
            found is Some <==> Action::of_key(key) is Some,
            found matches Some((action, state)) ==> Action::of_key(key) == Some(action) && *state
                == old(self)@[action] && final(self)@ == old(self)@.insert(action, *final(state)),
            found is None ==> final(self)@ == old(self)@,
    {
        match Action::for_key(key) {
            Some(action) => {
                let slot = action.index();
                Some((action, &mut self.keys[slot]))
            },
            None => None,
        }
    }

    /// Releases every key.
    pub fn release_keys(&mut self)
        ensures
            forall|action: Action| final(self)@[action] == KeyState::Released,
    {
        self.keys = [KeyState::Released; 10];
    }

    /// Takes note that `key` has gone into `new_state`. A key that has no
    /// action changes nothing.
    pub fn update(&mut self, key: Key, new_state: KeyState)
        ensures
            final(self)@ == match Action::of_key(key) {
                Some(action) => old(self)@.insert(action, new_state),
                None => old(self)@,
            },
    {
        match self.get(key) {
            Some((_, state)) => {
                if *state == KeyState::Pressed {
                    if new_state == KeyState::Released {
                        *state = KeyState::Released;
                    }
                } else {
                    if new_state == KeyState::Pressed {
                        *state = KeyState::Pressed;
                    }
                }
            },
            None => {},
        }
    }

    /// What the keys that are held down ask for.
    pub fn steer(&self) -> (asked: Steering)
        ensures
            asked.across == held(self@[Action::Right]) - held(self@[Action::Left]),
            asked.along == held(self@[Action::Up]) - held(self@[Action::Down]),
            asked.terminal == (self@[Action::Enter] == KeyState::Pressed),
            asked.quit == (self@[Action::Back] == KeyState::Pressed),
    {
        let mut across: i8 = 0;
        let mut along: i8 = 0;
        if self.keys[Action::Left.index()] == KeyState::Pressed {
            across = across - 1;
        }
        if self.keys[Action::Right.index()] == KeyState::Pressed {
            across = across + 1;
        }
        if self.keys[Action::Up.index()] == KeyState::Pressed {
            along = along + 1;
        }
        if self.keys[Action::Down.index()] == KeyState::Pressed {
            along = along - 1;
        }
        Steering {
            across,
            along,
            terminal: self.keys[Action::Enter.index()] == KeyState::Pressed,
            quit: self.keys[Action::Back.index()] == KeyState::Pressed,
        }
    }

    /// Whether any key is held down.
    pub fn has_update(&self) -> (any: bool)
        ensures
            any == exists|action: Action| self@[action] == KeyState::Pressed,
    {
        let mut slot: usize = 0;
        while slot < 10
            invariant
                slot <= 10,
                forall|action: Action| action.slot() < slot ==> self@[action] != KeyState::Pressed,
            decreases 10 - slot,
        {
            if self.keys[slot] == KeyState::Pressed {
                assert(self@[Action::at(slot as int)] == KeyState::Pressed);
                return true;
            }
            slot += 1;
        }
        false
    }
}

} // verus!
