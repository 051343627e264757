//! Discrete player actions and the keys that stand for them.

use vstd::prelude::*;

verus! {

/// What the player can ask for.
#[derive(Clone, Copy, PartialEq, Eq, Debug, Structural)]
pub enum Action {
    HardExit,
    Up,
    Down,
    Left,
    Right,
}

/// A key press, as far as the game tells keys apart.
#[derive(Clone, Copy, PartialEq, Eq, Debug, Structural)]
pub enum Key {
    /// The escape key.
    Esc,
    /// A character typed with the control key held.
    Ctrl(char),
    /// A character typed alone.
    Char(char),
    /// The arrow keys.
    Up,
    Down,
    Left,
    Right,
    /// Any other key.
    Other,
}

/// The action that a key stands for, if it stands for one.  Escape and
/// control-c leave the game; the arrows and `k`, `j`, `l`, `h` move up,
/// down, right and left.
pub open spec fn action_of(c: Key) -> Option<Action> {
    match c {
        Key::Esc => Some(Action::HardExit),
        Key::Ctrl(ch) => if ch == 'c' {
            Some(Action::HardExit)
        } else {
            None
        },
        Key::Up => Some(Action::Up),
        Key::Down => Some(Action::Down),
        Key::Right => Some(Action::Right),
        Key::Left => Some(Action::Left),
        Key::Char(ch) => if ch == 'k' {
            Some(Action::Up)
        } else if ch == 'j' {
            Some(Action::Down)
        } else if ch == 'l' {
            Some(Action::Right)
        } else if ch == 'h' {
            Some(Action::Left)
        } else {
            None
        },
        Key::Other => None,
    }
}

/// The actions that the first `n` keys of `keys` stand for, in order; keys
/// that stand for nothing are passed over.
pub open spec fn actions_of(keys: Seq<Key>, n: int) -> Seq<Action>
    decreases n,
{
    if n <= 0 {
        Seq::empty()
    } else {
        match action_of(keys[n - 1]) {
            Some(a) => actions_of(keys, n - 1).push(a),
            None => actions_of(keys, n - 1),
        }
    }
}

/// The action that the key `c` stands for, if any.
pub fn to_action(c: Key) -> (r: Option<Action>)
    ensures
        r == action_of(c),
{
    match c {
        Key::Esc | Key::Ctrl('c') => Some(Action::HardExit),
        Key::Up | Key::Char('k') => Some(Action::Up),
        Key::Down | Key::Char('j') => Some(Action::Down),
        Key::Right | Key::Char('l') => Some(Action::Right),
        Key::Left | Key::Char('h') => Some(Action::Left),
        _ => None,
    }
}

/// Turns the keys pressed since the last tick into actions.
pub fn to_actions(keys: &Vec<Key>) -> (result: Vec<Action>)
    ensures
        result@ == actions_of(keys@, keys@.len() as int),
{
    let mut result: Vec<Action> = Vec::new();
    let mut i: usize = 0;
    while i < keys.len()
        invariant
            i <= keys@.len(),
            result@ == actions_of(keys@, i as int),
        decreases keys@.len() - i,
    {
        match to_action(keys[i]) {
            Some(a) => result.push(a),
            None => (),
        }
        i += 1;
    }
    result
}

/// A source of actions.  `step` hands over the actions that arrived since
/// it was last called, oldest first, without waiting for more.
pub trait Buffer {
    fn step(&mut self) -> Vec<Action>;
}

} // verus!
