use termion::input::TermRead;
use tilesim::input::{to_action, to_actions, Action, Key};

fn key_of(key: termion::event::Key) -> Key {
    match key {
        termion::event::Key::Esc => Key::Esc,
        termion::event::Key::Ctrl(c) => Key::Ctrl(c),
        termion::event::Key::Char(c) => Key::Char(c),
        termion::event::Key::Up => Key::Up,
        termion::event::Key::Down => Key::Down,
        termion::event::Key::Left => Key::Left,
        termion::event::Key::Right => Key::Right,
        _ => Key::Other,
    }
}

fn step(bytes: &[u8]) -> Vec<Action> {
    let keys: Vec<Key> = bytes.keys().map(|key| key_of(key.unwrap())).collect();
    to_actions(&keys)
}

#[test]
fn reads_single_key() {
    let actions = step(b"k");

    assert_eq!(actions.len(), 1);
    assert_eq!(actions[0], Action::Up);
}

#[test]
fn reads_same_key_multiple_times() {
    let actions = step(b"kkkk");

    assert_eq!(actions.len(), 4);

    for action in actions {
        assert_eq!(action, Action::Up);
    }
}

#[test]
fn reads_nothing_with_unused_keys() {
    let actions = step(b"____");

    assert_eq!(actions.len(), 0);
}

#[test]
fn reads_key_after_unused_keys() {
    let actions = step(b"____j");

    assert_eq!(actions.len(), 1);
    assert_eq!(actions[0], Action::Down);
}

#[test]
fn reads_multiple_different_keys() {
    let actions = step(b"kj");

    assert_eq!(actions.len(), 2);
    assert_eq!(actions[0], Action::Up);
    assert_eq!(actions[1], Action::Down);
}

#[test]
fn every_key_of_the_game_has_its_action() {
    assert_eq!(to_action(Key::Esc), Some(Action::HardExit));
    assert_eq!(to_action(Key::Ctrl('c')), Some(Action::HardExit));
    assert_eq!(to_action(Key::Up), Some(Action::Up));
    assert_eq!(to_action(Key::Char('k')), Some(Action::Up));
    assert_eq!(to_action(Key::Down), Some(Action::Down));
    assert_eq!(to_action(Key::Char('j')), Some(Action::Down));
    assert_eq!(to_action(Key::Right), Some(Action::Right));
    assert_eq!(to_action(Key::Char('l')), Some(Action::Right));
    assert_eq!(to_action(Key::Left), Some(Action::Left));
    assert_eq!(to_action(Key::Char('h')), Some(Action::Left));
}

#[test]
fn other_keys_have_no_action() {
    assert_eq!(to_action(Key::Other), None);
    assert_eq!(to_action(Key::Char('c')), None);
    assert_eq!(to_action(Key::Char('K')), None);
    assert_eq!(to_action(Key::Ctrl('k')), None);
    assert_eq!(to_action(Key::Ctrl('d')), None);
}

#[test]
fn keys_turn_into_actions_in_order() {
    let keys = vec![
        Key::Char('h'),
        Key::Other,
        Key::Esc,
        Key::Char('x'),
        Key::Right,
        Key::Ctrl('c'),
    ];
    assert_eq!(
        to_actions(&keys),
        vec![Action::Left, Action::HardExit, Action::Right, Action::HardExit]
    );
    assert_eq!(to_actions(&vec![]), vec![]);
}

#[test]
fn arrow_keys_and_escape_are_read_from_the_terminal() {
    assert_eq!(step(b"\x1b[A"), vec![Action::Up]);
    assert_eq!(step(b"\x1b[B"), vec![Action::Down]);
    assert_eq!(step(b"\x1b[C"), vec![Action::Right]);
    assert_eq!(step(b"\x1b[D"), vec![Action::Left]);
    assert_eq!(step(b"\x03"), vec![Action::HardExit]);
    assert_eq!(step(b"\x1b"), vec![Action::HardExit]);
}
