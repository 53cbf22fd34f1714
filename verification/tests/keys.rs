use player_core::keys::Key;
use player_core::keys::KeyHeld;
use player_core::keys::KeyState;
use player_core::keys::Motion;

fn held(keys: &KeyHeld) -> Vec<Key> {
    keys.iter()
}

#[test]
fn nothing_is_held_at_first() {
    assert_eq!(held(&KeyHeld::new()), vec![]);
}

#[test]
fn a_pressed_key_is_held_once() {
    let mut keys = KeyHeld::new();
    keys.key_pressed(Key::W);
    keys.key_pressed(Key::W);
    keys.key_pressed(Key::Other(3));
    let now = held(&keys);
    assert_eq!(now.len(), 2);
    assert!(now.contains(&Key::W));
    assert!(now.contains(&Key::Other(3)));
}

#[test]
fn a_released_key_is_no_longer_held() {
    let mut keys = KeyHeld::new();
    keys.key_pressed(Key::Up);
    keys.key_pressed(Key::Minus);
    keys.key_pressed(Key::Other(7));
    keys.key_released(&Key::Minus);
    keys.key_released(&Key::Other(8));
    let now = held(&keys);
    assert_eq!(now.len(), 2);
    assert!(now.contains(&Key::Up));
    assert!(now.contains(&Key::Other(7)));
    keys.key_released(&Key::Up);
    keys.key_released(&Key::Other(7));
    assert_eq!(held(&keys), vec![]);
    keys.key_released(&Key::Up);
    assert_eq!(held(&keys), vec![]);
}

#[test]
fn input_events_press_and_release() {
    let mut keys = KeyHeld::new();
    keys.give_input(KeyState::Pressed, Some(Key::A));
    keys.give_input(KeyState::Pressed, None);
    keys.give_input(KeyState::Released, None);
    assert_eq!(held(&keys), vec![Key::A]);
    keys.give_input(KeyState::Released, Some(Key::H));
    assert_eq!(held(&keys), vec![Key::A]);
    keys.give_input(KeyState::Released, Some(Key::A));
    assert_eq!(held(&keys), vec![]);
}

#[test]
fn keys_are_bound_to_their_motions() {
    for key in [Key::W, Key::K, Key::Up] {
        assert_eq!(key.motion(), Motion::PanUp);
    }
    for key in [Key::A, Key::H, Key::Left] {
        assert_eq!(key.motion(), Motion::PanLeft);
    }
    for key in [Key::S, Key::J, Key::Down] {
        assert_eq!(key.motion(), Motion::PanDown);
    }
    for key in [Key::D, Key::L, Key::Right] {
        assert_eq!(key.motion(), Motion::PanRight);
    }
    for key in [Key::Equals, Key::Plus] {
        assert_eq!(key.motion(), Motion::ZoomIn);
    }
    assert_eq!(Key::Minus.motion(), Motion::ZoomOut);
    assert_eq!(Key::Other(0).motion(), Motion::Stay);
    assert_eq!(Key::Other(32).motion(), Motion::Stay);
}
