use voxel_core::controls::{ButtonState, PlayerControls, PlayerKey};

const KEYS: [PlayerKey; 8] = [
    PlayerKey::Forward,
    PlayerKey::Left,
    PlayerKey::Backward,
    PlayerKey::Right,
    PlayerKey::Up,
    PlayerKey::Down,
    PlayerKey::Control,
    PlayerKey::Hit,
];

#[test]
fn none_presses_nothing() {
    let c = PlayerControls::none();
    assert_eq!(c.bits(), 0);
    for &k in KEYS.iter() {
        assert!(!c.pressed(k));
    }
}

#[test]
fn single_key_presses_only_itself() {
    for (i, &k) in KEYS.iter().enumerate() {
        let c = PlayerControls::from(k);
        assert_eq!(c.bits(), 1u8 << i);
        assert_eq!(k.bit(), i as u32);
        for &probe in KEYS.iter() {
            assert_eq!(c.pressed(probe), probe == k);
        }
    }
}

#[test]
fn union_presses_both() {
    let mut c = PlayerControls::from_key(PlayerKey::Forward) | PlayerControls::from_key(PlayerKey::Hit);
    assert_eq!(c.bits(), 0b1000_0001);
    assert!(c.pressed(PlayerKey::Forward));
    assert!(c.pressed(PlayerKey::Hit));
    assert!(!c.pressed(PlayerKey::Left));
    c.bitor_assign(PlayerControls::from_key(PlayerKey::Control));
    assert_eq!(c.bits(), 0b1100_0001);
    assert!(c.pressed(PlayerKey::Control));
}

#[test]
fn bitmaps_by_number() {
    assert_eq!(PlayerControls::key_bitmap(0).bits(), 1);
    assert_eq!(PlayerControls::key_bitmap(7).bits(), 128);
    assert_eq!(PlayerControls::key_bitmap(8).bits(), 0);
    assert_eq!(PlayerControls::key_bitmap(31).bits(), 0);
    let c = PlayerControls::from_bits(0b0000_0110);
    assert!(!c.get_bitmap(0));
    assert!(c.get_bitmap(1));
    assert!(c.get_bitmap(2));
    assert!(!c.get_bitmap(9));
}

#[test]
fn mouse_button_is_hit() {
    assert_eq!(PlayerControls::mouse(ButtonState::Pressed).bits(), 128);
    assert!(PlayerControls::mouse(ButtonState::Pressed).pressed(PlayerKey::Hit));
    assert_eq!(PlayerControls::mouse(ButtonState::Released).bits(), 0);
}

#[test]
fn headings_of_the_movement_keys() {
    assert_eq!(PlayerKey::Forward.heading(), Some(0));
    assert_eq!(PlayerKey::Left.heading(), Some(90));
    assert_eq!(PlayerKey::Backward.heading(), Some(180));
    assert_eq!(PlayerKey::Right.heading(), Some(270));
    assert_eq!(PlayerKey::Up.heading(), None);
    assert_eq!(PlayerKey::Down.heading(), None);
    assert_eq!(PlayerKey::Control.heading(), None);
    assert_eq!(PlayerKey::Hit.heading(), None);
}

#[test]
fn keys_go_down_and_up() {
    let mut c = PlayerControls::none();
    c = c.with_key(PlayerKey::Left, ButtonState::Pressed);
    c = c.with_key(PlayerKey::Hit, ButtonState::Pressed);
    assert_eq!(c.bits(), 0b1000_0010);
    c = c.with_key(PlayerKey::Left, ButtonState::Pressed);
    assert_eq!(c.bits(), 0b1000_0010);
    c = c.with_key(PlayerKey::Left, ButtonState::Released);
    assert_eq!(c.bits(), 0b1000_0000);
    c = c.with_key(PlayerKey::Up, ButtonState::Released);
    assert_eq!(c.bits(), 0b1000_0000);
    assert!(c.pressed(PlayerKey::Hit));
    assert!(!c.pressed(PlayerKey::Left));
}
