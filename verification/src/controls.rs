//! The player's controls: eight keys packed into one byte.

use vstd::prelude::*;

verus! {

/// One control of the player.
#[derive(PartialEq, Eq, Structural, Clone, Copy, Debug)]
pub enum PlayerKey {
    Forward,
    Left,
    Backward,
    Right,
    Up,
    Down,
    Control,
    Hit,
}

/// State of a mouse button or key as the window system reports it.
#[derive(PartialEq, Eq, Structural, Clone, Copy, Debug)]
pub enum ButtonState {
    Pressed,
    Released,
}

/// The set of controls that are held, one bit per `PlayerKey`.
#[derive(Clone, Copy, Debug)]
pub struct PlayerControls {
    keys: u8,
}

/// The byte with only bit `addr` set, or zero where `addr` is 8 or more.
pub open spec fn spec_bitmap(addr: u32) -> u8 {
    ((1u32 << addr) & 0xffu32) as u8
}

impl PlayerKey {
    /// Number of the key's bit.
    pub open spec fn spec_bit(self) -> u32 {
        match self {
            PlayerKey::Forward => 0,
            PlayerKey::Left => 1,
            PlayerKey::Backward => 2,
            PlayerKey::Right => 3,
            PlayerKey::Up => 4,
            PlayerKey::Down => 5,
            PlayerKey::Control => 6,
            PlayerKey::Hit => 7,
        }
    }

    /// The byte with only the key's bit set.
    pub open spec fn spec_mask(self) -> u8 {
        match self {
            PlayerKey::Forward => 1,
            PlayerKey::Left => 2,
            PlayerKey::Backward => 4,
            PlayerKey::Right => 8,
            PlayerKey::Up => 16,
            PlayerKey::Down => 32,
            PlayerKey::Control => 64,
            PlayerKey::Hit => 128,
        }
    }

    /// Number of the key's bit.
    pub fn bit(self) -> (r: u32)
        ensures
            r == self.spec_bit(),
            r < 8,
            spec_bitmap(r) == self.spec_mask(),
    {
        proof {
            lemma_bitmaps();
        }
        match self {
            PlayerKey::Forward => 0,
            PlayerKey::Left => 1,
            PlayerKey::Backward => 2,
            PlayerKey::Right => 3,
            PlayerKey::Up => 4,
            PlayerKey::Down => 5,
            PlayerKey::Control => 6,
            PlayerKey::Hit => 7,
        }
    }

    /// The angle, in degrees, that is added to the yaw to get the direction
    /// in which this key moves the player; `None` for a key that does not
    /// move the player in the horizontal plane.
    pub fn heading(self) -> (r: Option<u16>)
        ensures
            r == match self {
                PlayerKey::Forward => Some(0u16),
                PlayerKey::Left => Some(90u16),
                PlayerKey::Backward => Some(180u16),
                PlayerKey::Right => Some(270u16),
                _ => None::<u16>,
            },
    {
        match self {
            PlayerKey::Forward => Some(0),
            PlayerKey::Left => Some(90),
            PlayerKey::Backward => Some(180),
            PlayerKey::Right => Some(270),
            _ => None,
        }
    }
}

/// The bytes that `spec_bitmap` gives for the eight bits of a byte.
pub proof fn lemma_bitmaps()
    ensures
        spec_bitmap(0) == 1,
        spec_bitmap(1) == 2,
        spec_bitmap(2) == 4,
        spec_bitmap(3) == 8,
        spec_bitmap(4) == 16,
        spec_bitmap(5) == 32,
        spec_bitmap(6) == 64,
        spec_bitmap(7) == 128,
{
    assert(((1u32 << 0u32) & 0xffu32) == 1) by (bit_vector);
    assert(((1u32 << 1u32) & 0xffu32) == 2) by (bit_vector);
    assert(((1u32 << 2u32) & 0xffu32) == 4) by (bit_vector);
    assert(((1u32 << 3u32) & 0xffu32) == 8) by (bit_vector);
    assert(((1u32 << 4u32) & 0xffu32) == 16) by (bit_vector);
    assert(((1u32 << 5u32) & 0xffu32) == 32) by (bit_vector);
    assert(((1u32 << 6u32) & 0xffu32) == 64) by (bit_vector);
    assert(((1u32 << 7u32) & 0xffu32) == 128) by (bit_vector);
}

impl PlayerControls {
    /// The byte of held keys.
    pub closed spec fn view(&self) -> u8 {
        self.keys
    }

    /// Whether `key` is held.
    pub open spec fn spec_pressed(self, key: PlayerKey) -> bool {
        self@ & key.spec_mask() != 0
    }

    /// The controls with only bit `addr` held; none where `addr` is 8 or
    /// more.
    pub fn key_bitmap(addr: u32) -> (r: PlayerControls)
        requires
            addr < 32,
        ensures
            r@ == spec_bitmap(addr),
    {
        let wide: u32 = 1u32 << addr;
        let low: u32 = wide & 0xff;
        assert(low <= 0xff) by (bit_vector)
            requires
                low == wide & 0xffu32,
        ;
        PlayerControls { keys: low as u8 }
    }

    /// Whether bit `addr` is held.
    pub fn get_bitmap(self, addr: u32) -> (r: bool)
        requires
            addr < 32,
        ensures
            r == (self@ & spec_bitmap(addr) != 0),
    {
        let probe: PlayerControls = PlayerControls::key_bitmap(addr);
        (self.keys & probe.keys) > 0
    }

    /// No key held.
    pub fn none() -> (r: PlayerControls)
        ensures
            r@ == 0,
    {
        PlayerControls { keys: 0 }
    }

    /// Whether `key` is held.
    pub fn pressed(self, key: PlayerKey) -> (r: bool)
        ensures
            r == self.spec_pressed(key),
    {
        self.get_bitmap(key.bit())
    }

    /// The controls that a mouse button gives: `Hit` while it is pressed,
    /// nothing otherwise.
    pub fn mouse(mouse_state: ButtonState) -> (r: PlayerControls)
        ensures
            r@ == (if mouse_state == ButtonState::Pressed {
                PlayerKey::Hit.spec_mask()
            } else {
                0u8
            }),
    {
        match mouse_state {
            ButtonState::Pressed => PlayerControls::from_key(PlayerKey::Hit),
            ButtonState::Released => PlayerControls::none(),
        }
    }

    /// The controls with only `key` held.
    pub fn from_key(key: PlayerKey) -> (r: PlayerControls)
        ensures
            r@ == key.spec_mask(),
    {
        PlayerControls::key_bitmap(key.bit())
    }

    /// The controls from their byte.
    pub fn from_bits(keys: u8) -> (r: PlayerControls)
        ensures
            r@ == keys,
    {
        PlayerControls { keys }
    }

    /// The byte of held keys.
    pub fn bits(self) -> (r: u8)
        ensures
            r == self@,
    {
        self.keys
    }

    /// The controls after `key` went to `state`: `key` is held exactly
    /// where `state` is `Pressed`, and every other key is as it was.
    pub fn with_key(self, key: PlayerKey, state: ButtonState) -> (r: PlayerControls)
        ensures
            r@ == (if state == ButtonState::Pressed {
                self@ | key.spec_mask()
            } else {
                self@ & !key.spec_mask()
            }),
            forall|probe: PlayerKey|
                #[trigger] r.spec_pressed(probe) == (if probe == key {
                    state == ButtonState::Pressed
                } else {
                    self.spec_pressed(probe)
                }),
    {
        let bit: u8 = PlayerControls::from_key(key).keys;
        let keys: u8 = match state {
            ButtonState::Pressed => self.keys | bit,
            ButtonState::Released => self.keys & !bit,
        };
        let r = PlayerControls { keys };
        proof {
            assert forall|probe: PlayerKey| #[trigger]
                r.spec_pressed(probe) == (if probe == key {
                    state == ButtonState::Pressed
                } else {
                    self.spec_pressed(probe)
                }) by {
                let m = self.keys;
                let a = key.spec_mask();
                let b = probe.spec_mask();
                assert((a == 1 || a == 2 || a == 4 || a == 8 || a == 16 || a == 32 || a == 64 || a
                    == 128) && (b == 1 || b == 2 || b == 4 || b == 8 || b == 16 || b == 32 || b == 64
                    || b == 128) ==> (((m | a) & b != 0) <==> (a == b || m & b != 0)) && (((m & !a) & b
                    != 0) <==> (a != b && m & b != 0))) by (bit_vector);
            }
        }
        r
    }

    /// Adds the keys held in `rhs`.
    pub fn bitor_assign(&mut self, rhs: PlayerControls)
        ensures
            final(self)@ == old(self)@ | rhs@,
    {
        self.keys = self.keys | rhs.keys;
    }
}

impl core::ops::BitOr for PlayerControls {
    type Output = PlayerControls;

    /// The keys held in `self` or in `other`.
    fn bitor(self, other: PlayerControls) -> (r: PlayerControls) {
        PlayerControls { keys: self.keys | other.keys }
    }
}

impl vstd::std_specs::ops::BitOrSpecImpl for PlayerControls {
    open spec fn obeys_bitor_spec() -> bool {
        true
    }

    open spec fn bitor_req(self, other: PlayerControls) -> bool {
        true
    }

    open spec fn bitor_spec(self, other: PlayerControls) -> PlayerControls {
        PlayerControls::spec_of(self@ | other@)
    }
}

impl From<PlayerKey> for PlayerControls {
    fn from(key: PlayerKey) -> (r: PlayerControls) {
        PlayerControls::from_key(key)
    }
}

impl vstd::std_specs::convert::FromSpecImpl<PlayerKey> for PlayerControls {
    open spec fn obeys_from_spec() -> bool {
        true
    }

    open spec fn from_spec(key: PlayerKey) -> PlayerControls {
        PlayerControls::spec_of(key.spec_mask())
    }
}

impl PlayerControls {
    /// The controls whose byte is `keys`.
    pub closed spec fn spec_of(keys: u8) -> PlayerControls {
        PlayerControls { keys }
    }

    /// `spec_of` and the view are inverse to each other.
    pub proof fn lemma_spec_of(keys: u8)
        ensures
            PlayerControls::spec_of(keys)@ == keys,
    {
    }
}

/// With no key held, no key reads as pressed.
pub proof fn lemma_none_pressed(c: PlayerControls, key: PlayerKey)
    requires
        c@ == 0,
    ensures
        !c.spec_pressed(key),
{
    let m = key.spec_mask();
    assert(0u8 & m == 0) by (bit_vector);
}

/// The controls of a single key read as pressed for that key and no other.
pub proof fn lemma_single_key(c: PlayerControls, key: PlayerKey, probe: PlayerKey)
    requires
        c@ == key.spec_mask(),
    ensures
        c.spec_pressed(probe) <==> probe == key,
{
    let a = key.spec_mask();
    let b = probe.spec_mask();
    assert((a == 1 || a == 2 || a == 4 || a == 8 || a == 16 || a == 32 || a == 64 || a == 128) && (b
        == 1 || b == 2 || b == 4 || b == 8 || b == 16 || b == 32 || b == 64 || b == 128) ==> ((a & b
        != 0) <==> a == b)) by (bit_vector);
}

/// A key is pressed in the union of two controls exactly where it is pressed
/// in one of them.
pub proof fn lemma_union_pressed(a: PlayerControls, b: PlayerControls, u: PlayerControls, key: PlayerKey)
    requires
        u@ == a@ | b@,
    ensures
        u.spec_pressed(key) <==> a.spec_pressed(key) || b.spec_pressed(key),
{
    let x = a@;
    let y = b@;
    let m = key.spec_mask();
    assert(((x | y) & m != 0) <==> (x & m != 0 || y & m != 0)) by (bit_vector);
}

} // verus!
